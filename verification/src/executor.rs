//! The executor: runs an approved command with the same handlers as a
//! simulation, but writing to the session's persistent active write layer,
//! and only once the checkpoint it was approved against is one the
//! session has sealed.

use vstd::prelude::*;
use crate::handlers::{dispatch, handler_of, session_kept, CommandResult, Handler, ShellHost};
use crate::parser::ParsedCommand;
use crate::rollback::CheckpointId;
use crate::session::TerminalSession;
use crate::simulation::diff::{compute, hashes_are_digests, hashes_cover, SimulationDiff};
use crate::simulation::resolver::{FsError, LayerOps, LayeredResolver};

verus! {

/// What running a command produced: its result and what it changed in the
/// active write layer.
pub struct ExecutionOutcome {
    pub command_result: CommandResult,
    pub diff: SimulationDiff,
}

/// Why a command was not executed.
#[derive(Debug, Clone, PartialEq, Eq)]
pub enum ExecutionError {
    /// The approval names a checkpoint this session has not sealed.
    UnknownCheckpoint,
    /// The layered view failed.
    View(FsError),
}

/// Runs `parsed` over the active write layer on top of the session's
/// sealed layers, once the approval's checkpoint is among `checkpoints`;
/// then computes what the active write layer changed.
pub fn execute<L: LayerOps, H: ShellHost>(
    active_write: L,
    lower: Vec<L>,
    checkpoints: &[CheckpointId],
    approved_checkpoint: CheckpointId,
    session: &mut TerminalSession,
    parsed: &ParsedCommand,
    host: &H,
) -> (r: Result<ExecutionOutcome, ExecutionError>)
    ensures
        !checkpoints@.contains(approved_checkpoint) ==> r == Err::<ExecutionOutcome, ExecutionError>(
            ExecutionError::UnknownCheckpoint,
        ) && session_kept(*final(session), *old(session)),
        handler_of(parsed.name@) != Some(Handler::Cd) && handler_of(parsed.name@) != Some(Handler::SafeshellPkg)
            ==> session_kept(*final(session), *old(session)),
        r matches Ok(o) ==> hashes_cover(o.diff) && hashes_are_digests(o.diff),
        r matches Ok(o) ==> (handler_of(parsed.name@) is None && parsed.redirections@.len() == 0
            ==> o.command_result.exit_code == 127),
{
    if !crate::rollback::is_retained(checkpoints, approved_checkpoint) {
        return Err(ExecutionError::UnknownCheckpoint);
    }
    let mut layers: Vec<L> = Vec::new();
    layers.push(active_write);
    let mut rest = lower;
    layers.append(&mut rest);
    let resolver = match LayeredResolver::from_layers(layers) {
        Ok(r) => r,
        Err(e) => return Err(ExecutionError::View(e)),
    };
    let command_result = dispatch(
        parsed.name.as_str(),
        parsed.args.as_slice(),
        parsed.redirections.as_slice(),
        session,
        &resolver,
        host,
    );
    let mut layers = resolver.into_layers();
    let top = layers.remove(0);
    let beneath = if layers.len() == 0 {
        None
    } else {
        match LayeredResolver::from_layers(layers) {
            Ok(r) => Some(r),
            Err(e) => return Err(ExecutionError::View(e)),
        }
    };
    match compute(&top, &beneath) {
        Ok(diff) => Ok(ExecutionOutcome { command_result, diff }),
        Err(e) => Err(ExecutionError::View(e)),
    }
}

} // verus!
