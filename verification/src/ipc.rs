//! The shapes the front end receives for its commands; their JSON
//! encoding is done outside the verified library.

use vstd::prelude::*;
use crate::rollback::{checkpoint_name, RollbackOutcome};

verus! {

/// A bare acknowledgement.
pub struct Ack {
    pub ok: bool,
}

/// The transaction a submitted command started.
pub struct SubmitCommandResponse {
    pub transaction_id: String,
}

/// What a recovery action reports to the front end.
pub struct RollbackResponse {
    pub ok: bool,
    pub restored_checkpoint_id: Option<String>,
    pub reason: Option<String>,
}

impl RollbackResponse {
    /// The response for a rollback outcome: its success, the checkpoint it
    /// landed on as `ckpt_<ULID>`, and the failure detail.
    pub fn from_outcome(outcome: RollbackOutcome) -> (r: Self)
        ensures
            r.ok == outcome.success,
            match outcome.restored_checkpoint_id {
                Some(c) => r.restored_checkpoint_id matches Some(t) && t@ == checkpoint_name(c),
                None => r.restored_checkpoint_id is None,
            },
            match outcome.failure_detail {
                Some(d) => r.reason matches Some(t) && t@ == d@,
                None => r.reason is None,
            },
    {
        let restored = match outcome.restored_checkpoint_id {
            Some(c) => Some(c.display()),
            None => None,
        };
        RollbackResponse { ok: outcome.success, restored_checkpoint_id: restored, reason: outcome.failure_detail }
    }
}

} // verus!
