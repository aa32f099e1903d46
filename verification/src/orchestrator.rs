//! The decisions of the command pipeline: what the terminal shows when a
//! command is refused, whether a planner is consulted, the scale of a
//! simulated change, and whether a snapshot can be afforded. The pipeline's
//! database, sessions and layer stack are driven outside the verified
//! library, which hands these functions what it observed.

use vstd::prelude::*;
use crate::ai::backend::SkipCause;
use crate::ai::schema::AiRequest;
use crate::handlers::CommandResult;
use crate::parser::{Env, ParsedCommand, failure_text, lemma_parsed_line_has_a_segment, parse_line, parse_result};
use crate::policy::engine::PolicyEngine;
use crate::sandbox::backend::CapabilityReport;
use crate::policy::engine::{apply_post_simulation_escalation, escalated};
use crate::policy::risk::SimulationDiffStats;
use crate::policy::types::{Category, DecisionView, PolicyDecision, ReasonCode, Verdict, canonical_text_of, reason_for_code};
use crate::simulation::diff::{SimulationDiff, string_views};
use crate::text::{chars_of, join, join_strings, string_from_chars, strings_to_chars};

verus! {

/// A command's real output, as sent to the terminal.
#[derive(Debug)]
pub struct TerminalOutputEvent {
    pub session_id: String,
    pub transaction_id: String,
    pub command: String,
    pub stdout: String,
    pub stderr: String,
    pub exit_code: i32,
}

impl Clone for TerminalOutputEvent {
    fn clone(&self) -> (r: Self)
        ensures
            r == *self,
    {
        TerminalOutputEvent {
            session_id: self.session_id.clone(),
            transaction_id: self.transaction_id.clone(),
            command: self.command.clone(),
            stdout: self.stdout.clone(),
            stderr: self.stderr.clone(),
            exit_code: self.exit_code,
        }
    }
}

/// Where a command's real output goes.
pub trait TerminalOutputSink {
    fn emit(&mut self, event: &TerminalOutputEvent);
}

/// A sink that drops every event.
pub struct NullTerminalOutputSink;

impl TerminalOutputSink for NullTerminalOutputSink {
    fn emit(&mut self, event: &TerminalOutputEvent) {
    }
}

/// A sink that keeps every event, in order.
pub struct CollectingTerminalOutputSink {
    pub events: Vec<TerminalOutputEvent>,
}

impl CollectingTerminalOutputSink {
    /// A sink holding no events yet.
    pub fn new() -> (s: Self)
        ensures
            s.events@.len() == 0,
    {
        CollectingTerminalOutputSink { events: Vec::new() }
    }

    /// Keeps `event` after the ones already kept.
    pub fn record(&mut self, event: &TerminalOutputEvent)
        ensures
            final(self).events@ == old(self).events@.push(*event),
    {
        self.events.push(event.clone());
    }
}

impl TerminalOutputSink for CollectingTerminalOutputSink {
    /// Keeps `event` after the ones already kept.
    fn emit(&mut self, event: &TerminalOutputEvent)
        ensures
            final(self).events@ == old(self).events@.push(*event),
    {
        self.record(event);
    }
}

/// The category's name as sent to a planner.
pub fn category_static_str(c: Category) -> (s: &'static str)
    ensures
        s@ == c.name(),
{
    c.as_str()
}

/// The sentences a denial is explained with: the engine's own reasons,
/// then the canonical sentence of each reason code.
pub open spec fn deny_parts(d: DecisionView) -> Seq<Seq<char>> {
    d.reasons + d.reason_codes.map_values(|c: ReasonCode| canonical_text_of(c))
}

/// What the terminal shows for a denied command.
pub open spec fn deny_text(d: DecisionView) -> Seq<char> {
    if deny_parts(d).len() == 0 {
        "denied: this operation would breach SafeShell's containment boundary"@
    } else {
        join(deny_parts(d), " "@)
    }
}

/// The terminal's error text for a denied command: its reasons and the
/// canonical sentences of its reason codes, joined by spaces.
pub fn deny_stderr_text(decision: &PolicyDecision) -> (s: String)
    ensures
        s@ == deny_text(decision@),
{
    let ghost d = decision@;
    let mut parts = strings_to_chars(&decision.reasons);
    let mut i: usize = 0;
    let ghost base = parts@.map_values(|p: Vec<char>| p@);
    assert(base == d.reasons);
    while i < decision.reason_codes.len()
        invariant
            d == decision@,
            base == d.reasons,
            i <= d.reason_codes.len(),
            parts@.len() == base.len() + i,
            forall|k: int| 0 <= k < base.len() ==> #[trigger] parts@[k]@ == base[k],
            forall|k: int|
                0 <= k < i ==> #[trigger] parts@[base.len() + k]@ == canonical_text_of(
                    d.reason_codes[k],
                ),
        decreases decision.reason_codes.len() - i,
    {
        let text = decision.reason_codes[i].canonical_text();
        parts.push(chars_of(text));
        i = i + 1;
    }
    let ghost views = parts@.map_values(|p: Vec<char>| p@);
    assert forall|k: int| 0 <= k < views.len() implies #[trigger] views[k] == deny_parts(d)[k] by {
        if k >= base.len() {
            assert(parts@[base.len() + (k - base.len())]@ == canonical_text_of(
                d.reason_codes[k - base.len()],
            ));
        }
    }
    assert(parts@.map_values(|p: Vec<char>| p@) =~= deny_parts(d));
    if parts.len() == 0 {
        return "denied: this operation would breach SafeShell's containment boundary".to_string();
    }
    let joined = join_strings(&parts, " ");
    string_from_chars(joined.as_slice())
}

/// The terminal's error text for an unsupported command: its reasons
/// joined by `; `.
pub fn rejection_stderr_text(decision: &PolicyDecision) -> (s: String)
    ensures
        s@ == join(decision@.reasons, "; "@),
{
    let parts = strings_to_chars(&decision.reasons);
    let joined = join_strings(&parts, "; ");
    string_from_chars(joined.as_slice())
}

/// What happens with the planner before simulation.
pub enum PlannerStep {
    /// Ask the planner this.
    Ask(AiRequest),
    /// Record the analysis as skipped, for this reason, without a call.
    Skip(SkipCause),
}

/// Where a command goes once policy has decided.
pub enum PolicyRoute {
    /// Stop: show this output and end the transaction.
    Stop(TerminalOutputEvent),
    /// Go on to simulation, after this planner step.
    Proceed(PlannerStep),
}

/// The output event for a command that stops before running.
pub open spec fn stop_event(
    e: TerminalOutputEvent,
    session_id: Seq<char>,
    transaction_id: Seq<char>,
    line: Seq<char>,
    stderr: Seq<char>,
    exit_code: i32,
) -> bool {
    &&& e.session_id@ == session_id
    &&& e.transaction_id@ == transaction_id
    &&& e.command@ == line
    &&& e.stdout@.len() == 0
    &&& e.stderr@ == stderr
    &&& e.exit_code == exit_code
}

/// Whether `r` routes a command as policy decided: a denial stops with
/// exit code -1 and its explanation; an unsupported command stops with
/// exit code 127 and its reasons; a plain allow goes on with the analysis
/// skipped as structurally safe; one that needs approval goes on, asking the planner about the
/// line with the decision's category, risk level and reasons.
pub open spec fn routed(
    r: PolicyRoute,
    session_id: Seq<char>,
    transaction_id: Seq<char>,
    line: Seq<char>,
    decision: PolicyDecision,
) -> bool {
    match decision.verdict {
        Verdict::Deny => r matches PolicyRoute::Stop(e) && stop_event(
            e,
            session_id,
            transaction_id,
            line,
            deny_text(decision@),
            -1i32,
        ),
        Verdict::RejectUnsupported => r matches PolicyRoute::Stop(e) && stop_event(
            e,
            session_id,
            transaction_id,
            line,
            join(decision@.reasons, "; "@),
            127i32,
        ),
        Verdict::Allow => r matches PolicyRoute::Proceed(PlannerStep::Skip(SkipCause::StructurallySafe)),
        Verdict::RequireApproval => r matches PolicyRoute::Proceed(PlannerStep::Ask(req)) && req.command_text@ == line
            && (match decision.category {
            Some(c) => req.category matches Some(n) && n@ == c.name(),
            None => req.category is None,
        }) && req.risk_level == decision.risk_level && string_views(req.policy_reasons@)
            == decision@.reasons,
    }
}

/// Routes a command after policy: a denial stops with exit code -1 and its
/// explanation; an unsupported command stops with exit code 127 and its
/// reasons; otherwise it goes on, consulting the planner unless the verdict
/// is a plain allow.
pub fn route_after_policy(
    session_id: &str,
    transaction_id: &str,
    line: &str,
    decision: &PolicyDecision,
) -> (r: PolicyRoute)
    ensures
        routed(r, session_id@, transaction_id@, line@, *decision),
{
    match decision.verdict {
        Verdict::Deny => {
            let stderr = deny_stderr_text(decision);
            PolicyRoute::Stop(
                TerminalOutputEvent {
                    session_id: session_id.to_string(),
                    transaction_id: transaction_id.to_string(),
                    command: line.to_string(),
                    stdout: String::new(),
                    stderr,
                    exit_code: -1,
                },
            )
        },
        Verdict::RejectUnsupported => {
            let stderr = rejection_stderr_text(decision);
            PolicyRoute::Stop(
                TerminalOutputEvent {
                    session_id: session_id.to_string(),
                    transaction_id: transaction_id.to_string(),
                    command: line.to_string(),
                    stdout: String::new(),
                    stderr,
                    exit_code: 127,
                },
            )
        },
        Verdict::Allow => PolicyRoute::Proceed(PlannerStep::Skip(SkipCause::StructurallySafe)),
        Verdict::RequireApproval => {
            let category = match decision.category {
                Some(c) => Some(category_static_str(c)),
                None => None,
            };
            let mut reasons: Vec<String> = Vec::new();
            let mut i: usize = 0;
            while i < decision.reasons.len()
                invariant
                    i <= decision.reasons@.len(),
                    reasons@.len() == i,
                    forall|k: int| 0 <= k < i ==> #[trigger] reasons@[k]@ == decision.reasons@[k]@,
                decreases decision.reasons.len() - i,
            {
                reasons.push(decision.reasons[i].clone());
                i = i + 1;
            }
            assert(string_views(reasons@) =~= decision@.reasons);
            PolicyRoute::Proceed(
                PlannerStep::Ask(
                    AiRequest {
                        command_text: line.to_string(),
                        category,
                        risk_level: decision.risk_level,
                        policy_reasons: reasons,
                    },
                ),
            )
        },
    }
}

/// The scale of a simulated change, for post-simulation escalation: files
/// created, modified or deleted; directories created or deleted; bytes
/// deleted. Permission changes are not counted by the diff.
pub fn diff_stats(diff: &SimulationDiff) -> (st: SimulationDiffStats)
    requires
        diff.files_created@.len() + diff.files_modified@.len() + diff.files_deleted@.len()
            <= usize::MAX,
        diff.directories_created@.len() + diff.directories_deleted@.len() <= usize::MAX,
    ensures
        st.files_affected == diff.files_created@.len() + diff.files_modified@.len()
            + diff.files_deleted@.len(),
        st.directories_affected == diff.directories_created@.len()
            + diff.directories_deleted@.len(),
        st.bytes_deleted == diff.bytes_deleted,
        st.permission_changes == 0,
{
    SimulationDiffStats {
        files_affected: diff.files_affected(),
        directories_affected: (diff.directories_created.len() + diff.directories_deleted.len()) as u64,
        bytes_deleted: diff.bytes_deleted,
        permission_changes: 0,
    }
}

/// Whether escalation moved the decision: its risk level or its verdict
/// changed, so its stored policy fields must be written again.
pub fn escalation_changed(before: &PolicyDecision, after: &PolicyDecision) -> (b: bool)
    ensures
        b == (before.risk_level != after.risk_level || before.verdict != after.verdict),
{
    before.risk_level != after.risk_level || before.verdict != after.verdict
}

/// The sum of the sizes that could be measured.
pub open spec fn measured_total(sizes: Seq<Option<u64>>) -> int
    decreases sizes.len(),
{
    if sizes.len() == 0 {
        0
    } else {
        measured_total(sizes.drop_last()) + match sizes.last() {
            Some(n) => n as int,
            None => 0,
        }
    }
}

proof fn lemma_measured_total_nonneg(sizes: Seq<Option<u64>>)
    ensures
        measured_total(sizes) >= 0,
    decreases sizes.len(),
{
    if sizes.len() > 0 {
        lemma_measured_total_nonneg(sizes.drop_last());
    }
}

proof fn lemma_measured_total_prefix(sizes: Seq<Option<u64>>, i: int)
    requires
        0 <= i <= sizes.len(),
    ensures
        measured_total(sizes.take(i)) <= measured_total(sizes),
    decreases sizes.len() - i,
{
    if i < sizes.len() {
        lemma_measured_total_prefix(sizes, i + 1);
        assert(sizes.take(i + 1).drop_last() =~= sizes.take(i));
    } else {
        assert(sizes.take(i) =~= sizes);
    }
}

/// Whether a transaction must be refused rather than run without a
/// snapshot: the session already keeps the most checkpoints allowed, and
/// the ones whose size could be measured fill the storage ceiling.
pub fn refuses_without_snapshot(
    checkpoint_count: usize,
    max_checkpoints: usize,
    checkpoint_sizes: &Vec<Option<u64>>,
    storage_ceiling_bytes: u64,
) -> (b: bool)
    ensures
        b == (checkpoint_count >= max_checkpoints && measured_total(checkpoint_sizes@)
            >= storage_ceiling_bytes),
{
    if checkpoint_count < max_checkpoints {
        return false;
    }
    if storage_ceiling_bytes == 0 {
        proof {
            lemma_measured_total_nonneg(checkpoint_sizes@);
        }
        return true;
    }
    let mut total: u64 = 0;
    let mut i: usize = 0;
    while i < checkpoint_sizes.len()
        invariant
            i <= checkpoint_sizes@.len(),
            total == measured_total(checkpoint_sizes@.take(i as int)),
            total < storage_ceiling_bytes,
            checkpoint_count >= max_checkpoints,
        decreases checkpoint_sizes.len() - i,
    {
        let add: u64 = match checkpoint_sizes[i] {
            Some(n) => n,
            None => 0,
        };
        assert(checkpoint_sizes@.take(i + 1).drop_last() =~= checkpoint_sizes@.take(i as int));
        assert(checkpoint_sizes@.take(i + 1).last() == checkpoint_sizes@[i as int]);
        if add >= storage_ceiling_bytes - total {
            proof {
                lemma_measured_total_prefix(checkpoint_sizes@, i + 1);
                assert(measured_total(checkpoint_sizes@.take(i + 1)) == total + add);
            }
            return true;
        }
        total = total + add;
        i = i + 1;
    }
    assert(checkpoint_sizes@.take(i as int) =~= checkpoint_sizes@);
    total >= storage_ceiling_bytes
}

/// The output event of a command that stops before running, with its
/// error text and exit code (2 for a line that does not parse, 1 for a
/// failed simulation or execution).
pub fn failure_event(session_id: &str, transaction_id: &str, command: &str, stderr: &str, exit_code: i32) -> (e:
    TerminalOutputEvent)
    ensures
        stop_event(e, session_id@, transaction_id@, command@, stderr@, exit_code),
{
    TerminalOutputEvent {
        session_id: session_id.to_string(),
        transaction_id: transaction_id.to_string(),
        command: command.to_string(),
        stdout: String::new(),
        stderr: stderr.to_string(),
        exit_code,
    }
}

/// The output event of a command that ran: what it printed and its exit
/// code, under the command's name.
pub fn output_event(session_id: &str, transaction_id: &str, command: &str, result: &CommandResult) -> (e:
    TerminalOutputEvent)
    ensures
        e.session_id@ == session_id@,
        e.transaction_id@ == transaction_id@,
        e.command@ == command@,
        e.stdout@ == result.stdout@,
        e.stderr@ == result.stderr@,
        e.exit_code == result.exit_code,
{
    TerminalOutputEvent {
        session_id: session_id.to_string(),
        transaction_id: transaction_id.to_string(),
        command: command.to_string(),
        stdout: result.stdout.clone(),
        stderr: result.stderr.clone(),
        exit_code: result.exit_code,
    }
}

/// The decision once the simulated change is known.
pub struct PostSimulation {
    /// The decision after escalation for the change's scale.
    pub decision: PolicyDecision,
    /// Whether escalation moved the risk level or the verdict (the stored
    /// policy fields must then be written again).
    pub changed: bool,
    /// Whether the command now waits for the user's approval.
    pub requires_approval: bool,
}

/// Re-evaluates a decision against the simulated diff: escalates for the
/// change's scale, and says whether that moved it and whether the command
/// must wait for approval.
pub fn after_simulation(decision: &PolicyDecision, diff: &SimulationDiff) -> (r: PostSimulation)
    requires
        diff.files_created@.len() + diff.files_modified@.len() + diff.files_deleted@.len()
            <= usize::MAX,
        diff.directories_created@.len() + diff.directories_deleted@.len() <= usize::MAX,
    ensures
        ({
            let stats = SimulationDiffStats {
                files_affected: (diff.files_created@.len() + diff.files_modified@.len()
                    + diff.files_deleted@.len()) as u64,
                directories_affected: (diff.directories_created@.len()
                    + diff.directories_deleted@.len()) as u64,
                bytes_deleted: diff.bytes_deleted,
                permission_changes: 0,
            };
            &&& r.decision@ == escalated(decision@, stats)
            &&& r.changed == (r.decision.risk_level != decision.risk_level || r.decision.verdict
                != decision.verdict)
            &&& r.requires_approval == (r.decision.verdict == Verdict::RequireApproval)
        }),
{
    let stats = diff_stats(diff);
    let escalated_decision = apply_post_simulation_escalation(decision.clone(), &stats);
    let changed = escalation_changed(decision, &escalated_decision);
    let requires_approval = escalated_decision.requires_approval();
    PostSimulation { decision: escalated_decision, changed, requires_approval }
}

/// Why the pipeline rolls a run back automatically.
pub enum RollbackReason {
    /// The real execution failed.
    ExecutionFailure,
    /// The real run did not match its simulation.
    VerificationMismatch,
}

/// What the pipeline does once a command has run for real.
pub enum TailAction {
    /// Rolls the run back automatically, for this reason.
    RollBack(RollbackReason),
    /// Keeps the run.
    Commit,
}

/// The tail of the pipeline: a run whose execution failed is rolled back;
/// one that ran but did not match its simulation is rolled back too;
/// otherwise it is kept.
pub fn after_execution(failed: bool, matched: bool) -> (a: TailAction)
    ensures
        failed ==> a matches TailAction::RollBack(RollbackReason::ExecutionFailure),
        !failed && !matched ==> a matches TailAction::RollBack(RollbackReason::VerificationMismatch),
        !failed && matched ==> a is Commit,
{
    if failed {
        TailAction::RollBack(RollbackReason::ExecutionFailure)
    } else if !matched {
        TailAction::RollBack(RollbackReason::VerificationMismatch)
    } else {
        TailAction::Commit
    }
}

/// The name under which a rollback's reason is recorded.
pub fn rollback_reason_text(reason: &RollbackReason) -> (s: &'static str)
    ensures
        (*reason is ExecutionFailure) ==> s@ == "execution_failure"@,
        (*reason is VerificationMismatch) ==> s@ == "verification_mismatch"@,
{
    match reason {
        RollbackReason::ExecutionFailure => "execution_failure",
        RollbackReason::VerificationMismatch => "verification_mismatch",
    }
}

/// How a submitted line fares before anything is simulated.
pub enum Submission {
    /// The line does not parse: the failure is recorded with this message
    /// and the terminal shows it with exit code 2.
    ParseFailed { message: String, output: TerminalOutputEvent },
    /// The line's first segment parsed and policy decided about it; the
    /// route says whether the transaction stops here or goes on.
    Decided { parsed: ParsedCommand, decision: PolicyDecision, route: PolicyRoute },
}

/// The first steps of a submitted line, up to the planner: it is parsed
/// against the session's variables; a line that does not parse stops with
/// its error; otherwise its first segment is judged by the policy engine
/// against the capability report, and routed by that decision.
pub fn begin_submission(
    engine: &PolicyEngine,
    report: &CapabilityReport,
    env: &Env,
    session_id: &str,
    transaction_id: &str,
    line: &str,
) -> (r: Submission)
    ensures
        match parse_result(line@, env@) {
            Err(f) => r matches Submission::ParseFailed { message, output } && message@ == failure_text(f)
                && stop_event(output, session_id@, transaction_id@, line@, failure_text(f), 2i32),
            Ok(v) => r matches Submission::Decided { parsed, decision, route } && v.len() > 0
                && parsed.stages() == v[0].0 && engine.pipeline_from(parsed.stages(), 0, None, *report)
                == Some(decision@) && routed(route, session_id@, transaction_id@, line@, decision),
        },
{
    proof {
        lemma_parsed_line_has_a_segment(line@, env@);
    }
    match parse_line(line, env) {
        Err(e) => {
            let message = e.message();
            let output = failure_event(session_id, transaction_id, line, message.as_str(), 2);
            Submission::ParseFailed { message, output }
        },
        Ok(command_line) => {
            let mut segments = command_line.segments;
            let (parsed, _) = segments.remove(0);
            let decision = engine.evaluate_pipeline(&parsed, report);
            let route = route_after_policy(session_id, transaction_id, line, &decision);
            Submission::Decided { parsed, decision, route }
        },
    }
}

/// A stored reason code as a transaction's detail shows it.
pub struct DenyReasonDetail {
    pub code: String,
    pub canonical_text: String,
}

/// The text shown for a stored code that names no reason code.
pub open spec fn detail_text(code: Seq<char>) -> Seq<char> {
    match reason_for_code(code) {
        Some(r) => canonical_text_of(r),
        None => "Unrecognized reason code."@,
    }
}

/// The stored reason codes of a transaction, in order, each with the
/// canonical sentence of the code it names.
pub fn deny_reason_details(codes: &Vec<String>) -> (r: Vec<DenyReasonDetail>)
    ensures
        r@.len() == codes@.len(),
        forall|i: int|
            0 <= i < r@.len() ==> (#[trigger] r@[i]).code@ == codes@[i]@ && r@[i].canonical_text@
                == detail_text(codes@[i]@),
{
    let mut out: Vec<DenyReasonDetail> = Vec::new();
    let mut i: usize = 0;
    while i < codes.len()
        invariant
            i <= codes@.len(),
            out@.len() == i,
            forall|k: int|
                0 <= k < i ==> (#[trigger] out@[k]).code@ == codes@[k]@ && out@[k].canonical_text@
                    == detail_text(codes@[k]@),
        decreases codes.len() - i,
    {
        let code = codes[i].as_str();
        let canonical_text = match ReasonCode::from_code_str(code) {
            Some(r) => r.canonical_text().to_string(),
            None => "Unrecognized reason code.".to_string(),
        };
        out.push(DenyReasonDetail { code: code.to_string(), canonical_text });
        i = i + 1;
    }
    out
}

/// What a session's snapshot storage holds against its retention policy.
pub struct StorageStatus {
    pub checkpoints_retained: usize,
    pub max_checkpoints: usize,
    pub bytes_used: u64,
    pub ceiling_bytes: u64,
    pub oldest_recoverable_transaction_id: Option<String>,
}

/// The storage status of a session whose retained checkpoints, oldest
/// first, measured as `checkpoint_sizes` (a checkpoint that could not be
/// measured counts nothing), under the given limits.
pub fn storage_status(
    checkpoint_sizes: &Vec<Option<u64>>,
    max_checkpoints: usize,
    ceiling_bytes: u64,
    oldest_recoverable_transaction_id: Option<String>,
) -> (st: StorageStatus)
    requires
        measured_total(checkpoint_sizes@) <= u64::MAX,
    ensures
        st.checkpoints_retained == checkpoint_sizes@.len(),
        st.max_checkpoints == max_checkpoints,
        st.bytes_used == measured_total(checkpoint_sizes@),
        st.ceiling_bytes == ceiling_bytes,
        st.oldest_recoverable_transaction_id == oldest_recoverable_transaction_id,
{
    let mut total: u64 = 0;
    let mut i: usize = 0;
    while i < checkpoint_sizes.len()
        invariant
            i <= checkpoint_sizes@.len(),
            total == measured_total(checkpoint_sizes@.take(i as int)),
            measured_total(checkpoint_sizes@) <= u64::MAX,
        decreases checkpoint_sizes.len() - i,
    {
        proof {
            lemma_measured_total_prefix(checkpoint_sizes@, i + 1);
        }
        assert(checkpoint_sizes@.take(i + 1).drop_last() =~= checkpoint_sizes@.take(i as int));
        assert(checkpoint_sizes@.take(i + 1).last() == checkpoint_sizes@[i as int]);
        if let Some(n) = checkpoint_sizes[i] {
            total = total + n;
        }
        i = i + 1;
    }
    assert(checkpoint_sizes@.take(i as int) =~= checkpoint_sizes@);
    StorageStatus {
        checkpoints_retained: checkpoint_sizes.len(),
        max_checkpoints,
        bytes_used: total,
        ceiling_bytes,
        oldest_recoverable_transaction_id,
    }
}

/// The list of strings a JSON array of strings holds, as `serde_json`
/// decodes it; none when the text is not such an array.
pub uninterp spec fn json_string_list(json: Seq<char>) -> Option<Seq<Seq<char>>>;

/// Calls `serde_json::from_str::<Vec<String>>`; the contract names what it
/// decodes.
#[verifier::external_body]
fn decode_string_list(json: &str) -> (r: Option<Vec<String>>)
    ensures
        match r {
            Some(v) => json_string_list(json@) == Some(string_views(v@)),
            None => json_string_list(json@) is None,
        },
{
    match serde_json::from_str::<Vec<String>>(json) {
        Ok(v) => Some(v),
        Err(_) => None,
    }
}

/// The reason codes a transaction stored (as a JSON array of strings),
/// when present and decodable; none otherwise.
pub open spec fn stored_codes(codes_json: Option<Seq<char>>) -> Seq<Seq<char>> {
    match codes_json {
        Some(j) => match json_string_list(j) {
            Some(c) => c,
            None => Seq::empty(),
        },
        None => Seq::empty(),
    }
}

/// The reason codes of a transaction's detail: the stored JSON list
/// decoded, each code with its canonical sentence; empty when nothing was
/// stored or it does not decode.
pub fn transaction_reason_details(codes_json: Option<&str>) -> (r: Vec<DenyReasonDetail>)
    ensures
        ({
            let codes = stored_codes(
                match codes_json {
                    Some(j) => Some(j@),
                    None => None,
                },
            );
            &&& r@.len() == codes.len()
            &&& forall|i: int|
                0 <= i < r@.len() ==> (#[trigger] r@[i]).code@ == codes[i] && r@[i].canonical_text@
                    == detail_text(codes[i])
        }),
{
    let codes: Vec<String> = match codes_json {
        Some(j) => match decode_string_list(j) {
            Some(v) => v,
            None => Vec::new(),
        },
        None => Vec::new(),
    };
    let r = deny_reason_details(&codes);
    proof {
        assert forall|i: int| 0 <= i < r@.len() implies codes@[i]@ == string_views(codes@)[i] by {}
    }
    r
}

} // verus!
