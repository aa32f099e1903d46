//! The policy engine: evaluates a command in a fixed order — support
//! tier, containment rules, capability gate, risk — and produces a
//! decision; evaluates pipelines stage by stage; and raises the risk of a
//! decision after simulation when the change is large.

use vstd::prelude::*;
use crate::parser::{ParsedCommand, Stage};
use crate::policy::containment::{
    capability_check, check_capability_gate, check_sensitive_pseudo_paths, lemma_stages_shape,
    sensitive_check,
};
use crate::policy::risk::{classification, classify, escalate_for_scope, exceeds_scope, SimulationDiffStats};
use crate::policy::support_tiers::{divergence_in, tier_in, SupportTierTable};
use crate::policy::types::{
    canonical_text_of, Category, DecisionView, PolicyDecision, ReasonCode, RiskLevel, SupportTier,
    Verdict,
};
use crate::sandbox::backend::CapabilityReport;
use crate::text::{chars_of, push_str, str_eq, string_from_chars};

verus! {

/// Commands that see or signal processes.
pub open spec fn process_affecting(name: Seq<char>) -> bool {
    name == "ps"@ || name == "kill"@
}

fn is_process_affecting(command_name: &str) -> (b: bool)
    ensures
        b == process_affecting(command_name@),
{
    str_eq(command_name, "ps") || str_eq(command_name, "kill")
}

/// A deny: unsafe to contain, no risk level, one reason code.
pub open spec fn deny_view(tier: SupportTier, code: ReasonCode, reason: Seq<char>) -> DecisionView {
    DecisionView {
        support_tier: tier,
        verdict: Verdict::Deny,
        category: Some(Category::UnsafeToContain),
        risk_level: None,
        reason_codes: seq![code],
        reasons: seq![reason],
    }
}

/// A graded decision: allow when the risk is low, otherwise ask for
/// approval.
pub open spec fn graded_view(tier: SupportTier, risk: RiskLevel, reasons: Seq<Seq<char>>) -> DecisionView {
    DecisionView {
        support_tier: tier,
        verdict: if risk == RiskLevel::Low { Verdict::Allow } else { Verdict::RequireApproval },
        category: Some(if risk == RiskLevel::Low { Category::Safe } else { Category::DangerousContainable }),
        risk_level: Some(risk),
        reason_codes: Seq::empty(),
        reasons,
    }
}

/// The reason given for a recognised but unimplemented command.
pub open spec fn unsupported_reason(name: Seq<char>) -> Seq<char> {
    "`"@ + name + "` is recognized but not implemented in SafeShell (tier: unsupported)"@
}

/// The decision for the pipeline `stages` (its head is the command being
/// evaluated), in the engine's fixed order.
pub open spec fn evaluation(
    tiers: Seq<(Seq<char>, SupportTier)>,
    divergences: Seq<(Seq<char>, Seq<char>)>,
    denied_code: ReasonCode,
    stages: Seq<Stage>,
    report: CapabilityReport,
) -> DecisionView {
    let st = stages[0];
    let tier = tier_in(tiers, st.name);
    if tier == SupportTier::Unsupported {
        DecisionView {
            support_tier: tier,
            verdict: Verdict::RejectUnsupported,
            category: None,
            risk_level: None,
            reason_codes: Seq::empty(),
            reasons: seq![unsupported_reason(st.name)],
        }
    } else if tier == SupportTier::Denied {
        deny_view(tier, denied_code, canonical_text_of(denied_code))
    } else {
        match sensitive_check(stages) {
            Some((code, reason)) => deny_view(tier, code, reason),
            None => match capability_check(report, process_affecting(st.name)) {
                Some((code, reason)) => deny_view(tier, code, reason),
                None => match classification(st, divergence_in(divergences, st.name, 0)) {
                    Some((level, reason)) => graded_view(tier, level, seq![reason]),
                    None => graded_view(tier, RiskLevel::Low, Seq::empty()),
                },
            },
        }
    }
}

/// A risk level's place in the order `None < Low < ... < Critical`.
pub open spec fn risk_order(r: Option<RiskLevel>) -> int {
    match r {
        None => 0,
        Some(l) => 1 + l.rank(),
    }
}

/// Whether a verdict ends a pipeline's evaluation.
pub open spec fn is_final(v: Verdict) -> bool {
    v == Verdict::Deny || v == Verdict::RejectUnsupported
}

fn deny(tier: SupportTier, code: ReasonCode, reason: String) -> (d: PolicyDecision)
    ensures
        d.view() == deny_view(tier, code, reason@),
{
    let d = PolicyDecision {
        support_tier: tier,
        verdict: Verdict::Deny,
        category: Some(Category::UnsafeToContain),
        risk_level: None,
        reason_codes: vec![code],
        reasons: vec![reason],
    };
    assert(d.view().reasons =~= seq![reason@]);
    assert(d.view().reason_codes =~= seq![code]);
    d
}

fn allow_or_require_approval(tier: SupportTier, risk_level: RiskLevel, reasons: Vec<String>) -> (d:
    PolicyDecision)
    ensures
        d.view() == graded_view(tier, risk_level, reasons@.map_values(|r: String| r@)),
{
    let (verdict, category) = if risk_level == RiskLevel::Low {
        (Verdict::Allow, Category::Safe)
    } else {
        (Verdict::RequireApproval, Category::DangerousContainable)
    };
    let d = PolicyDecision {
        support_tier: tier,
        verdict,
        category: Some(category),
        risk_level: Some(risk_level),
        reason_codes: Vec::new(),
        reasons,
    };
    assert(d.view().reason_codes =~= Seq::<ReasonCode>::empty());
    d
}

/// Evaluates commands against a support-tier table.
pub struct PolicyEngine {
    support_tiers: SupportTierTable,
}

impl PolicyEngine {
    /// The engine's tier table.
    pub closed spec fn table(&self) -> SupportTierTable {
        self.support_tiers
    }

    /// An engine over a validated tier table.
    pub fn from_table(support_tiers: SupportTierTable) -> (e: Self)
        ensures
            e.table() == support_tiers,
    {
        PolicyEngine { support_tiers }
    }

    /// What the engine decides for the pipeline `stages`.
    pub open spec fn decision_for(&self, stages: Seq<Stage>, report: CapabilityReport) -> DecisionView {
        evaluation(
            self.table().entries(),
            self.table().divergence_entries(),
            self.table().denied_code(),
            stages,
            report,
        )
    }

    /// Evaluates one command (the head of `cmd`'s pipeline; the
    /// pseudo-path rule looks at every stage).
    pub fn evaluate(&self, cmd: &ParsedCommand, capability_report: &CapabilityReport) -> (d:
        PolicyDecision)
        ensures
            d.view() == self.decision_for(cmd.stages(), *capability_report),
    {
        proof {
            lemma_stages_shape(*cmd);
        }
        let tier = self.support_tiers.resolve(cmd.name.as_str());
        if tier == SupportTier::Unsupported {
            let mut text = chars_of("`");
            push_str(&mut text, cmd.name.as_str());
            push_str(&mut text, "` is recognized but not implemented in SafeShell (tier: unsupported)");
            let d = PolicyDecision {
                support_tier: tier,
                verdict: Verdict::RejectUnsupported,
                category: None,
                risk_level: None,
                reason_codes: Vec::new(),
                reasons: vec![string_from_chars(text.as_slice())],
            };
            assert(d.view().reason_codes =~= Seq::<ReasonCode>::empty());
            assert(d.view().reasons =~= seq![unsupported_reason(cmd.name@)]);
            return d;
        }
        if tier == SupportTier::Denied {
            let code = self.support_tiers.denied_reason_code();
            return deny(tier, code, code.canonical_text().to_owned());
        }
        match check_sensitive_pseudo_paths(cmd) {
            Some((code, reason)) => {
                return deny(tier, code, reason);
            },
            None => {},
        }
        let process_commands = is_process_affecting(cmd.name.as_str());
        match check_capability_gate(capability_report, process_commands) {
            Some((code, reason)) => {
                return deny(tier, code, reason);
            },
            None => {},
        }
        let divergence = self.support_tiers.divergence(cmd.name.as_str());
        let finding = classify(cmd, divergence);
        match finding {
            Some(f) => {
                let level = f.level;
                let ghost rv = f.reason@;
                let reasons = vec![f.reason];
                assert(reasons@.map_values(|r: String| r@) =~= seq![rv]);
                allow_or_require_approval(tier, level, reasons)
            },
            None => {
                let reasons: Vec<String> = Vec::new();
                assert(reasons@.map_values(|r: String| r@) =~= Seq::<Seq<char>>::empty());
                allow_or_require_approval(tier, RiskLevel::Low, reasons)
            },
        }
    }

    /// Evaluating the stages `stages[i..]` of a pipeline, given the worst
    /// decision so far: the first deny or rejection ends it; otherwise the
    /// decision with the highest risk (the earliest among equals) stands.
    pub open spec fn pipeline_from(
        &self,
        stages: Seq<Stage>,
        i: int,
        worst: Option<DecisionView>,
        report: CapabilityReport,
    ) -> Option<DecisionView>
        decreases stages.len() - i,
    {
        if i < 0 || i >= stages.len() {
            worst
        } else {
            let d = self.decision_for(stages.subrange(i, stages.len() as int), report);
            if is_final(d.verdict) {
                Some(d)
            } else {
                self.pipeline_from(
                    stages,
                    i + 1,
                    Some(
                        match worst {
                            None => d,
                            Some(p) => if risk_order(d.risk_level) > risk_order(p.risk_level) {
                                d
                            } else {
                                p
                            },
                        },
                    ),
                    report,
                )
            }
        }
    }

    /// Evaluates every stage of a pipeline: any stage that is denied or
    /// rejected decides the whole pipeline; otherwise the most severe stage
    /// does.
    pub fn evaluate_pipeline(&self, cmd: &ParsedCommand, capability_report: &CapabilityReport) -> (d:
        PolicyDecision)
        ensures
            self.pipeline_from(cmd.stages(), 0, None, *capability_report) == Some(d.view()),
    {
        let ghost all = cmd.stages();
        proof {
            lemma_stages_shape(*cmd);
            assert(all.subrange(0, all.len() as int) =~= all);
        }
        let mut current = cmd;
        let mut worst: Option<PolicyDecision> = None;
        let ghost mut offset: int = 0;
        loop
            invariant
                all == cmd.stages(),
                0 <= offset < all.len(),
                current.stages() == all.subrange(offset, all.len() as int),
                self.pipeline_from(all, 0, None, *capability_report) == self.pipeline_from(
                    all,
                    offset,
                    worst_view(worst),
                    *capability_report,
                ),
                offset > 0 ==> worst is Some,
            decreases all.len() - offset,
        {
            proof {
                lemma_stages_shape(*current);
            }
            let decision = self.evaluate(current, capability_report);
            if decision.verdict == Verdict::Deny || decision.verdict == Verdict::RejectUnsupported {
                return decision;
            }
            let ghost wold = worst_view(worst);
            let ghost dv = decision.view();
            assert(dv == self.decision_for(all.subrange(offset, all.len() as int), *capability_report));
            let replace = match &worst {
                None => true,
                Some(prev) => risk_rank(decision.risk_level) > risk_rank(prev.risk_level),
            };
            if replace {
                worst = Some(decision);
            }
            let ghost wnew = worst_view(worst).unwrap();
            assert(wnew == match wold {
                None => dv,
                Some(p) => if risk_order(dv.risk_level) > risk_order(p.risk_level) {
                    dv
                } else {
                    p
                },
            });
            assert(worst is Some);
            assert(self.pipeline_from(all, offset, wold, *capability_report) == self.pipeline_from(
                all,
                offset + 1,
                Some(wnew),
                *capability_report,
            ));
            match &current.pipeline_next {
                Some(next) => {
                    proof {
                        assert(next.stages() =~= all.subrange(offset + 1, all.len() as int));
                        offset = offset + 1;
                    }
                    current = next;
                },
                None => {
                    assert(offset + 1 == all.len());
                    assert(self.pipeline_from(all, offset + 1, Some(wnew), *capability_report) == Some(wnew));
                    return match worst {
                        Some(w) => w,
                        None => {
                            assert(false);
                            self.evaluate(cmd, capability_report)
                        },
                    };
                },
            }
        }
    }
}

spec fn worst_view(w: Option<PolicyDecision>) -> Option<DecisionView> {
    match w {
        Some(d) => Some(d.view()),
        None => None,
    }
}

fn risk_rank(r: Option<RiskLevel>) -> (n: u8)
    ensures
        n as int == risk_order(r),
{
    match r {
        None => 0,
        Some(l) => 1 + l.level_rank(),
    }
}

/// Raising a decision's risk after simulation: denials, rejections and
/// decisions without a risk level stand; otherwise the risk goes up one
/// level when the change is large, and the verdict follows the new level.
pub open spec fn escalated(d: DecisionView, stats: SimulationDiffStats) -> DecisionView {
    match d.risk_level {
        None => d,
        Some(current) => if is_final(d.verdict) || !exceeds_scope(stats) || current.one_up() == current {
            d
        } else {
            let e = current.one_up();
            DecisionView {
                risk_level: Some(e),
                verdict: if e == RiskLevel::Low { Verdict::Allow } else { Verdict::RequireApproval },
                category: Some(if e == RiskLevel::Low { Category::Safe } else { Category::DangerousContainable }),
                ..d
            }
        },
    }
}

/// Applies the post-simulation escalation to a decision.
pub fn apply_post_simulation_escalation(decision: PolicyDecision, stats: &SimulationDiffStats) -> (d:
    PolicyDecision)
    ensures
        d.view() == escalated(decision.view(), *stats),
{
    let current_risk = match decision.risk_level {
        Some(r) => r,
        None => return decision,
    };
    if decision.verdict == Verdict::Deny || decision.verdict == Verdict::RejectUnsupported {
        return decision;
    }
    let escalated_level = escalate_for_scope(current_risk, stats);
    if escalated_level == current_risk {
        return decision;
    }
    let (verdict, category) = if escalated_level == RiskLevel::Low {
        (Verdict::Allow, Category::Safe)
    } else {
        (Verdict::RequireApproval, Category::DangerousContainable)
    };
    PolicyDecision { risk_level: Some(escalated_level), verdict, category: Some(category), ..decision }
}

/// The shape of every decision: a deny carries one reason code, the
/// unsafe-to-contain category and no risk level, and comes only from the
/// denied tier, the pseudo-path rule or the capability gate; a rejection
/// carries no code, category or risk; an allow is exactly a low risk; an
/// approval request carries a risk above low.
pub proof fn lemma_decision_shape(
    tiers: Seq<(Seq<char>, SupportTier)>,
    divergences: Seq<(Seq<char>, Seq<char>)>,
    denied_code: ReasonCode,
    stages: Seq<Stage>,
    report: CapabilityReport,
)
    requires
        stages.len() > 0,
    ensures
        ({
            let d = evaluation(tiers, divergences, denied_code, stages, report);
            &&& d.verdict == Verdict::Deny ==> {
                &&& d.risk_level is None
                &&& d.category == Some(Category::UnsafeToContain)
                &&& d.reason_codes.len() == 1
                &&& (tier_in(tiers, stages[0].name) == SupportTier::Denied || sensitive_check(stages) is Some
                    || capability_check(report, process_affecting(stages[0].name)) is Some)
            }
            &&& d.verdict == Verdict::RejectUnsupported ==> {
                &&& d.reason_codes.len() == 0
                &&& d.category is None
                &&& d.risk_level is None
                &&& tier_in(tiers, stages[0].name) == SupportTier::Unsupported
            }
            &&& d.verdict == Verdict::Allow <==> d.risk_level == Some(RiskLevel::Low)
            &&& d.verdict == Verdict::RequireApproval ==> (d.risk_level is Some && d.risk_level != Some(
                RiskLevel::Low,
            ))
        }),
{
}

/// A pipeline is denied or rejected exactly when one of its stages is;
/// otherwise its risk is at least that of every stage.
pub proof fn lemma_pipeline_most_severe(
    engine: PolicyEngine,
    stages: Seq<Stage>,
    report: CapabilityReport,
)
    requires
        stages.len() > 0,
    ensures
        ({
            let r = engine.pipeline_from(stages, 0, None, report);
            &&& r is Some
            &&& is_final(r->Some_0.verdict) <==> exists|i: int|
                0 <= i < stages.len() && is_final(
                    #[trigger] engine.decision_for(stages.subrange(i, stages.len() as int), report).verdict,
                )
            &&& !is_final(r->Some_0.verdict) ==> forall|i: int|
                0 <= i < stages.len() ==> risk_order(r->Some_0.risk_level) >= risk_order(
                    #[trigger] engine.decision_for(stages.subrange(i, stages.len() as int), report).risk_level,
                )
        }),
{
    lemma_pipeline_from(engine, stages, 0, None, report);
}

proof fn lemma_pipeline_from(
    engine: PolicyEngine,
    stages: Seq<Stage>,
    i: int,
    worst: Option<DecisionView>,
    report: CapabilityReport,
)
    requires
        0 <= i <= stages.len(),
        i == 0 <==> worst is None,
        worst matches Some(w) ==> !is_final(w.verdict),
        forall|j: int|
            0 <= j < i ==> !is_final(
                #[trigger] engine.decision_for(stages.subrange(j, stages.len() as int), report).verdict,
            ),
        worst matches Some(w) ==> forall|j: int|
            0 <= j < i ==> risk_order(w.risk_level) >= risk_order(
                #[trigger] engine.decision_for(stages.subrange(j, stages.len() as int), report).risk_level,
            ),
    ensures
        ({
            let r = engine.pipeline_from(stages, i, worst, report);
            &&& (stages.len() > 0 ==> r is Some)
            &&& (r is Some ==> (is_final(r->Some_0.verdict) <==> exists|k: int|
                i <= k < stages.len() && is_final(
                    #[trigger] engine.decision_for(stages.subrange(k, stages.len() as int), report).verdict,
                )))
            &&& (r is Some && !is_final(r->Some_0.verdict) ==> forall|k: int|
                0 <= k < stages.len() ==> risk_order(r->Some_0.risk_level) >= risk_order(
                    #[trigger] engine.decision_for(stages.subrange(k, stages.len() as int), report).risk_level,
                ))
        }),
    decreases stages.len() - i,
{
    if i < stages.len() {
        let d = engine.decision_for(stages.subrange(i, stages.len() as int), report);
        if !is_final(d.verdict) {
            let w2 = match worst {
                None => d,
                Some(p) => if risk_order(d.risk_level) > risk_order(p.risk_level) {
                    d
                } else {
                    p
                },
            };
            lemma_pipeline_from(engine, stages, i + 1, Some(w2), report);
        }
    }
}

/// The decisions about each stage of a pipeline (each with the stages
/// after it), in order.
pub open spec fn stage_decisions(engine: PolicyEngine, stages: Seq<Stage>, report: CapabilityReport) -> Seq<DecisionView> {
    Seq::new(stages.len(), |j: int| engine.decision_for(stages.subrange(j, stages.len() as int), report))
}

/// The position of the stage decision that decides a pipeline, looking
/// from `i` on with the worst so far at `w`: the first deny or rejection,
/// else the first of the riskiest.
pub open spec fn deciding_stage(ds: Seq<DecisionView>, i: int, w: int) -> int
    decreases ds.len() - i,
{
    if i < 0 || i >= ds.len() {
        w
    } else if is_final(ds[i].verdict) {
        i
    } else if i == 0 || risk_order(ds[i].risk_level) > risk_order(ds[w].risk_level) {
        deciding_stage(ds, i + 1, i)
    } else {
        deciding_stage(ds, i + 1, w)
    }
}

proof fn lemma_pipeline_decided_at(
    engine: PolicyEngine,
    stages: Seq<Stage>,
    i: int,
    w: int,
    worst: Option<DecisionView>,
    report: CapabilityReport,
)
    requires
        0 <= i <= stages.len(),
        i == 0 ==> worst is None,
        i > 0 ==> 0 <= w < i && worst == Some(stage_decisions(engine, stages, report)[w]),
    ensures
        stages.len() > 0 ==> engine.pipeline_from(stages, i, worst, report) == Some(
            stage_decisions(engine, stages, report)[deciding_stage(stage_decisions(engine, stages, report), i, w)],
        ),
    decreases stages.len() - i,
{
    let ds = stage_decisions(engine, stages, report);
    if i < stages.len() {
        let d = engine.decision_for(stages.subrange(i, stages.len() as int), report);
        assert(ds[i] == d);
        if !is_final(d.verdict) {
            let w2 = if i == 0 || risk_order(ds[i].risk_level) > risk_order(ds[w].risk_level) {
                i
            } else {
                w
            };
            lemma_pipeline_decided_at(engine, stages, i + 1, w2, Some(ds[w2]), report);
        }
    }
}

proof fn lemma_deciding_stage(ds: Seq<DecisionView>, i: int, w: int)
    requires
        0 <= i <= ds.len(),
        ds.len() > 0,
        forall|j: int| 0 <= j < i ==> !is_final(#[trigger] ds[j].verdict),
        i > 0 ==> 0 <= w < i,
        i > 0 ==> forall|k: int| 0 <= k < w ==> risk_order(#[trigger] ds[k].risk_level) < risk_order(ds[w].risk_level),
        i > 0 ==> forall|k: int| 0 <= k < i ==> risk_order(#[trigger] ds[k].risk_level) <= risk_order(ds[w].risk_level),
    ensures
        0 <= deciding_stage(ds, i, w) < ds.len(),
        forall|j: int| 0 <= j < deciding_stage(ds, i, w) ==> !is_final(#[trigger] ds[j].verdict),
        (exists|f: int| i <= f < ds.len() && is_final(#[trigger] ds[f].verdict)) ==> is_final(
            ds[deciding_stage(ds, i, w)].verdict,
        ),
        !is_final(ds[deciding_stage(ds, i, w)].verdict) ==> {
            &&& forall|k: int| 0 <= k < deciding_stage(ds, i, w) ==> risk_order(#[trigger] ds[k].risk_level)
                < risk_order(ds[deciding_stage(ds, i, w)].risk_level)
            &&& forall|k: int| 0 <= k < ds.len() ==> risk_order(#[trigger] ds[k].risk_level) <= risk_order(
                ds[deciding_stage(ds, i, w)].risk_level,
            )
        },
    decreases ds.len() - i,
{
    if i < ds.len() {
        if !is_final(ds[i].verdict) {
            let w2 = if i == 0 || risk_order(ds[i].risk_level) > risk_order(ds[w].risk_level) {
                i
            } else {
                w
            };
            lemma_deciding_stage(ds, i + 1, w2);
            if exists|f: int| i <= f < ds.len() && is_final(#[trigger] ds[f].verdict) {
                let f = choose|f: int| i <= f < ds.len() && is_final(#[trigger] ds[f].verdict);
                assert(f != i);
                assert(is_final(ds[f].verdict));
            }
        }
    }
}

/// Which stage decides a pipeline: the first stage that is denied or
/// rejected, when there is one; otherwise the first of the stages with the
/// highest risk.
pub proof fn lemma_pipeline_least_index(engine: PolicyEngine, stages: Seq<Stage>, report: CapabilityReport)
    requires
        stages.len() > 0,
    ensures
        ({
            let ds = stage_decisions(engine, stages, report);
            let f = deciding_stage(ds, 0, 0);
            &&& 0 <= f < stages.len()
            &&& engine.pipeline_from(stages, 0, None, report) == Some(ds[f])
            &&& forall|j: int| 0 <= j < f ==> !is_final(#[trigger] ds[j].verdict)
            &&& (exists|k: int| 0 <= k < ds.len() && is_final(#[trigger] ds[k].verdict)) ==> is_final(ds[f].verdict)
            &&& !is_final(ds[f].verdict) ==> {
                &&& forall|k: int| 0 <= k < f ==> risk_order(#[trigger] ds[k].risk_level) < risk_order(ds[f].risk_level)
                &&& forall|k: int| 0 <= k < ds.len() ==> risk_order(#[trigger] ds[k].risk_level) <= risk_order(
                    ds[f].risk_level,
                )
            }
        }),
{
    lemma_pipeline_decided_at(engine, stages, 0, 0, None, report);
    lemma_deciding_stage(stage_decisions(engine, stages, report), 0, 0);
}

/// The post-simulation escalation never changes a deny or a rejection,
/// never lowers a risk, raises it by at most one level, and keeps the
/// reasons and reason codes.
pub proof fn lemma_escalation_bounds(d: DecisionView, stats: SimulationDiffStats)
    ensures
        is_final(d.verdict) ==> escalated(d, stats) == d,
        escalated(d, stats).reason_codes == d.reason_codes,
        escalated(d, stats).reasons == d.reasons,
        escalated(d, stats).support_tier == d.support_tier,
        risk_order(escalated(d, stats).risk_level) >= risk_order(d.risk_level),
        risk_order(escalated(d, stats).risk_level) <= risk_order(d.risk_level) + 1,
        !exceeds_scope(stats) ==> escalated(d, stats) == d,
{
}


/// `ps` and `kill` see or signal processes, so they need a working PID
/// namespace on top of execution: with execution available but PID
/// namespaces not, a supported `ps` or `kill` free of sensitive paths is
/// denied with the single reason code `DenyCapabilityUnavailable`, while
/// any other supported command passes that gate and is graded by its risk.
pub proof fn lemma_process_commands_need_pid_namespace(
    engine: PolicyEngine,
    stages: Seq<Stage>,
    report: CapabilityReport,
)
    requires
        stages.len() > 0,
        tier_in(engine.table().entries(), stages[0].name) != SupportTier::Unsupported,
        tier_in(engine.table().entries(), stages[0].name) != SupportTier::Denied,
        sensitive_check(stages) is None,
        report.can_execute(),
        !(report.pid_namespaces is Okay),
    ensures
        (stages[0].name == "ps"@ || stages[0].name == "kill"@) ==> {
            &&& engine.decision_for(stages, report).verdict == Verdict::Deny
            &&& engine.decision_for(stages, report).reason_codes == seq![ReasonCode::DenyCapabilityUnavailable]
        },
        !(stages[0].name == "ps"@ || stages[0].name == "kill"@) ==> {
            &&& engine.decision_for(stages, report).verdict != Verdict::Deny
            &&& engine.decision_for(stages, report).reason_codes.len() == 0
        },
{
}

} // verus!
