use safeshell::parser::{parse_line, Env, ParsedCommand};
use safeshell::policy::engine::{apply_post_simulation_escalation, PolicyEngine};
use safeshell::policy::risk::SimulationDiffStats;
use safeshell::policy::support_tiers::{SupportTierTable, TierSections};
use safeshell::policy::types::{Category, ReasonCode, RiskLevel, Verdict};
use safeshell::sandbox::backend::{CapabilityReport, PrimitiveStatus};

fn strings(words: &[&str]) -> Vec<String> {
    words.iter().map(|w| w.to_string()).collect()
}

fn engine() -> PolicyEngine {
    let sections = TierSections {
        supported: strings(&["ls", "cd", "rm", "chmod", "chown", "mv", "cat", "echo"]),
        partially_supported: strings(&["ps", "safeshell-pkg"]),
        divergences: vec![("ps".to_string(), "sandbox-local PIDs only".to_string())],
        unsupported: strings(&["awk"]),
        denied: strings(&["sh", "bash"]),
        denied_reason_code: "DENY_SHELL_INVOCATION".to_string(),
    };
    PolicyEngine::from_table(SupportTierTable::from_sections(sections, "test").unwrap())
}

fn full_capability_report() -> CapabilityReport {
    CapabilityReport {
        user_namespaces: PrimitiveStatus::Okay,
        mount_namespaces: PrimitiveStatus::Okay,
        pid_namespaces: PrimitiveStatus::Okay,
        seccomp: PrimitiveStatus::Okay,
        cgroups_v2: PrimitiveStatus::Okay,
        landlock: PrimitiveStatus::Okay,
        overlayfs: PrimitiveStatus::Okay,
        openat2: PrimitiveStatus::Okay,
        degradations: vec![],
    }
}

fn parse(line: &str) -> ParsedCommand {
    parse_line(line, &Env::new()).unwrap().segments.into_iter().next().unwrap().0
}

#[test]
fn must_not_be_denied_rm_rf_project() {
    let decision = engine().evaluate(&parse("rm -rf /project"), &full_capability_report());
    assert_eq!(decision.verdict, Verdict::RequireApproval);
    assert_eq!(decision.risk_level, Some(RiskLevel::High));
}

#[test]
fn must_not_be_denied_rm_rf_simulated_root() {
    let decision = engine().evaluate(&parse("rm -rf /"), &full_capability_report());
    assert_eq!(decision.verdict, Verdict::RequireApproval);
    assert_eq!(decision.risk_level, Some(RiskLevel::Critical));
}

#[test]
fn must_not_be_denied_chmod_r_777_root() {
    let decision = engine().evaluate(&parse("chmod -R 777 /"), &full_capability_report());
    assert_eq!(decision.verdict, Verdict::RequireApproval);
    assert_eq!(decision.risk_level, Some(RiskLevel::Critical));
}

#[test]
fn must_not_be_denied_chown_r_tree_wide() {
    let decision =
        engine().evaluate(&parse("chown -R user:user /project"), &full_capability_report());
    assert_eq!(decision.verdict, Verdict::RequireApproval);
}

#[test]
fn must_not_be_denied_mock_package_removal_breaking_toolchain() {
    let decision =
        engine().evaluate(&parse("safeshell-pkg remove core-utils"), &full_capability_report());
    assert_eq!(decision.verdict, Verdict::RequireApproval);
    assert_eq!(decision.risk_level, Some(RiskLevel::High));
}

#[test]
fn must_always_be_denied_shell_invocation() {
    let decision = engine().evaluate(&parse("bash"), &full_capability_report());
    assert_eq!(decision.verdict, Verdict::Deny);
    assert_eq!(decision.reason_codes, vec![ReasonCode::DenyShellInvocation]);
}

#[test]
fn must_always_be_denied_sensitive_pseudo_path() {
    let decision =
        engine().evaluate(&parse("cat /proc/sys/kernel/whatever"), &full_capability_report());
    assert_eq!(decision.verdict, Verdict::Deny);
    assert_eq!(decision.reason_codes, vec![ReasonCode::DenyUnsimulatable]);
}

#[test]
fn must_always_be_denied_when_required_capability_unavailable() {
    let mut report = full_capability_report();
    report.cgroups_v2 = PrimitiveStatus::Unavailable { reason: "test".into() };
    let decision = engine().evaluate(&parse("ls"), &report);
    assert_eq!(decision.verdict, Verdict::Deny);
    assert_eq!(decision.reason_codes, vec![ReasonCode::DenyCapabilityUnavailable]);
}

#[test]
fn unsupported_command_rejects_without_deny() {
    let decision = engine().evaluate(&parse("awk '{print}'"), &full_capability_report());
    assert_eq!(decision.verdict, Verdict::RejectUnsupported);
    assert_eq!(decision.category, None);
    assert_eq!(decision.risk_level, None);
    assert!(
        decision.reason_codes.is_empty(),
        "RejectUnsupported is not a security denial and must carry no DENY reason codes"
    );
}

#[test]
fn low_risk_supported_command_is_allow_with_no_approval_pause() {
    let decision = engine().evaluate(&parse("ls /project"), &full_capability_report());
    assert_eq!(decision.verdict, Verdict::Allow);
    assert_eq!(decision.category, Some(Category::Safe));
    assert_eq!(decision.risk_level, Some(RiskLevel::Low));
    assert!(!decision.requires_approval());
}

#[test]
fn deny_never_carries_a_risk_level() {
    let decision = engine().evaluate(&parse("bash"), &full_capability_report());
    assert_eq!(decision.risk_level, None, "Deny is a containment-boundary matter, not a risk judgment");
}

#[test]
fn partially_supported_divergence_forces_at_least_medium() {
    let decision = engine().evaluate(&parse("ps"), &full_capability_report());
    assert_eq!(decision.verdict, Verdict::RequireApproval);
    assert_eq!(decision.risk_level, Some(RiskLevel::Medium));
}

#[test]
fn pipeline_takes_the_most_severe_stage() {
    let decision = engine().evaluate_pipeline(
        &parse("cat /project/f | echo hi > /project/out.txt"),
        &full_capability_report(),
    );
    assert_eq!(decision.verdict, Verdict::RequireApproval);
    assert_eq!(decision.risk_level, Some(RiskLevel::Medium));
}

#[test]
fn pipeline_denies_if_any_stage_denies() {
    let decision =
        engine().evaluate_pipeline(&parse("cat /project/f | bash"), &full_capability_report());
    assert_eq!(decision.verdict, Verdict::Deny);
}

#[test]
fn pipeline_of_all_low_risk_commands_is_allow() {
    let decision = engine().evaluate_pipeline(&parse("cat /project/f"), &full_capability_report());
    assert_eq!(decision.verdict, Verdict::Allow);
}

#[test]
fn post_simulation_escalation_upgrades_verdict_when_it_crosses_out_of_low() {
    let decision = engine().evaluate(&parse("ls /project"), &full_capability_report());
    assert_eq!(decision.verdict, Verdict::Allow);

    let stats = SimulationDiffStats { files_affected: 500, ..Default::default() };
    let escalated = apply_post_simulation_escalation(decision, &stats);
    assert_eq!(escalated.verdict, Verdict::RequireApproval);
    assert_eq!(escalated.risk_level, Some(RiskLevel::Medium));
}

#[test]
fn post_simulation_escalation_never_touches_a_deny() {
    let decision = engine().evaluate(&parse("bash"), &full_capability_report());
    let stats = SimulationDiffStats { files_affected: 99999, ..Default::default() };
    let escalated = apply_post_simulation_escalation(decision, &stats);
    assert_eq!(escalated.verdict, Verdict::Deny);
}

#[test]
fn post_simulation_escalation_never_touches_reject_unsupported() {
    let decision = engine().evaluate(&parse("awk x"), &full_capability_report());
    let stats = SimulationDiffStats { files_affected: 99999, ..Default::default() };
    let escalated = apply_post_simulation_escalation(decision, &stats);
    assert_eq!(escalated.verdict, Verdict::RejectUnsupported);
}

#[test]
fn escalation_keeps_the_reasons_and_tier_of_the_decision() {
    let decision = engine().evaluate(&parse("ps"), &full_capability_report());
    let reasons = decision.reasons.clone();
    let stats = SimulationDiffStats { directories_affected: 30, ..Default::default() };
    let escalated = apply_post_simulation_escalation(decision, &stats);
    assert_eq!(escalated.risk_level, Some(RiskLevel::High));
    assert_eq!(escalated.category, Some(Category::DangerousContainable));
    assert_eq!(escalated.reasons, reasons);
}

#[test]
fn a_pipeline_with_an_unsupported_later_stage_is_rejected() {
    let decision = engine().evaluate_pipeline(&parse("ls | awk x"), &full_capability_report());
    assert_eq!(decision.verdict, Verdict::RejectUnsupported);
}

#[test]
fn process_commands_are_denied_without_pid_namespaces() {
    let mut report = full_capability_report();
    report.pid_namespaces = PrimitiveStatus::Unavailable { reason: "test".into() };
    let ps = engine().evaluate(&parse("ps"), &report);
    assert_eq!(ps.verdict, Verdict::Deny);
    assert_eq!(ps.reason_codes, vec![ReasonCode::DenyCapabilityUnavailable]);
    let ls = engine().evaluate(&parse("ls"), &report);
    assert_eq!(ls.verdict, Verdict::Allow);
}
