use safeshell::orchestrator::PlannerStep;
use safeshell::ai::backend::SkipCause;
use safeshell::orchestrator::{
    category_static_str, deny_stderr_text, diff_stats, escalation_changed, refuses_without_snapshot,
    rejection_stderr_text, route_after_policy, CollectingTerminalOutputSink, NullTerminalOutputSink,
    PolicyRoute, TerminalOutputEvent, TerminalOutputSink,
};
use safeshell::policy::types::{Category, PolicyDecision, ReasonCode, RiskLevel, SupportTier, Verdict};
use safeshell::simulation::diff::SimulationDiff;

fn decision(verdict: Verdict, codes: Vec<ReasonCode>, reasons: &[&str]) -> PolicyDecision {
    PolicyDecision {
        support_tier: SupportTier::Supported,
        verdict,
        category: Some(Category::DangerousContainable),
        risk_level: Some(RiskLevel::High),
        reason_codes: codes,
        reasons: reasons.iter().map(|r| r.to_string()).collect(),
    }
}

#[test]
fn a_denial_shows_its_reasons_then_the_canonical_sentences() {
    let d = decision(Verdict::Deny, vec![ReasonCode::DenyShellInvocation], &["shell"]);
    let text = deny_stderr_text(&d);
    assert_eq!(text, format!("shell {}", ReasonCode::DenyShellInvocation.canonical_text()));
    let bare = decision(Verdict::Deny, vec![], &[]);
    assert_eq!(
        deny_stderr_text(&bare),
        "denied: this operation would breach SafeShell's containment boundary"
    );
}

#[test]
fn routing_after_policy() {
    let d = decision(Verdict::Deny, vec![ReasonCode::DenyShellInvocation], &[]);
    match route_after_policy("s1", "t1", "bash", &d) {
        PolicyRoute::Stop(e) => {
            assert_eq!(e.exit_code, -1);
            assert_eq!(e.command, "bash");
            assert_eq!(e.stderr, ReasonCode::DenyShellInvocation.canonical_text());
        }
        PolicyRoute::Proceed(_) => panic!("a denial must stop"),
    }
    let d = decision(Verdict::RejectUnsupported, vec![], &["a", "b"]);
    match route_after_policy("s1", "t1", "awk", &d) {
        PolicyRoute::Stop(e) => {
            assert_eq!(e.exit_code, 127);
            assert_eq!(e.stderr, "a; b");
            assert_eq!(rejection_stderr_text(&d), "a; b");
        }
        PolicyRoute::Proceed(_) => panic!("an unsupported command must stop"),
    }
    let d = decision(Verdict::Allow, vec![], &[]);
    assert!(matches!(route_after_policy("s1", "t1", "ls", &d), PolicyRoute::Proceed(PlannerStep::Skip(SkipCause::StructurallySafe))));
    let d = decision(Verdict::RequireApproval, vec![], &["recursive delete"]);
    match route_after_policy("s1", "t1", "rm -rf /project", &d) {
        PolicyRoute::Proceed(PlannerStep::Ask(req)) => {
            assert_eq!(req.command_text, "rm -rf /project");
            assert_eq!(req.category, Some("dangerous_containable"));
            assert_eq!(req.risk_level, Some(RiskLevel::High));
            assert_eq!(req.policy_reasons, vec!["recursive delete".to_string()]);
        }
        _ => panic!("a command needing approval consults the planner"),
    }
    assert_eq!(category_static_str(Category::UnsafeToContain), "unsafe_to_contain");
}

#[test]
fn diff_stats_and_escalation_change() {
    let diff = SimulationDiff {
        files_created: vec!["a".into()],
        files_deleted: vec!["b".into()],
        directories_created: vec!["c".into()],
        directories_deleted: vec!["d".into(), "e".into()],
        bytes_deleted: 9,
        ..Default::default()
    };
    let stats = diff_stats(&diff);
    assert_eq!(stats.files_affected, 2);
    assert_eq!(stats.directories_affected, 3);
    assert_eq!(stats.bytes_deleted, 9);
    assert_eq!(stats.permission_changes, 0);
    let a = decision(Verdict::RequireApproval, vec![], &[]);
    let mut b = decision(Verdict::RequireApproval, vec![], &[]);
    assert!(!escalation_changed(&a, &b));
    b.risk_level = Some(RiskLevel::Critical);
    assert!(escalation_changed(&a, &b));
}

#[test]
fn snapshot_refusal_needs_both_ceilings() {
    assert!(!refuses_without_snapshot(2, 3, &vec![Some(100), Some(100)], 10));
    assert!(refuses_without_snapshot(3, 3, &vec![Some(6), None, Some(4)], 10));
    assert!(!refuses_without_snapshot(3, 3, &vec![Some(6), None, Some(3)], 10));
    assert!(refuses_without_snapshot(3, 3, &vec![Some(u64::MAX), Some(u64::MAX)], u64::MAX));
}

#[test]
fn sinks_collect_or_drop_events() {
    let event = TerminalOutputEvent {
        session_id: "s".into(),
        transaction_id: "t".into(),
        command: "echo hi".into(),
        stdout: "hi\n".into(),
        stderr: String::new(),
        exit_code: 0,
    };
    let mut sink = CollectingTerminalOutputSink::new();
    sink.emit(&event);
    sink.emit(&event);
    assert_eq!(sink.events.len(), 2);
    assert_eq!(sink.events[1].stdout, "hi\n");
    let mut null = NullTerminalOutputSink;
    null.emit(&event);
}

use safeshell::orchestrator::{deny_reason_details, storage_status};

#[test]
fn stored_reason_codes_show_their_canonical_sentences() {
    let codes = vec!["DENY_SHELL_INVOCATION".to_string(), "NOT_A_CODE".to_string()];
    let details = deny_reason_details(&codes);
    assert_eq!(details.len(), 2);
    assert_eq!(details[0].code, "DENY_SHELL_INVOCATION");
    assert_eq!(details[0].canonical_text, ReasonCode::DenyShellInvocation.canonical_text());
    assert_eq!(details[1].code, "NOT_A_CODE");
    assert_eq!(details[1].canonical_text, "Unrecognized reason code.");
    assert!(deny_reason_details(&vec![]).is_empty());
}

#[test]
fn storage_status_counts_what_could_be_measured() {
    let st = storage_status(&vec![Some(10), None, Some(32)], 10, 1024, Some("txn_1".to_string()));
    assert_eq!(st.checkpoints_retained, 3);
    assert_eq!(st.max_checkpoints, 10);
    assert_eq!(st.bytes_used, 42);
    assert_eq!(st.ceiling_bytes, 1024);
    assert_eq!(st.oldest_recoverable_transaction_id, Some("txn_1".to_string()));
    let empty = storage_status(&vec![], 1, 10, None);
    assert_eq!(empty.checkpoints_retained, 0);
    assert_eq!(empty.bytes_used, 0);
    assert_eq!(empty.oldest_recoverable_transaction_id, None);
}

use safeshell::orchestrator::transaction_reason_details;

#[test]
fn stored_reason_code_lists_decode_into_details() {
    let details = transaction_reason_details(Some(r#"["DENY_SHELL_INVOCATION","NOT_A_CODE"]"#));
    assert_eq!(details.len(), 2);
    assert_eq!(details[0].code, "DENY_SHELL_INVOCATION");
    assert_eq!(details[0].canonical_text, ReasonCode::DenyShellInvocation.canonical_text());
    assert_eq!(details[1].canonical_text, "Unrecognized reason code.");
    assert!(transaction_reason_details(None).is_empty());
    assert!(transaction_reason_details(Some("not json")).is_empty());
    assert!(transaction_reason_details(Some(r#"{"a":1}"#)).is_empty());
    assert!(transaction_reason_details(Some("[]")).is_empty());
}

use safeshell::orchestrator::{after_execution, rollback_reason_text, RollbackReason, TailAction};

#[test]
fn the_pipeline_tail_rolls_back_a_failed_or_mismatched_run_and_keeps_the_rest() {
    match after_execution(true, true) {
        TailAction::RollBack(r) => assert_eq!(rollback_reason_text(&r), "execution_failure"),
        TailAction::Commit => panic!("a failed run is rolled back"),
    }
    match after_execution(false, false) {
        TailAction::RollBack(r) => assert_eq!(rollback_reason_text(&r), "verification_mismatch"),
        TailAction::Commit => panic!("a mismatched run is rolled back"),
    }
    assert!(matches!(after_execution(false, true), TailAction::Commit));
    assert_eq!(rollback_reason_text(&RollbackReason::ExecutionFailure), "execution_failure");
}
