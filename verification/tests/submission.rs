use safeshell::orchestrator::PlannerStep;
use safeshell::ai::backend::SkipCause;
use safeshell::orchestrator::{begin_submission, PolicyRoute, Submission};
use safeshell::parser::{parse_line, Env, ParseError};
use safeshell::policy::engine::PolicyEngine;
use safeshell::policy::support_tiers::{SupportTierTable, TierSections};
use safeshell::policy::types::{ReasonCode, RiskLevel, Verdict};
use safeshell::sandbox::backend::{CapabilityReport, PrimitiveStatus};

fn strings(words: &[&str]) -> Vec<String> {
    words.iter().map(|w| w.to_string()).collect()
}

fn engine() -> PolicyEngine {
    let sections = TierSections {
        supported: strings(&["ls", "cd", "rm", "mkdir", "echo"]),
        partially_supported: strings(&["ps"]),
        divergences: vec![("ps".to_string(), "sandbox-local PIDs only".to_string())],
        unsupported: strings(&["awk"]),
        denied: strings(&["sh", "bash"]),
        denied_reason_code: "DENY_SHELL_INVOCATION".to_string(),
    };
    PolicyEngine::from_table(SupportTierTable::from_sections(sections, "test").unwrap())
}

fn report() -> CapabilityReport {
    CapabilityReport {
        user_namespaces: PrimitiveStatus::Okay,
        mount_namespaces: PrimitiveStatus::Okay,
        pid_namespaces: PrimitiveStatus::Okay,
        seccomp: PrimitiveStatus::Okay,
        cgroups_v2: PrimitiveStatus::Okay,
        landlock: PrimitiveStatus::Okay,
        overlayfs: PrimitiveStatus::Okay,
        openat2: PrimitiveStatus::Okay,
        degradations: vec![],
    }
}

fn submit(line: &str) -> Submission {
    begin_submission(&engine(), &report(), &Env::new(), "sess_1", "txn_1", line)
}

#[test]
fn a_line_that_does_not_parse_stops_with_exit_code_two() {
    match submit("echo \"abc") {
        Submission::ParseFailed { message, output } => {
            assert_eq!(message, "unterminated double quote");
            assert_eq!(output.stderr, "unterminated double quote");
            assert_eq!(output.exit_code, 2);
            assert_eq!(output.stdout, "");
            assert_eq!(output.command, "echo \"abc");
            assert_eq!(output.session_id, "sess_1");
            assert_eq!(output.transaction_id, "txn_1");
        }
        Submission::Decided { .. } => panic!("the line does not parse"),
    }
}

#[test]
fn a_denied_command_stops_before_the_planner() {
    match submit("bash") {
        Submission::Decided { decision, route: PolicyRoute::Stop(e), .. } => {
            assert_eq!(decision.verdict, Verdict::Deny);
            assert_eq!(e.exit_code, -1);
            assert!(e.stderr.contains(ReasonCode::DenyShellInvocation.canonical_text()));
        }
        _ => panic!("a shell must be denied"),
    }
}

#[test]
fn an_unsupported_command_stops_with_exit_code_127() {
    match submit("awk '{print}'") {
        Submission::Decided { decision, route: PolicyRoute::Stop(e), .. } => {
            assert_eq!(decision.verdict, Verdict::RejectUnsupported);
            assert_eq!(e.exit_code, 127);
            assert_eq!(e.stderr, decision.reasons.join("; "));
        }
        _ => panic!("awk is unsupported"),
    }
}

#[test]
fn a_plain_allow_goes_on_without_the_planner() {
    match submit("ls -la") {
        Submission::Decided { parsed, decision, route: PolicyRoute::Proceed(PlannerStep::Skip(SkipCause::StructurallySafe)) } => {
            assert_eq!(parsed.name, "ls");
            assert_eq!(decision.verdict, Verdict::Allow);
            assert_eq!(
                safeshell::ai::backend::skip_reason(&SkipCause::StructurallySafe),
                "command structurally cannot require approval (policy: Allow/Safe)"
            );
        }
        _ => panic!("ls is allowed outright"),
    }
}

#[test]
fn a_command_needing_approval_asks_the_planner() {
    match submit("rm -rf /project") {
        Submission::Decided { decision, route: PolicyRoute::Proceed(PlannerStep::Ask(req)), .. } => {
            assert_eq!(decision.verdict, Verdict::RequireApproval);
            assert_eq!(req.command_text, "rm -rf /project");
            assert_eq!(req.risk_level, Some(RiskLevel::High));
            assert_eq!(req.policy_reasons, decision.reasons);
        }
        _ => panic!("a recursive delete needs approval"),
    }
}

#[test]
fn only_the_first_segment_is_judged() {
    match submit("mkdir a; bash") {
        Submission::Decided { parsed, decision, route: PolicyRoute::Proceed(PlannerStep::Skip(SkipCause::StructurallySafe)) } => {
            assert_eq!(parsed.name, "mkdir");
            assert_eq!(decision.verdict, Verdict::Allow);
        }
        _ => panic!("the first segment is a plain mkdir"),
    }
}

#[test]
fn parse_errors_read_as_the_terminal_shows_them() {
    let env = Env::new();
    let cases: Vec<(&str, &str)> = vec![
        ("", "empty command"),
        ("echo 'x", "unterminated single quote"),
        ("ls >", "expected a single word as the redirection target after `>`"),
        ("ls &&", "expected a command after `&&`"),
    ];
    for (line, text) in cases {
        assert_eq!(parse_line(line, &env).unwrap_err().message(), text, "for {line:?}");
    }
    let dangling = parse_line("ls |", &env).unwrap_err();
    match &dangling {
        ParseError::ExpectedCommandBefore(t) => {
            assert_eq!(dangling.message(), format!("expected a command before `{t}`"))
        }
        other => panic!("unexpected {other:?}"),
    }
    assert_eq!(
        ParseError::UnsupportedConstruct { construct: "background job (&)", position: 8 }.message(),
        "unsupported construct: background job (&) (at position 8) — SafeShell does not implement a general shell; this syntax is not translated or approximated"
    );
    assert_eq!(
        ParseError::BadVariableSyntax(12).message(),
        "unknown environment variable syntax at position 12"
    );
}
