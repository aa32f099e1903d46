use safeshell::fs_abstraction::SandboxPath;
use safeshell::handlers::{
    cd_target, cmd_pwd, command_not_found, finish_cd, handler_for, input_redirection_refused, ls_output,
    redirected_contents, CommandResult, Handler,
};
use safeshell::ipc::RollbackResponse;
use safeshell::orchestrator::{after_simulation, failure_event, output_event};
use safeshell::parser::{Arg, RedirectionKind};
use safeshell::policy::types::{Category, PolicyDecision, RiskLevel, SupportTier, Verdict};
use safeshell::rollback::{CheckpointId, RollbackOutcome};
use safeshell::sandbox::worker::FileKind;
use safeshell::session::{SessionId, TerminalSession};
use safeshell::simulation::diff::SimulationDiff;

#[test]
fn dispatch_names_map_to_handlers() {
    assert_eq!(handler_for("pwd"), Some(Handler::Pwd));
    assert_eq!(handler_for("safeshell-pkg"), Some(Handler::SafeshellPkg));
    assert_eq!(handler_for("grep"), Some(Handler::Grep));
    assert_eq!(handler_for("sleep"), Some(Handler::Sleep));
    assert_eq!(handler_for("awk"), None);
    assert_eq!(handler_for("PWD"), None);
}

#[test]
fn unknown_command_exits_127() {
    let r = command_not_found("frobnicate");
    assert_eq!(r.stdout, "");
    assert_eq!(r.stderr, "frobnicate: command not found");
    assert_eq!(r.exit_code, 127);
}

#[test]
fn pwd_and_cd_move_the_working_directory() {
    let mut s = TerminalSession::new();
    assert_eq!(cmd_pwd(&s).stdout, "/\n");
    assert_eq!(cd_target(&[]), "/");
    let args = vec![Arg("project".to_string())];
    assert_eq!(cd_target(&args), "project");

    let target = SandboxPath::parse("project").unwrap();
    let r = finish_cd(&mut s, "project", target, Ok(FileKind::Directory));
    assert_eq!(r, CommandResult { stdout: String::new(), stderr: String::new(), exit_code: 0 });
    assert_eq!(cmd_pwd(&s).stdout, "/project\n");
    assert_eq!(s.get_env("PWD"), Some("/project".to_string()));

    let file = SandboxPath::parse("project/a.txt").unwrap();
    let r = finish_cd(&mut s, "a.txt", file, Ok(FileKind::Regular));
    assert_eq!(r.stderr, "cd: a.txt: Not a directory\n");
    assert_eq!(r.exit_code, 1);
    assert_eq!(cmd_pwd(&s).stdout, "/project\n");

    let missing = SandboxPath::parse("project/nope").unwrap();
    let r = finish_cd(&mut s, "nope", missing, Err("No such file or directory".to_string()));
    assert_eq!(r.stderr, "cd: nope: No such file or directory\n");
    assert_eq!(r.exit_code, 1);
}

#[test]
fn ls_prints_one_name_per_line() {
    assert_eq!(ls_output(&vec![]).stdout, "");
    let names = vec!["a.txt".to_string(), "b".to_string()];
    let r = ls_output(&names);
    assert_eq!(r.stdout, "a.txt\nb\n");
    assert_eq!(r.exit_code, 0);
}

#[test]
fn redirections_write_or_append() {
    assert_eq!(redirected_contents(RedirectionKind::Truncate, b"old".to_vec(), "new\n"), b"new\n".to_vec());
    assert_eq!(redirected_contents(RedirectionKind::Append, b"old\n".to_vec(), "é\n"), "old\né\n".as_bytes().to_vec());
    let r = input_redirection_refused();
    assert_eq!(r.exit_code, 1);
    assert_eq!(r.stderr, "SafeShell does not support input (`<`) redirection: no handler reads stdin\n");
}

#[test]
fn output_events_carry_the_command_result() {
    let e = failure_event("s1", "t1", "ls |", "parse error", 2);
    assert_eq!((e.stdout.as_str(), e.stderr.as_str(), e.exit_code), ("", "parse error", 2));
    assert_eq!(e.command, "ls |");
    let r = CommandResult { stdout: "x\n".to_string(), stderr: String::new(), exit_code: 0 };
    let e = output_event("s1", "t1", "echo", &r);
    assert_eq!((e.session_id.as_str(), e.transaction_id.as_str()), ("s1", "t1"));
    assert_eq!((e.stdout.as_str(), e.exit_code), ("x\n", 0));
}

fn medium_allow() -> PolicyDecision {
    PolicyDecision {
        support_tier: SupportTier::Supported,
        verdict: Verdict::Allow,
        category: Some(Category::Safe),
        risk_level: Some(RiskLevel::Low),
        reason_codes: vec![],
        reasons: vec![],
    }
}

#[test]
fn a_large_simulated_change_escalates_to_approval() {
    let mut diff = SimulationDiff::default();
    diff.files_created = (0..101).map(|i| format!("f{i}")).collect();
    let post = after_simulation(&medium_allow(), &diff);
    assert!(post.changed);
    assert!(post.requires_approval);
    assert_eq!(post.decision.risk_level, Some(RiskLevel::Medium));

    let small = SimulationDiff::default();
    let post = after_simulation(&medium_allow(), &small);
    assert!(!post.changed);
    assert!(!post.requires_approval);
    assert_eq!(post.decision.verdict, Verdict::Allow);
}

#[test]
fn identifiers_are_shown_with_their_prefix() {
    assert_eq!(CheckpointId(0).display(), "ckpt_00000000000000000000000000");
    assert_eq!(CheckpointId(1).display(), "ckpt_00000000000000000000000001");
    assert_eq!(SessionId(32).display(), "sess_00000000000000000000000010");
    let fresh = SessionId::new().display();
    assert!(fresh.starts_with("sess_") && fresh.len() == 31);
}

#[test]
fn rollback_responses_report_the_outcome() {
    let ok = RollbackResponse::from_outcome(RollbackOutcome {
        success: true,
        restored_checkpoint_id: Some(CheckpointId(1)),
        failure_detail: None,
    });
    assert!(ok.ok);
    assert_eq!(ok.restored_checkpoint_id, Some("ckpt_00000000000000000000000001".to_string()));
    assert_eq!(ok.reason, None);
    let failed = RollbackResponse::from_outcome(RollbackOutcome {
        success: false,
        restored_checkpoint_id: None,
        failure_detail: Some("active write layer is not empty after restore".to_string()),
    });
    assert!(!failed.ok);
    assert_eq!(failed.restored_checkpoint_id, None);
    assert_eq!(failed.reason, Some("active write layer is not empty after restore".to_string()));
}
