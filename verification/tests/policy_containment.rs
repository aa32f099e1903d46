use safeshell::parser::{parse_line, Env, ParsedCommand, Redirection, RedirectionKind};
use safeshell::policy::containment::{check_capability_gate, check_sensitive_pseudo_paths};
use safeshell::policy::types::ReasonCode;
use safeshell::sandbox::backend::{CapabilityReport, PrimitiveStatus};
use safeshell::sandbox::preflight::{PreflightCapabilityChecker, ProbeOutcomes};

fn parse(line: &str) -> ParsedCommand {
    parse_line(line, &Env::new()).unwrap().segments.into_iter().next().unwrap().0
}

#[test]
fn detects_sensitive_path_in_a_plain_argument() {
    let cmd = parse("cat /proc/sys/kernel/whatever");
    let result = check_sensitive_pseudo_paths(&cmd);
    assert!(matches!(result, Some((ReasonCode::DenyUnsimulatable, _))));
}

#[test]
fn detects_sensitive_path_in_a_redirection_target() {
    let mut cmd = parse("echo 1");
    cmd.redirections.push(Redirection {
        kind: RedirectionKind::Truncate,
        target: "/proc/sysrq-trigger".into(),
    });
    let result = check_sensitive_pseudo_paths(&cmd);
    assert!(matches!(result, Some((ReasonCode::DenyUnsimulatable, _))));
}

#[test]
fn detects_sensitive_path_in_a_later_pipeline_stage() {
    let cmd = parse("cat foo | tee /sys/class/whatever");
    let result = check_sensitive_pseudo_paths(&cmd);
    assert!(matches!(result, Some((ReasonCode::DenyUnsimulatable, _))));
}

#[test]
fn does_not_flag_ordinary_paths() {
    let cmd = parse("cat /project/README");
    assert_eq!(check_sensitive_pseudo_paths(&cmd), None);
}

#[test]
fn does_not_flag_a_substring_coincidence() {
    let cmd = parse("cat sysadmin-notes.txt");
    assert_eq!(check_sensitive_pseudo_paths(&cmd), None);
}

fn ok_or_unavailable(ok: bool) -> PrimitiveStatus {
    if ok {
        PrimitiveStatus::Okay
    } else {
        PrimitiveStatus::Unavailable { reason: "test".into() }
    }
}

fn report_with(execution_available: bool, pid_namespaces_ok: bool) -> CapabilityReport {
    CapabilityReport {
        user_namespaces: ok_or_unavailable(execution_available),
        mount_namespaces: ok_or_unavailable(execution_available),
        pid_namespaces: ok_or_unavailable(pid_namespaces_ok),
        seccomp: ok_or_unavailable(execution_available),
        cgroups_v2: ok_or_unavailable(execution_available),
        landlock: PrimitiveStatus::Okay,
        overlayfs: PrimitiveStatus::Okay,
        openat2: PrimitiveStatus::Okay,
        degradations: vec![],
    }
}

#[test]
fn capability_gate_allows_filesystem_ops_without_pid_namespace() {
    let report = report_with(true, false);
    assert_eq!(check_capability_gate(&report, false), None);
}

#[test]
fn capability_gate_denies_process_commands_without_pid_namespace() {
    let report = report_with(true, false);
    let result = check_capability_gate(&report, true);
    assert!(matches!(result, Some((ReasonCode::DenyCapabilityUnavailable, _))));
}

#[test]
fn capability_gate_denies_everything_when_execution_is_unavailable() {
    let report = report_with(false, false);
    assert!(check_capability_gate(&report, false).is_some());
    assert!(check_capability_gate(&report, true).is_some());
}

#[test]
fn capability_gate_matches_this_machines_real_preflight_report() {
    let probes = ProbeOutcomes {
        user_namespaces: PrimitiveStatus::Okay,
        mount_namespaces: PrimitiveStatus::Okay,
        pid_namespaces: PrimitiveStatus::Unavailable { reason: "no CAP_SYS_ADMIN".into() },
        seccomp: PrimitiveStatus::Okay,
        cgroups_v2: PrimitiveStatus::Unavailable { reason: "no delegated subtree".into() },
        landlock: PrimitiveStatus::Okay,
        openat2: PrimitiveStatus::Okay,
    };
    let report = PreflightCapabilityChecker::new().report_from(probes);
    let result = check_capability_gate(&report, false);
    if report.execution_available() {
        assert_eq!(result, None);
    } else {
        assert!(result.is_some());
    }
}

#[test]
fn capability_gate_reasons_are_exact() {
    let (code, reason) = check_capability_gate(&report_with(true, false), true).unwrap();
    assert_eq!(code, ReasonCode::DenyCapabilityUnavailable);
    assert_eq!(
        reason,
        "process-representation commands require a working PID namespace: unavailable (test)"
    );
    let (_, reason) = check_capability_gate(&report_with(false, true), false).unwrap();
    assert_eq!(
        reason,
        "required sandbox capabilities are unavailable in this session \u{2014} see the capability report"
    );
}
