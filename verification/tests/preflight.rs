use safeshell::sandbox::backend::{missing_required_primitives, CapabilityReport, PrimitiveStatus};
use safeshell::sandbox::preflight::{PreflightCapabilityChecker, ProbeOutcomes};

#[test]
fn run_produces_a_complete_report_regardless_of_individual_probe_outcomes() {
    let probes = ProbeOutcomes {
        user_namespaces: PrimitiveStatus::Okay,
        mount_namespaces: PrimitiveStatus::Unavailable { reason: "EPERM".into() },
        pid_namespaces: PrimitiveStatus::Okay,
        seccomp: PrimitiveStatus::Okay,
        cgroups_v2: PrimitiveStatus::Degraded { detail: "no memory controller".into() },
        landlock: PrimitiveStatus::Unavailable { reason: "ABI 0".into() },
        openat2: PrimitiveStatus::Fallback { using: "openat".into(), reason: "ENOSYS".into() },
    };
    let report = PreflightCapabilityChecker::new().report_from(probes);
    assert!(matches!(&report.overlayfs, PrimitiveStatus::Unavailable { reason } if reason.contains("Build order phase 3")));
    assert_eq!(
        report.degradations,
        vec!["landlock_unavailable".to_string(), "openat2_fallback:openat".to_string()]
    );
    assert!(!report.execution_available());
}

#[test]
fn execution_available_is_false_when_any_required_primitive_is_unavailable() {
    let report = CapabilityReport {
        user_namespaces: PrimitiveStatus::Unavailable { reason: "test".into() },
        mount_namespaces: PrimitiveStatus::Okay,
        pid_namespaces: PrimitiveStatus::Okay,
        seccomp: PrimitiveStatus::Okay,
        cgroups_v2: PrimitiveStatus::Okay,
        landlock: PrimitiveStatus::Okay,
        overlayfs: PrimitiveStatus::Okay,
        openat2: PrimitiveStatus::Okay,
        degradations: vec![],
    };
    assert!(!report.execution_available());
}

#[test]
fn execution_available_true_does_not_require_pid_namespaces_or_landlock() {
    let report = CapabilityReport {
        user_namespaces: PrimitiveStatus::Okay,
        mount_namespaces: PrimitiveStatus::Okay,
        pid_namespaces: PrimitiveStatus::Unavailable { reason: "test".into() },
        seccomp: PrimitiveStatus::Okay,
        cgroups_v2: PrimitiveStatus::Okay,
        landlock: PrimitiveStatus::Unavailable { reason: "test".into() },
        overlayfs: PrimitiveStatus::Unavailable { reason: "test".into() },
        openat2: PrimitiveStatus::Fallback { using: "openat".into(), reason: "test".into() },
        degradations: vec!["landlock_unavailable".into()],
    };
    assert!(report.execution_available());
    assert!(!report.process_commands_available());
}

#[test]
fn status_descriptions_and_missing_primitives_message() {
    assert_eq!(PrimitiveStatus::Okay.describe(), "ok");
    assert_eq!(
        PrimitiveStatus::Fallback { using: "openat".into(), reason: "ENOSYS".into() }.describe(),
        "fallback:openat (ENOSYS)"
    );
    let report = CapabilityReport {
        user_namespaces: PrimitiveStatus::Okay,
        mount_namespaces: PrimitiveStatus::Unavailable { reason: "EPERM".into() },
        pid_namespaces: PrimitiveStatus::Okay,
        seccomp: PrimitiveStatus::Okay,
        cgroups_v2: PrimitiveStatus::Degraded { detail: "x".into() },
        landlock: PrimitiveStatus::Okay,
        overlayfs: PrimitiveStatus::Okay,
        openat2: PrimitiveStatus::Okay,
        degradations: vec![],
    };
    assert_eq!(
        missing_required_primitives(&report),
        "cannot create sandbox session \u{2014} required capabilities unavailable: mount_namespaces: unavailable (EPERM); cgroups_v2: degraded (x)"
    );
}
