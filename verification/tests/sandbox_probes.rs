use safeshell::sandbox::backend::{
    CapabilityReport, NamespaceSandboxBackend, PrimitiveStatus, SandboxError, SessionCleanup,
    SetupHandshake,
};
use safeshell::sandbox::cgroups::{
    cgroup_search_candidates, controllers_usable, delegated_subtree_status, own_cgroup_path,
    required_controller_files, session_cgroup_name, CgroupLimits,
};
use safeshell::sandbox::probes::{
    landlock_outcome, landlock_status, mount_namespace_status, openat2_status, pid_namespace_status,
    seccomp_status, user_namespace_status, LandlockApplyError, LandlockOutcome, SeccompApplyError,
};

fn unavailable(reason: &str) -> PrimitiveStatus {
    PrimitiveStatus::Unavailable { reason: reason.to_string() }
}

fn report(all_ok: bool) -> CapabilityReport {
    let bad = || unavailable("probe fork failed: EAGAIN");
    CapabilityReport {
        user_namespaces: PrimitiveStatus::Okay,
        mount_namespaces: if all_ok { PrimitiveStatus::Okay } else { bad() },
        pid_namespaces: PrimitiveStatus::Okay,
        seccomp: PrimitiveStatus::Okay,
        cgroups_v2: if all_ok { PrimitiveStatus::Okay } else { bad() },
        landlock: PrimitiveStatus::Okay,
        overlayfs: PrimitiveStatus::Okay,
        openat2: PrimitiveStatus::Okay,
        degradations: vec![],
    }
}

#[test]
fn probe_exit_code_zero_is_ok() {
    assert_eq!(user_namespace_status(Ok(0)), PrimitiveStatus::Okay);
    assert_eq!(mount_namespace_status(Ok(0)), PrimitiveStatus::Okay);
    assert_eq!(pid_namespace_status(Ok(0)), PrimitiveStatus::Okay);
    assert_eq!(seccomp_status(Ok(0)), PrimitiveStatus::Okay);
    assert_eq!(landlock_status(Ok(0)), PrimitiveStatus::Okay);
}

#[test]
fn probe_step_failures_name_the_step() {
    assert_eq!(
        mount_namespace_status(Ok(7)),
        unavailable("probe failed at step 7 (1=unshare, 2-4=uid/gid map, 5=temp root setup, 6=bind mount, 7-9=pivot_root sequence)")
    );
    assert_eq!(
        pid_namespace_status(Ok(20)),
        unavailable("probe failed at step 20 (1=unshare, 2-4=uid/gid map, 20=grandchild did not observe PID 1, 21=grandchild wait failed, 22=grandchild fork failed)")
    );
    assert_eq!(
        seccomp_status(Ok(5)),
        unavailable("seccomp self-test failed at step 5 (1=arch lookup, 2=filter build, 3=BPF compile, 4=apply_filter, 5=denied syscall was not actually blocked)")
    );
    assert_eq!(
        user_namespace_status(Ok(255)),
        unavailable("probe failed at step 255 of 3 (1=unshare(CLONE_NEWUSER), 2=write /proc/self/uid_map, 3=write /proc/self/setgroups) — re-run with RUST_LOG or attach strace to a probe child for the specific errno")
    );
}

#[test]
fn probe_fork_failure_is_reported() {
    assert_eq!(
        seccomp_status(Err("EAGAIN: Try again".to_string())),
        unavailable("probe fork failed: EAGAIN: Try again")
    );
    assert_eq!(
        landlock_status(Err("ENOMEM".to_string())),
        unavailable("probe fork failed: ENOMEM")
    );
}

#[test]
fn landlock_probe_codes() {
    assert_eq!(
        landlock_status(Ok(1)),
        unavailable("kernel does not support Landlock (pre-5.13, or disabled at build time)")
    );
    assert_eq!(
        landlock_status(Ok(2)),
        unavailable("Landlock probe ruleset failed to build or apply")
    );
}

#[test]
fn openat2_probe_outcomes() {
    assert_eq!(openat2_status(Ok(())), PrimitiveStatus::Okay);
    assert_eq!(
        openat2_status(Err((true, "ENOSYS".to_string()))),
        PrimitiveStatus::Fallback {
            using: "component-walk openat with O_NOFOLLOW".to_string(),
            reason: "openat2 syscall not available (pre-5.6 kernel, or blocked)".to_string(),
        }
    );
    assert_eq!(
        openat2_status(Err((false, "EPERM: Operation not permitted".to_string()))),
        unavailable("openat2 probe failed: EPERM: Operation not permitted")
    );
}

#[test]
fn landlock_outcomes_and_errors() {
    assert_eq!(landlock_outcome(true), LandlockOutcome::Enforced);
    assert_eq!(
        landlock_outcome(false),
        LandlockOutcome::Unsupported {
            reason: "kernel does not support Landlock (pre-5.13, or disabled at build time)".to_string()
        }
    );
    assert_eq!(
        LandlockApplyError("bad ABI".to_string()).message(),
        "failed to build or apply Landlock ruleset: bad ABI"
    );
    assert_eq!(
        SeccompApplyError::UnknownArch("sparc".to_string()).message(),
        "unrecognized target architecture for seccomp filter: sparc"
    );
    assert_eq!(
        SeccompApplyError::Install("EFAULT".to_string()).message(),
        "failed to install seccomp filter: EFAULT"
    );
}

#[test]
fn cgroup_limit_files_are_written_as_decimal() {
    let limits = CgroupLimits {
        pids_max: 512,
        memory_max_bytes: 512 * 1024 * 1024,
        cpu_quota_period: (50_000, 100_000),
    };
    assert_eq!(
        limits.control_files(),
        vec![
            ("pids.max".to_string(), "512".to_string()),
            ("memory.max".to_string(), "536870912".to_string()),
            ("cpu.max".to_string(), "50000 100000".to_string()),
        ]
    );
    assert_eq!(session_cgroup_name("abc"), "safeshell-abc");
    assert_eq!(required_controller_files(), vec!["pids.max", "memory.max", "cpu.max"]);
}

#[test]
fn controllers_usable_needs_every_file_writable() {
    assert!(controllers_usable(&[true, true, true]));
    assert!(!controllers_usable(&[true, false, true]));
}

#[test]
fn own_cgroup_path_reads_the_v2_line() {
    let text = "12:pids:/user.slice\n0::/user.slice/user-1000.slice/session-2.scope\n";
    assert_eq!(
        own_cgroup_path(Ok(text.to_string())),
        Ok("/user.slice/user-1000.slice/session-2.scope".to_string())
    );
    assert_eq!(
        own_cgroup_path(Ok("1:name=systemd:/\n".to_string())),
        Err("no cgroup v2 (0::) line in /proc/self/cgroup".to_string())
    );
    assert_eq!(
        own_cgroup_path(Err("Permission denied".to_string())),
        Err("Permission denied".to_string())
    );
}

#[test]
fn cgroup_search_walks_up_to_the_root() {
    assert_eq!(
        cgroup_search_candidates("/user.slice//./app.scope"),
        vec![
            "/sys/fs/cgroup/user.slice/app.scope",
            "/sys/fs/cgroup/user.slice",
            "/sys/fs/cgroup",
        ]
    );
    assert_eq!(cgroup_search_candidates("/"), vec!["/sys/fs/cgroup"]);
}

#[test]
fn delegated_subtree_status_explains_each_failure() {
    let own = Ok("/a".to_string());
    assert_eq!(
        delegated_subtree_status(false, true, &own, true),
        unavailable("no /sys/fs/cgroup mount found")
    );
    assert_eq!(
        delegated_subtree_status(true, false, &own, true),
        unavailable("/sys/fs/cgroup has no cgroup.controllers file — not a cgroup v2 (unified) hierarchy")
    );
    assert_eq!(
        delegated_subtree_status(true, true, &Err("gone".to_string()), true),
        unavailable("could not read own cgroup: gone")
    );
    assert_eq!(
        delegated_subtree_status(true, true, &own, false),
        unavailable("no writable delegated cgroup subtree with pids.max, memory.max and cpu.max was found")
    );
    assert_eq!(delegated_subtree_status(true, true, &own, true), PrimitiveStatus::Okay);
}

#[test]
fn session_creation_fails_closed_without_capabilities() {
    let backend = NamespaceSandboxBackend::new();
    assert_eq!(backend.check_capabilities(&report(true)), Ok(()));
    match backend.check_capabilities(&report(false)) {
        Err(SandboxError::CapabilityUnavailable(m)) => assert_eq!(
            m,
            "cannot create sandbox session — required capabilities unavailable: mount_namespaces: unavailable (probe fork failed: EAGAIN); cgroups_v2: unavailable (probe fork failed: EAGAIN)"
        ),
        other => panic!("unexpected {other:?}"),
    }
}

#[test]
fn session_setup_failures_choose_their_cleanup() {
    let backend = NamespaceSandboxBackend::new();
    assert_eq!(
        backend.finish_session_setup(Ok(()), Ok(SetupHandshake::Ready)),
        (Ok(()), SessionCleanup::Keep)
    );
    assert_eq!(
        backend.finish_session_setup(Ok(()), Ok(SetupHandshake::Failed("pivot_root: EPERM".to_string()))),
        (
            Err(SandboxError::SessionCreationFailed("pivot_root: EPERM".to_string())),
            SessionCleanup::ReapAndRemove
        )
    );
    assert_eq!(
        backend.finish_session_setup(Ok(()), Err("EOF".to_string())),
        (
            Err(SandboxError::SessionCreationFailed("setup handshake failed: EOF".to_string())),
            SessionCleanup::KillAndRemove
        )
    );
    assert_eq!(
        backend.finish_session_setup(Err("ENOENT".to_string()), Ok(SetupHandshake::Ready)),
        (
            Err(SandboxError::SessionCreationFailed("failed to join session cgroup: ENOENT".to_string())),
            SessionCleanup::KillAndRemove
        )
    );
    assert_eq!(
        SandboxError::OperationFailed("recv: EOF".to_string()).message(),
        "sandbox operation failed: recv: EOF"
    );
}

#[test]
fn probe_runs_to_completion() {
    let outcomes: Vec<Result<u8, String>> =
        (0..=255u8).map(Ok).chain(std::iter::once(Err("EAGAIN".to_string()))).collect();
    for outcome in outcomes {
        let status = landlock_status(outcome);
        assert!(matches!(
            status,
            PrimitiveStatus::Okay | PrimitiveStatus::Unavailable { .. }
        ));
    }
}

#[test]
fn probe_mount_namespace_and_pivot_root_runs_to_completion() {
    let outcomes: Vec<Result<u8, String>> =
        (0..=255u8).map(Ok).chain(std::iter::once(Err("EAGAIN".to_string()))).collect();
    for outcome in outcomes {
        let status = mount_namespace_status(outcome);
        assert!(matches!(
            status,
            PrimitiveStatus::Okay | PrimitiveStatus::Unavailable { .. }
        ));
    }
}

fn every_probe_outcome() -> Vec<Result<u8, String>> {
    (0..=255u8).map(Ok).chain(std::iter::once(Err("EAGAIN".to_string()))).collect()
}

#[test]
fn probe_user_namespace_runs_to_completion() {
    for outcome in every_probe_outcome() {
        let status = user_namespace_status(outcome);
        println!("probe_user_namespace: {}", status.describe());
        assert!(matches!(
            status,
            PrimitiveStatus::Okay | PrimitiveStatus::Unavailable { .. }
        ));
    }
}

#[test]
fn probe_pid_namespace_runs_to_completion() {
    for outcome in every_probe_outcome() {
        let status = pid_namespace_status(outcome);
        println!("probe_pid_namespace: {}", status.describe());
        assert!(matches!(
            status,
            PrimitiveStatus::Okay | PrimitiveStatus::Unavailable { .. }
        ));
    }
}

#[test]
fn self_test_runs_to_completion() {
    for outcome in every_probe_outcome() {
        let status = seccomp_status(outcome);
        println!("seccomp::self_test: {}", status.describe());
        assert!(matches!(
            status,
            PrimitiveStatus::Okay | PrimitiveStatus::Unavailable { .. }
        ));
    }
}

#[test]
fn probe_openat2_runs_to_completion() {
    let outcomes: Vec<Result<(), (bool, String)>> = vec![
        Ok(()),
        Err((true, "ENOSYS".to_string())),
        Err((false, "EXDEV".to_string())),
    ];
    for outcome in outcomes {
        let status = openat2_status(outcome);
        println!("probe_openat2: {}", status.describe());
        assert!(matches!(
            status,
            PrimitiveStatus::Okay
                | PrimitiveStatus::Unavailable { .. }
                | PrimitiveStatus::Fallback { .. }
        ));
    }
}

#[test]
fn create_session_fails_closed_when_capabilities_are_unavailable() {
    let backend = NamespaceSandboxBackend::new();
    let report = report(false);
    assert!(!report.execution_available());
    let result = backend.check_capabilities(&report);
    assert!(matches!(result, Err(SandboxError::CapabilityUnavailable(_))));
}

#[test]
fn delegated_subtree_status_runs_to_completion() {
    let owns = [Ok("/user.slice".to_string()), Err("EACCES".to_string())];
    for root_is_dir in [false, true] {
        for has_controllers in [false, true] {
            for own in &owns {
                for found in [false, true] {
                    let status = delegated_subtree_status(root_is_dir, has_controllers, own, found);
                    assert!(matches!(
                        status,
                        PrimitiveStatus::Okay | PrimitiveStatus::Unavailable { .. }
                    ));
                }
            }
        }
    }
}

#[test]
fn current_process_cgroup_path_is_readable_on_this_kernel() {
    let result = own_cgroup_path(Ok("0::/init.scope\n".to_string()));
    println!("current_process_cgroup_path: {result:?}");
    assert_eq!(result, Ok("/init.scope".to_string()));
}

use safeshell::sandbox::transport::{frame, frame_length, MAX_MESSAGE_BYTES};

#[test]
fn frames_carry_a_big_endian_length_prefix() {
    assert_eq!(frame(b"hi"), Ok(vec![0, 0, 0, 2, b'h', b'i']));
    assert_eq!(frame(&[]), Ok(vec![0, 0, 0, 0]));
    let f = frame(&vec![7u8; 300]).unwrap();
    assert_eq!(&f[..4], &[0, 0, 1, 44]);
    assert_eq!(frame_length([f[0], f[1], f[2], f[3]]), Ok(300));
}

#[test]
fn an_oversized_frame_is_refused() {
    assert_eq!(MAX_MESSAGE_BYTES, 16 * 1024 * 1024);
    assert_eq!(frame_length([1, 0, 0, 0]), Ok(16 * 1024 * 1024));
    assert_eq!(frame_length([1, 0, 0, 1]), Err("message exceeds maximum frame size".to_string()));
    assert_eq!(frame_length([255, 255, 255, 255]), Err("message exceeds maximum frame size".to_string()));
}
