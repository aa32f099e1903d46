//! What each kernel primitive's self-test reports, read from how its probe
//! child exited: code 0 is success, any other code names the step that
//! failed, and a fork that failed never ran the probe at all. The probes
//! themselves (forks, unshares, mounts, filters) run on the host.

use vstd::prelude::*;
use crate::sandbox::backend::PrimitiveStatus;
use crate::text::{chars_of, decimal, decimal_text, push_all, push_str, string_from_chars};

verus! {

/// The reason given when the probe child could not be forked.
pub open spec fn fork_failure_reason(error: Seq<char>) -> Seq<char> {
    "probe fork failed: "@ + error
}

/// The reason given when a probe stopped at step `code`: the lead-in, the
/// step number, and the legend of steps.
pub open spec fn step_reason(lead: Seq<char>, code: u8, legend: Seq<char>) -> Seq<char> {
    lead + decimal(code as nat) + legend
}

/// Whether `s` is `Unavailable` with exactly `reason`.
pub open spec fn unavailable_with(s: PrimitiveStatus, reason: Seq<char>) -> bool {
    s matches PrimitiveStatus::Unavailable { reason: r } && r@ == reason
}

/// The step legend of the user-namespace probe.
pub open spec fn user_namespace_legend() -> Seq<char> {
    " of 3 (1=unshare(CLONE_NEWUSER), 2=write /proc/self/uid_map, 3=write /proc/self/setgroups) — re-run with RUST_LOG or attach strace to a probe child for the specific errno"@
}

/// The step legend of the mount-namespace and `pivot_root` probe.
pub open spec fn mount_namespace_legend() -> Seq<char> {
    " (1=unshare, 2-4=uid/gid map, 5=temp root setup, 6=bind mount, 7-9=pivot_root sequence)"@
}

/// The step legend of the PID-namespace probe.
pub open spec fn pid_namespace_legend() -> Seq<char> {
    " (1=unshare, 2-4=uid/gid map, 20=grandchild did not observe PID 1, 21=grandchild wait failed, 22=grandchild fork failed)"@
}

/// The step legend of the seccomp self-test.
pub open spec fn seccomp_legend() -> Seq<char> {
    " (1=arch lookup, 2=filter build, 3=BPF compile, 4=apply_filter, 5=denied syscall was not actually blocked)"@
}

/// The reason Landlock is missing when the kernel lacks it.
pub open spec fn landlock_unsupported_reason() -> Seq<char> {
    "kernel does not support Landlock (pre-5.13, or disabled at build time)"@
}

/// The status a step-numbered probe reports for how its child exited.
pub open spec fn stepped_status_holds(
    s: PrimitiveStatus,
    outcome: Result<u8, String>,
    lead: Seq<char>,
    legend: Seq<char>,
) -> bool {
    match outcome {
        Ok(code) => if code == 0 {
            s is Okay
        } else {
            unavailable_with(s, step_reason(lead, code, legend))
        },
        Err(e) => unavailable_with(s, fork_failure_reason(e@)),
    }
}

fn unavailable(reason: Vec<char>) -> (s: PrimitiveStatus)
    ensures
        unavailable_with(s, reason@),
{
    PrimitiveStatus::Unavailable { reason: string_from_chars(reason.as_slice()) }
}

/// The status for a probe child that could not be forked.
fn fork_failure(error: &str) -> (s: PrimitiveStatus)
    ensures
        unavailable_with(s, fork_failure_reason(error@)),
{
    let mut out = chars_of("probe fork failed: ");
    push_str(&mut out, error);
    unavailable(out)
}

fn stepped_status(outcome: Result<u8, String>, lead: &str, legend: &str) -> (s: PrimitiveStatus)
    ensures
        stepped_status_holds(s, outcome, lead@, legend@),
{
    match outcome {
        Ok(code) => {
            if code == 0 {
                PrimitiveStatus::Okay
            } else {
                let mut out = chars_of(lead);
                let digits = decimal_text(code as usize);
                push_all(&mut out, digits.as_slice());
                push_str(&mut out, legend);
                unavailable(out)
            }
        },
        Err(e) => fork_failure(e.as_str()),
    }
}

/// The user-namespace probe's status.
pub fn user_namespace_status(outcome: Result<u8, String>) -> (s: PrimitiveStatus)
    ensures
        stepped_status_holds(s, outcome, "probe failed at step "@, user_namespace_legend()),
{
    let s = stepped_status(
        outcome,
        "probe failed at step ",
        " of 3 (1=unshare(CLONE_NEWUSER), 2=write /proc/self/uid_map, 3=write /proc/self/setgroups) — re-run with RUST_LOG or attach strace to a probe child for the specific errno",
    );
    proof {
        reveal_strlit("probe failed at step ");
        reveal_strlit(" of 3 (1=unshare(CLONE_NEWUSER), 2=write /proc/self/uid_map, 3=write /proc/self/setgroups) — re-run with RUST_LOG or attach strace to a probe child for the specific errno");
    }
    s
}

/// The mount-namespace and `pivot_root` probe's status.
pub fn mount_namespace_status(outcome: Result<u8, String>) -> (s: PrimitiveStatus)
    ensures
        stepped_status_holds(s, outcome, "probe failed at step "@, mount_namespace_legend()),
{
    let s = stepped_status(
        outcome,
        "probe failed at step ",
        " (1=unshare, 2-4=uid/gid map, 5=temp root setup, 6=bind mount, 7-9=pivot_root sequence)",
    );
    proof {
        reveal_strlit("probe failed at step ");
        reveal_strlit(" (1=unshare, 2-4=uid/gid map, 5=temp root setup, 6=bind mount, 7-9=pivot_root sequence)");
    }
    s
}

/// The PID-namespace probe's status.
pub fn pid_namespace_status(outcome: Result<u8, String>) -> (s: PrimitiveStatus)
    ensures
        stepped_status_holds(s, outcome, "probe failed at step "@, pid_namespace_legend()),
{
    let s = stepped_status(
        outcome,
        "probe failed at step ",
        " (1=unshare, 2-4=uid/gid map, 20=grandchild did not observe PID 1, 21=grandchild wait failed, 22=grandchild fork failed)",
    );
    proof {
        reveal_strlit("probe failed at step ");
        reveal_strlit(" (1=unshare, 2-4=uid/gid map, 20=grandchild did not observe PID 1, 21=grandchild wait failed, 22=grandchild fork failed)");
    }
    s
}

/// The seccomp self-test's status.
pub fn seccomp_status(outcome: Result<u8, String>) -> (s: PrimitiveStatus)
    ensures
        stepped_status_holds(s, outcome, "seccomp self-test failed at step "@, seccomp_legend()),
{
    let s = stepped_status(
        outcome,
        "seccomp self-test failed at step ",
        " (1=arch lookup, 2=filter build, 3=BPF compile, 4=apply_filter, 5=denied syscall was not actually blocked)",
    );
    proof {
        reveal_strlit("seccomp self-test failed at step ");
        reveal_strlit(" (1=arch lookup, 2=filter build, 3=BPF compile, 4=apply_filter, 5=denied syscall was not actually blocked)");
    }
    s
}

/// The Landlock probe's status: code 0 when a ruleset applied, 1 when the
/// kernel lacks Landlock, anything else when the ruleset failed.
pub fn landlock_status(outcome: Result<u8, String>) -> (s: PrimitiveStatus)
    ensures
        match outcome {
            Ok(code) => if code == 0 {
                s is Okay
            } else if code == 1 {
                unavailable_with(s, landlock_unsupported_reason())
            } else {
                unavailable_with(s, "Landlock probe ruleset failed to build or apply"@)
            },
            Err(e) => unavailable_with(s, fork_failure_reason(e@)),
        },
{
    match outcome {
        Ok(0) => PrimitiveStatus::Okay,
        Ok(1) => unavailable(chars_of("kernel does not support Landlock (pre-5.13, or disabled at build time)")),
        Ok(_) => unavailable(chars_of("Landlock probe ruleset failed to build or apply")),
        Err(e) => fork_failure(e.as_str()),
    }
}

/// The `openat2` probe's status: the syscall works; it is missing
/// (`ENOSYS`), so a component walk stands in; or it failed otherwise, with
/// the error as shown.
pub fn openat2_status(outcome: Result<(), (bool, String)>) -> (s: PrimitiveStatus)
    ensures
        match outcome {
            Ok(_) => s is Okay,
            Err((true, _)) => s matches PrimitiveStatus::Fallback { using, reason }
                && using@ == "component-walk openat with O_NOFOLLOW"@
                && reason@ == "openat2 syscall not available (pre-5.6 kernel, or blocked)"@,
            Err((false, e)) => unavailable_with(s, "openat2 probe failed: "@ + e@),
        },
{
    match outcome {
        Ok(()) => PrimitiveStatus::Okay,
        Err((true, _)) => PrimitiveStatus::Fallback {
            using: "component-walk openat with O_NOFOLLOW".to_string(),
            reason: "openat2 syscall not available (pre-5.6 kernel, or blocked)".to_string(),
        },
        Err((false, e)) => {
            let mut out = chars_of("openat2 probe failed: ");
            push_str(&mut out, e.as_str());
            unavailable(out)
        },
    }
}

/// What restricting the worker with Landlock achieved.
#[derive(Debug, Clone, PartialEq, Eq)]
pub enum LandlockOutcome {
    Enforced,
    Unsupported { reason: String },
}

/// The outcome of a ruleset that applied: enforced when the kernel has
/// Landlock, otherwise unsupported with the reason.
pub fn landlock_outcome(kernel_has_landlock: bool) -> (o: LandlockOutcome)
    ensures
        kernel_has_landlock ==> o is Enforced,
        !kernel_has_landlock ==> (o matches LandlockOutcome::Unsupported { reason }
            && reason@ == landlock_unsupported_reason()),
{
    if kernel_has_landlock {
        LandlockOutcome::Enforced
    } else {
        LandlockOutcome::Unsupported {
            reason: "kernel does not support Landlock (pre-5.13, or disabled at build time)".to_string(),
        }
    }
}

/// A Landlock ruleset that could not be built or applied, with the error.
#[derive(Debug, Clone, PartialEq, Eq)]
pub struct LandlockApplyError(pub String);

impl LandlockApplyError {
    /// The error as shown.
    pub fn message(&self) -> (s: String)
        ensures
            s@ == "failed to build or apply Landlock ruleset: "@ + self.0@,
    {
        let mut out = chars_of("failed to build or apply Landlock ruleset: ");
        push_str(&mut out, self.0.as_str());
        string_from_chars(out.as_slice())
    }
}

/// Why the worker's seccomp filter could not be installed.
#[derive(Debug, Clone, PartialEq, Eq)]
pub enum SeccompApplyError {
    UnknownArch(String),
    FilterBuild(String),
    BpfCompile(String),
    Install(String),
}

/// The text each seccomp failure is shown as.
pub open spec fn seccomp_error_text(e: SeccompApplyError) -> Seq<char> {
    match e {
        SeccompApplyError::UnknownArch(a) => "unrecognized target architecture for seccomp filter: "@ + a@,
        SeccompApplyError::FilterBuild(d) => "failed to build seccomp filter: "@ + d@,
        SeccompApplyError::BpfCompile(d) => "failed to compile seccomp BPF program: "@ + d@,
        SeccompApplyError::Install(d) => "failed to install seccomp filter: "@ + d@,
    }
}

impl SeccompApplyError {
    /// The error as shown.
    pub fn message(&self) -> (s: String)
        ensures
            s@ == seccomp_error_text(*self),
    {
        let (lead, detail) = match self {
            SeccompApplyError::UnknownArch(a) => ("unrecognized target architecture for seccomp filter: ", a),
            SeccompApplyError::FilterBuild(d) => ("failed to build seccomp filter: ", d),
            SeccompApplyError::BpfCompile(d) => ("failed to compile seccomp BPF program: ", d),
            SeccompApplyError::Install(d) => ("failed to install seccomp filter: ", d),
        };
        let mut out = chars_of(lead);
        push_str(&mut out, detail.as_str());
        proof {
            reveal_strlit("unrecognized target architecture for seccomp filter: ");
            reveal_strlit("failed to build seccomp filter: ");
            reveal_strlit("failed to compile seccomp BPF program: ");
            reveal_strlit("failed to install seccomp filter: ");
        }
        string_from_chars(out.as_slice())
    }
}

} // verus!
