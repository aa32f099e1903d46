//! Capability status of each sandbox primitive, and the report that
//! aggregates them.

use vstd::prelude::*;
use crate::sandbox::cgroups::CgroupLimits;
use crate::text::{chars_of, push_all, push_str, string_from_chars, join, join_strings};

verus! {

/// How one kernel primitive fared in its self-test.
#[derive(Debug, Clone, PartialEq, Eq)]
pub enum PrimitiveStatus {
    Okay,
    Unavailable { reason: String },
    Fallback { using: String, reason: String },
    Degraded { detail: String },
}

/// The text a status is shown as.
pub open spec fn status_text(s: PrimitiveStatus) -> Seq<char> {
    match s {
        PrimitiveStatus::Okay => "ok"@,
        PrimitiveStatus::Unavailable { reason } => "unavailable ("@ + reason@ + ")"@,
        PrimitiveStatus::Fallback { using, reason } => "fallback:"@ + using@ + " ("@ + reason@ + ")"@,
        PrimitiveStatus::Degraded { detail } => "degraded ("@ + detail@ + ")"@,
    }
}

impl PrimitiveStatus {
    /// Whether the primitive works as required.
    pub fn is_ok(&self) -> (b: bool)
        ensures
            b == (*self is Okay),
    {
        match self {
            PrimitiveStatus::Okay => true,
            _ => false,
        }
    }

    /// Whether the primitive is missing outright.
    pub fn is_unavailable(&self) -> (b: bool)
        ensures
            b == (*self is Unavailable),
    {
        match self {
            PrimitiveStatus::Unavailable { .. } => true,
            _ => false,
        }
    }

    /// The status as shown to a user, e.g. `unavailable (reason)`.
    pub fn describe(&self) -> (s: String)
        ensures
            s@ == status_text(*self),
    {
        let mut out: Vec<char> = Vec::new();
        match self {
            PrimitiveStatus::Okay => {
                push_str(&mut out, "ok");
            },
            PrimitiveStatus::Unavailable { reason } => {
                push_str(&mut out, "unavailable (");
                push_str(&mut out, reason.as_str());
                push_str(&mut out, ")");
            },
            PrimitiveStatus::Fallback { using, reason } => {
                push_str(&mut out, "fallback:");
                push_str(&mut out, using.as_str());
                push_str(&mut out, " (");
                push_str(&mut out, reason.as_str());
                push_str(&mut out, ")");
            },
            PrimitiveStatus::Degraded { detail } => {
                push_str(&mut out, "degraded (");
                push_str(&mut out, detail.as_str());
                push_str(&mut out, ")");
            },
        }
        assert(out@ =~= status_text(*self));
        string_from_chars(out.as_slice())
    }
}

/// The status of every primitive the sandbox relies on.
#[derive(Debug, Clone, PartialEq, Eq)]
pub struct CapabilityReport {
    pub user_namespaces: PrimitiveStatus,
    pub mount_namespaces: PrimitiveStatus,
    pub pid_namespaces: PrimitiveStatus,
    pub seccomp: PrimitiveStatus,
    pub cgroups_v2: PrimitiveStatus,
    pub landlock: PrimitiveStatus,
    pub overlayfs: PrimitiveStatus,
    pub openat2: PrimitiveStatus,
    pub degradations: Vec<String>,
}

impl CapabilityReport {
    /// Sandboxed execution needs user and mount namespaces, seccomp and
    /// cgroups v2.
    pub open spec fn can_execute(&self) -> bool {
        &&& self.user_namespaces is Okay
        &&& self.mount_namespaces is Okay
        &&& self.seccomp is Okay
        &&& self.cgroups_v2 is Okay
    }

    /// Process commands additionally need a PID namespace.
    pub open spec fn can_run_process_commands(&self) -> bool {
        self.can_execute() && self.pid_namespaces is Okay
    }

    /// Whether sandboxed execution is available.
    pub fn execution_available(&self) -> (b: bool)
        ensures
            b == self.can_execute(),
    {
        self.user_namespaces.is_ok() && self.mount_namespaces.is_ok() && self.seccomp.is_ok()
            && self.cgroups_v2.is_ok()
    }

    /// Whether commands that see processes (`ps`, `kill`) can run.
    pub fn process_commands_available(&self) -> (b: bool)
        ensures
            b == self.can_run_process_commands(),
    {
        self.execution_available() && self.pid_namespaces.is_ok()
    }
}

/// The entries listing each required primitive that is not working.
pub open spec fn missing_entries(r: CapabilityReport) -> Seq<Seq<char>> {
    (if r.user_namespaces is Okay { Seq::empty() } else { seq!["user_namespaces: "@ + status_text(r.user_namespaces)] })
    + (if r.mount_namespaces is Okay { Seq::empty() } else { seq!["mount_namespaces: "@ + status_text(r.mount_namespaces)] })
    + (if r.seccomp is Okay { Seq::empty() } else { seq!["seccomp: "@ + status_text(r.seccomp)] })
    + (if r.cgroups_v2 is Okay { Seq::empty() } else { seq!["cgroups_v2: "@ + status_text(r.cgroups_v2)] })
}

/// The message for a session refused for missing primitives.
pub open spec fn missing_message(r: CapabilityReport) -> Seq<char> {
    "cannot create sandbox session — required capabilities unavailable: "@ + join(missing_entries(r), "; "@)
}

fn push_missing(missing: &mut Vec<Vec<char>>, label: &str, status: &PrimitiveStatus)
    ensures
        final(missing)@.map_values(|v: Vec<char>| v@) == old(missing)@.map_values(|v: Vec<char>| v@)
            + (if *status is Okay { Seq::empty() } else { seq![label@ + status_text(*status)] }),
{
    let ghost before = missing@.map_values(|v: Vec<char>| v@);
    if !status.is_ok() {
        let mut entry = chars_of(label);
        let text = status.describe();
        push_str(&mut entry, text.as_str());
        let ghost ev = entry@;
        missing.push(entry);
        assert(missing@.map_values(|v: Vec<char>| v@) =~= before + seq![ev]);
    } else {
        assert(missing@.map_values(|v: Vec<char>| v@) =~= before + Seq::<Seq<char>>::empty());
    }
}

/// Explains which required primitives are missing, for a refused session.
pub fn missing_required_primitives(report: &CapabilityReport) -> (s: String)
    ensures
        s@ == missing_message(*report),
{
    let mut missing: Vec<Vec<char>> = Vec::new();
    assert(missing@.map_values(|v: Vec<char>| v@) =~= Seq::<Seq<char>>::empty());
    push_missing(&mut missing, "user_namespaces: ", &report.user_namespaces);
    push_missing(&mut missing, "mount_namespaces: ", &report.mount_namespaces);
    push_missing(&mut missing, "seccomp: ", &report.seccomp);
    push_missing(&mut missing, "cgroups_v2: ", &report.cgroups_v2);
    assert(missing@.map_values(|v: Vec<char>| v@) =~= missing_entries(*report));
    let mut out = chars_of("cannot create sandbox session — required capabilities unavailable: ");
    let joined = join_strings(&missing, "; ");
    push_all(&mut out, joined.as_slice());
    string_from_chars(out.as_slice())
}


/// Why a sandbox operation failed.
#[derive(Debug, Clone, PartialEq, Eq)]
pub enum SandboxError {
    CapabilityUnavailable(String),
    SessionCreationFailed(String),
    OperationFailed(String),
}

/// The text each sandbox failure is shown as.
pub open spec fn sandbox_error_text(e: SandboxError) -> Seq<char> {
    match e {
        SandboxError::CapabilityUnavailable(d) => "required security capability unavailable: "@ + d@,
        SandboxError::SessionCreationFailed(d) => "sandbox session creation failed: "@ + d@,
        SandboxError::OperationFailed(d) => "sandbox operation failed: "@ + d@,
    }
}

impl SandboxError {
    /// The error as shown.
    pub fn message(&self) -> (s: String)
        ensures
            s@ == sandbox_error_text(*self),
    {
        let (lead, detail) = match self {
            SandboxError::CapabilityUnavailable(d) => ("required security capability unavailable: ", d),
            SandboxError::SessionCreationFailed(d) => ("sandbox session creation failed: ", d),
            SandboxError::OperationFailed(d) => ("sandbox operation failed: ", d),
        };
        let mut out = chars_of(lead);
        push_str(&mut out, detail.as_str());
        proof {
            reveal_strlit("required security capability unavailable: ");
            reveal_strlit("sandbox session creation failed: ");
            reveal_strlit("sandbox operation failed: ");
        }
        string_from_chars(out.as_slice())
    }
}

/// What a sandbox session is created with.
#[derive(Debug)]
pub struct SandboxConfig {
    pub session_id: String,
    pub root_path: std::path::PathBuf,
    pub cgroup_limits: CgroupLimits,
}

/// The sandbox backend built on Linux namespaces, seccomp, cgroups v2 and
/// Landlock.
#[derive(Debug, Clone, Copy)]
pub struct NamespaceSandboxBackend;

/// What is done with a half-created session whose setup failed.
#[derive(Debug, Clone, Copy, PartialEq, Eq, Structural)]
pub enum SessionCleanup {
    /// Nothing: the session is ready.
    Keep,
    /// The worker exited on its own: wait for it and remove its cgroup.
    ReapAndRemove,
    /// The worker may still run: kill it, wait for it, remove its cgroup.
    KillAndRemove,
}

/// What the session's worker reported after setting itself up.
#[derive(Debug, Clone, PartialEq, Eq)]
pub enum SetupHandshake {
    Ready,
    Failed(String),
}

impl NamespaceSandboxBackend {
    pub fn new() -> (b: Self) {
        NamespaceSandboxBackend
    }

    /// Whether a session may be created with what the preflight found: it
    /// fails closed, refusing when any primitive that execution needs is
    /// not working, and names those primitives.
    pub fn check_capabilities(&self, report: &CapabilityReport) -> (r: Result<(), SandboxError>)
        ensures
            report.can_execute() ==> r is Ok,
            !report.can_execute() ==> (r matches Err(SandboxError::CapabilityUnavailable(m))
                && m@ == missing_message(*report)),
    {
        if report.execution_available() {
            Ok(())
        } else {
            Err(SandboxError::CapabilityUnavailable(missing_required_primitives(report)))
        }
    }

    /// How creating a session ends, from whether the worker joined its
    /// cgroup and, if it did, what its setup handshake brought: the error
    /// reported, and what is done with the half-created session.
    pub fn finish_session_setup(
        &self,
        join: Result<(), String>,
        handshake: Result<SetupHandshake, String>,
    ) -> (r: (Result<(), SandboxError>, SessionCleanup))
        ensures
            join matches Err(e) ==> (r.0 matches Err(SandboxError::SessionCreationFailed(m))
                && m@ == "failed to join session cgroup: "@ + e@ && r.1 == SessionCleanup::KillAndRemove),
            join is Ok ==> match handshake {
                Ok(SetupHandshake::Ready) => r.0 is Ok && r.1 == SessionCleanup::Keep,
                Ok(SetupHandshake::Failed(msg)) => r.0 matches Err(SandboxError::SessionCreationFailed(m))
                    && m@ == msg@ && r.1 == SessionCleanup::ReapAndRemove,
                Err(e) => r.0 matches Err(SandboxError::SessionCreationFailed(m))
                    && m@ == "setup handshake failed: "@ + e@ && r.1 == SessionCleanup::KillAndRemove,
            },
    {
        if let Err(e) = join {
            let mut out = chars_of("failed to join session cgroup: ");
            push_str(&mut out, e.as_str());
            return (
                Err(SandboxError::SessionCreationFailed(string_from_chars(out.as_slice()))),
                SessionCleanup::KillAndRemove,
            );
        }
        match handshake {
            Ok(SetupHandshake::Ready) => (Ok(()), SessionCleanup::Keep),
            Ok(SetupHandshake::Failed(msg)) => (
                Err(SandboxError::SessionCreationFailed(msg)),
                SessionCleanup::ReapAndRemove,
            ),
            Err(e) => {
                let mut out = chars_of("setup handshake failed: ");
                push_str(&mut out, e.as_str());
                (
                    Err(SandboxError::SessionCreationFailed(string_from_chars(out.as_slice()))),
                    SessionCleanup::KillAndRemove,
                )
            },
        }
    }
}

} // verus!
