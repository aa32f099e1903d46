//! Preflight: aggregates the outcome of every primitive's self-test into one
//! capability report. Running the self-tests (forks, namespaces, mounts) is
//! the host's job; this module decides what the report says about them.

use vstd::prelude::*;
use crate::sandbox::backend::{CapabilityReport, PrimitiveStatus};
use crate::text::{chars_of, push_str, string_from_chars};

verus! {

/// Runs the aggregation of the preflight self-tests.
pub struct PreflightCapabilityChecker;

/// The outcome of each self-test that the host ran.
pub struct ProbeOutcomes {
    pub user_namespaces: PrimitiveStatus,
    pub mount_namespaces: PrimitiveStatus,
    pub pid_namespaces: PrimitiveStatus,
    pub seccomp: PrimitiveStatus,
    pub cgroups_v2: PrimitiveStatus,
    pub landlock: PrimitiveStatus,
    pub openat2: PrimitiveStatus,
}

/// The status recorded for the OverlayFS layer model, which has no
/// self-test yet.
pub open spec fn overlayfs_not_probed() -> Seq<char> {
    "not yet probed — OverlayFS self-test lands with the layer model (Build order phase 3)"@
}

/// The degradations a report lists: Landlock missing, an `openat2`
/// fallback, a simulation-backend fallback.
pub open spec fn degradations_of(landlock: PrimitiveStatus, openat2: PrimitiveStatus, overlayfs: PrimitiveStatus) -> Seq<Seq<char>> {
    (if landlock is Okay { Seq::empty() } else { seq!["landlock_unavailable"@] })
    + (match openat2 { PrimitiveStatus::Fallback { using, .. } => seq!["openat2_fallback:"@ + using@], _ => Seq::empty() })
    + (match overlayfs { PrimitiveStatus::Fallback { using, .. } => seq!["simulation_backend_fallback:"@ + using@], _ => Seq::empty() })
}

impl PreflightCapabilityChecker {
    pub fn new() -> (c: Self) {
        PreflightCapabilityChecker
    }

    /// Builds the capability report from the self-test outcomes: every
    /// probe's status is kept as it came, OverlayFS is reported as not yet
    /// probed, and the degradations are listed.
    pub fn report_from(&self, probes: ProbeOutcomes) -> (r: CapabilityReport)
        ensures
            r.user_namespaces == probes.user_namespaces,
            r.mount_namespaces == probes.mount_namespaces,
            r.pid_namespaces == probes.pid_namespaces,
            r.seccomp == probes.seccomp,
            r.cgroups_v2 == probes.cgroups_v2,
            r.landlock == probes.landlock,
            r.openat2 == probes.openat2,
            r.overlayfs matches PrimitiveStatus::Unavailable { reason } && reason@ == overlayfs_not_probed(),
            r.degradations@.map_values(|d: String| d@) == degradations_of(probes.landlock, probes.openat2, r.overlayfs),
    {
        let overlayfs = PrimitiveStatus::Unavailable {
            reason: "not yet probed — OverlayFS self-test lands with the layer model (Build order phase 3)".to_owned(),
        };
        let mut degradations: Vec<String> = Vec::new();
        assert(degradations@.map_values(|d: String| d@) =~= Seq::<Seq<char>>::empty());
        if !probes.landlock.is_ok() {
            degradations.push("landlock_unavailable".to_owned());
        }
        let ghost d1 = degradations@.map_values(|d: String| d@);
        assert(d1 =~= (if probes.landlock is Okay { Seq::empty() } else { seq!["landlock_unavailable"@] }));
        match &probes.openat2 {
            PrimitiveStatus::Fallback { using, .. } => {
                let mut text = chars_of("openat2_fallback:");
                push_str(&mut text, using.as_str());
                degradations.push(string_from_chars(text.as_slice()));
            },
            _ => {},
        }
        let ghost d2 = degradations@.map_values(|d: String| d@);
        assert(d2 =~= d1 + (match probes.openat2 { PrimitiveStatus::Fallback { using, .. } => seq!["openat2_fallback:"@ + using@], _ => Seq::empty() }));
        match &overlayfs {
            PrimitiveStatus::Fallback { using, .. } => {
                let mut text = chars_of("simulation_backend_fallback:");
                push_str(&mut text, using.as_str());
                degradations.push(string_from_chars(text.as_slice()));
            },
            _ => {},
        }
        let ghost d3 = degradations@.map_values(|d: String| d@);
        assert(d3 =~= d2 + (match overlayfs { PrimitiveStatus::Fallback { using, .. } => seq!["simulation_backend_fallback:"@ + using@], _ => Seq::empty() }));
        CapabilityReport {
            user_namespaces: probes.user_namespaces,
            mount_namespaces: probes.mount_namespaces,
            pid_namespaces: probes.pid_namespaces,
            seccomp: probes.seccomp,
            cgroups_v2: probes.cgroups_v2,
            landlock: probes.landlock,
            overlayfs,
            openat2: probes.openat2,
            degradations,
        }
    }
}

} // verus!
