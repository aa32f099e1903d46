//! Core policy vocabulary: categories, verdicts, risk levels, support tiers,
//! deny reason codes, and the decision record the engine produces.

use vstd::prelude::*;
use crate::text::str_eq;

verus! {

/// How a command is categorised once evaluated.
#[derive(Debug, Clone, Copy, PartialEq, Eq, Structural)]
pub enum Category {
    Safe,
    DangerousContainable,
    UnsafeToContain,
}

impl Category {
    /// The lower-case display name.
    pub fn as_str(self) -> (s: &'static str)
        ensures
            s@ == self.name(),
    {
        match self {
            Category::Safe => "safe",
            Category::DangerousContainable => "dangerous_containable",
            Category::UnsafeToContain => "unsafe_to_contain",
        }
    }

    /// The display name of each category.
    pub open spec fn name(self) -> Seq<char> {
        match self {
            Category::Safe => "safe"@,
            Category::DangerousContainable => "dangerous_containable"@,
            Category::UnsafeToContain => "unsafe_to_contain"@,
        }
    }
}

/// The engine's answer for a command.
#[derive(Debug, Clone, Copy, PartialEq, Eq, Structural)]
pub enum Verdict {
    Allow,
    RequireApproval,
    Deny,
    RejectUnsupported,
}

/// How risky an allowed command is, from `Low` to `Critical`.
#[derive(Debug, Clone, Copy, PartialEq, Eq, PartialOrd, Ord, Hash, Structural)]
pub enum RiskLevel {
    Low,
    Medium,
    High,
    Critical,
}

impl RiskLevel {
    /// The position of a level in the order `Low < Medium < High < Critical`.
    pub open spec fn rank(self) -> int {
        match self {
            RiskLevel::Low => 0,
            RiskLevel::Medium => 1,
            RiskLevel::High => 2,
            RiskLevel::Critical => 3,
        }
    }

    /// The next level up, saturating at `Critical`.
    pub open spec fn one_up(self) -> RiskLevel {
        match self {
            RiskLevel::Low => RiskLevel::Medium,
            RiskLevel::Medium => RiskLevel::High,
            RiskLevel::High | RiskLevel::Critical => RiskLevel::Critical,
        }
    }

    /// `rank` as a machine integer.
    pub fn level_rank(self) -> (r: u8)
        ensures
            r as int == self.rank(),
    {
        match self {
            RiskLevel::Low => 0,
            RiskLevel::Medium => 1,
            RiskLevel::High => 2,
            RiskLevel::Critical => 3,
        }
    }

    /// Raises the level by one step; `High` and `Critical` both become
    /// `Critical`.
    pub fn escalate_one_level(self) -> (r: Self)
        ensures
            r == self.one_up(),
            r.rank() >= self.rank(),
            r.rank() <= self.rank() + 1,
            r.rank() == self.rank() <==> self == RiskLevel::Critical,
    {
        match self {
            RiskLevel::Low => RiskLevel::Medium,
            RiskLevel::Medium => RiskLevel::High,
            RiskLevel::High | RiskLevel::Critical => RiskLevel::Critical,
        }
    }

    /// The lower-case display name.
    pub fn as_str(self) -> (s: &'static str)
        ensures
            s@ == self.name(),
    {
        match self {
            RiskLevel::Low => "low",
            RiskLevel::Medium => "medium",
            RiskLevel::High => "high",
            RiskLevel::Critical => "critical",
        }
    }

    /// The display name of each level.
    pub open spec fn name(self) -> Seq<char> {
        match self {
            RiskLevel::Low => "low"@,
            RiskLevel::Medium => "medium"@,
            RiskLevel::High => "high"@,
            RiskLevel::Critical => "critical"@,
        }
    }
}

/// How completely SafeShell implements a command.
#[derive(Debug, Clone, Copy, PartialEq, Eq, Structural)]
pub enum SupportTier {
    Supported,
    PartiallySupported,
    Unsupported,
    Denied,
}

impl SupportTier {
    /// The lower-case display name.
    pub fn as_str(self) -> (s: &'static str)
        ensures
            s@ == self.name(),
    {
        match self {
            SupportTier::Supported => "supported",
            SupportTier::PartiallySupported => "partially_supported",
            SupportTier::Unsupported => "unsupported",
            SupportTier::Denied => "denied",
        }
    }

    /// The display name of each tier.
    pub open spec fn name(self) -> Seq<char> {
        match self {
            SupportTier::Supported => "supported"@,
            SupportTier::PartiallySupported => "partially_supported"@,
            SupportTier::Unsupported => "unsupported"@,
            SupportTier::Denied => "denied"@,
        }
    }
}

/// Why a command was denied.
#[derive(Debug, Clone, Copy, PartialEq, Eq, Structural)]
pub enum ReasonCode {
    DenyHostPathAccess,
    DenySandboxEscapeAttempt,
    DenyHostProcessManipulation,
    DenySandboxWeakening,
    DenyRequiresHostPrivilege,
    DenyUnsimulatable,
    DenyNoRecoveryGuarantee,
    DenyCapabilityUnavailable,
    DenyShellInvocation,
}

/// The stable upper-case code of each reason.
pub open spec fn code_of(c: ReasonCode) -> Seq<char> {
    match c {
        ReasonCode::DenyHostPathAccess => "DENY_HOST_PATH_ACCESS"@,
        ReasonCode::DenySandboxEscapeAttempt => "DENY_SANDBOX_ESCAPE_ATTEMPT"@,
        ReasonCode::DenyHostProcessManipulation => "DENY_HOST_PROCESS_MANIPULATION"@,
        ReasonCode::DenySandboxWeakening => "DENY_SANDBOX_WEAKENING"@,
        ReasonCode::DenyRequiresHostPrivilege => "DENY_REQUIRES_HOST_PRIVILEGE"@,
        ReasonCode::DenyUnsimulatable => "DENY_UNSIMULATABLE"@,
        ReasonCode::DenyNoRecoveryGuarantee => "DENY_NO_RECOVERY_GUARANTEE"@,
        ReasonCode::DenyCapabilityUnavailable => "DENY_CAPABILITY_UNAVAILABLE"@,
        ReasonCode::DenyShellInvocation => "DENY_SHELL_INVOCATION"@,
    }
}

/// The reason whose code is `s`, if any.
pub open spec fn reason_for_code(s: Seq<char>) -> Option<ReasonCode> {
    if s == "DENY_HOST_PATH_ACCESS"@ {
        Some(ReasonCode::DenyHostPathAccess)
    } else if s == "DENY_SANDBOX_ESCAPE_ATTEMPT"@ {
        Some(ReasonCode::DenySandboxEscapeAttempt)
    } else if s == "DENY_HOST_PROCESS_MANIPULATION"@ {
        Some(ReasonCode::DenyHostProcessManipulation)
    } else if s == "DENY_SANDBOX_WEAKENING"@ {
        Some(ReasonCode::DenySandboxWeakening)
    } else if s == "DENY_REQUIRES_HOST_PRIVILEGE"@ {
        Some(ReasonCode::DenyRequiresHostPrivilege)
    } else if s == "DENY_UNSIMULATABLE"@ {
        Some(ReasonCode::DenyUnsimulatable)
    } else if s == "DENY_NO_RECOVERY_GUARANTEE"@ {
        Some(ReasonCode::DenyNoRecoveryGuarantee)
    } else if s == "DENY_CAPABILITY_UNAVAILABLE"@ {
        Some(ReasonCode::DenyCapabilityUnavailable)
    } else if s == "DENY_SHELL_INVOCATION"@ {
        Some(ReasonCode::DenyShellInvocation)
    } else {
        None
    }
}

/// The fixed user-facing sentence of each reason.
pub open spec fn canonical_text_of(c: ReasonCode) -> Seq<char> {
    match c {
        ReasonCode::DenyHostPathAccess => "This operation names or would resolve to a path outside the SafeShell environment."@,
        ReasonCode::DenySandboxEscapeAttempt => "This operation attempts to escape the SafeShell environment's namespace or mount boundary."@,
        ReasonCode::DenyHostProcessManipulation => "This operation targets a process outside the SafeShell environment's process namespace."@,
        ReasonCode::DenySandboxWeakening => "This operation would modify or disable a security control that SafeShell's containment guarantee depends on."@,
        ReasonCode::DenyRequiresHostPrivilege => "This operation requires a host capability SafeShell cannot safely provide."@,
        ReasonCode::DenyUnsimulatable => "This operation is outside SafeShell's supported execution model and cannot be safely simulated or contained."@,
        ReasonCode::DenyNoRecoveryGuarantee => "SafeShell cannot provide the required isolation or recovery guarantee for this operation in the current configuration."@,
        ReasonCode::DenyCapabilityUnavailable => "A required security capability is unavailable in this session."@,
        ReasonCode::DenyShellInvocation => "This operation attempts to invoke a general-purpose shell or interpreter, which SafeShell does not provide."@,
    }
}

impl ReasonCode {
    /// The fixed sentence shown to the user for this reason.
    pub fn canonical_text(self) -> (s: &'static str)
        ensures
            s@ == canonical_text_of(self),
            s@.len() > 0,
    {
        proof {
            lemma_canonical_text_nonempty(self);
        }
        match self {
            ReasonCode::DenyHostPathAccess => "This operation names or would resolve to a path outside the SafeShell environment.",
            ReasonCode::DenySandboxEscapeAttempt => "This operation attempts to escape the SafeShell environment's namespace or mount boundary.",
            ReasonCode::DenyHostProcessManipulation => "This operation targets a process outside the SafeShell environment's process namespace.",
            ReasonCode::DenySandboxWeakening => "This operation would modify or disable a security control that SafeShell's containment guarantee depends on.",
            ReasonCode::DenyRequiresHostPrivilege => "This operation requires a host capability SafeShell cannot safely provide.",
            ReasonCode::DenyUnsimulatable => "This operation is outside SafeShell's supported execution model and cannot be safely simulated or contained.",
            ReasonCode::DenyNoRecoveryGuarantee => "SafeShell cannot provide the required isolation or recovery guarantee for this operation in the current configuration.",
            ReasonCode::DenyCapabilityUnavailable => "A required security capability is unavailable in this session.",
            ReasonCode::DenyShellInvocation => "This operation attempts to invoke a general-purpose shell or interpreter, which SafeShell does not provide.",
        }
    }

    /// The stable upper-case code, e.g. `DENY_SHELL_INVOCATION`.
    pub fn as_code(self) -> (s: &'static str)
        ensures
            s@ == code_of(self),
    {
        match self {
            ReasonCode::DenyHostPathAccess => "DENY_HOST_PATH_ACCESS",
            ReasonCode::DenySandboxEscapeAttempt => "DENY_SANDBOX_ESCAPE_ATTEMPT",
            ReasonCode::DenyHostProcessManipulation => "DENY_HOST_PROCESS_MANIPULATION",
            ReasonCode::DenySandboxWeakening => "DENY_SANDBOX_WEAKENING",
            ReasonCode::DenyRequiresHostPrivilege => "DENY_REQUIRES_HOST_PRIVILEGE",
            ReasonCode::DenyUnsimulatable => "DENY_UNSIMULATABLE",
            ReasonCode::DenyNoRecoveryGuarantee => "DENY_NO_RECOVERY_GUARANTEE",
            ReasonCode::DenyCapabilityUnavailable => "DENY_CAPABILITY_UNAVAILABLE",
            ReasonCode::DenyShellInvocation => "DENY_SHELL_INVOCATION",
        }
    }

    /// The reason whose code is `s`, or `None` for any other string.
    pub fn from_code_str(s: &str) -> (r: Option<Self>)
        ensures
            r == reason_for_code(s@),
    {
        if str_eq(s, "DENY_HOST_PATH_ACCESS") {
            Some(ReasonCode::DenyHostPathAccess)
        } else if str_eq(s, "DENY_SANDBOX_ESCAPE_ATTEMPT") {
            Some(ReasonCode::DenySandboxEscapeAttempt)
        } else if str_eq(s, "DENY_HOST_PROCESS_MANIPULATION") {
            Some(ReasonCode::DenyHostProcessManipulation)
        } else if str_eq(s, "DENY_SANDBOX_WEAKENING") {
            Some(ReasonCode::DenySandboxWeakening)
        } else if str_eq(s, "DENY_REQUIRES_HOST_PRIVILEGE") {
            Some(ReasonCode::DenyRequiresHostPrivilege)
        } else if str_eq(s, "DENY_UNSIMULATABLE") {
            Some(ReasonCode::DenyUnsimulatable)
        } else if str_eq(s, "DENY_NO_RECOVERY_GUARANTEE") {
            Some(ReasonCode::DenyNoRecoveryGuarantee)
        } else if str_eq(s, "DENY_CAPABILITY_UNAVAILABLE") {
            Some(ReasonCode::DenyCapabilityUnavailable)
        } else if str_eq(s, "DENY_SHELL_INVOCATION") {
            Some(ReasonCode::DenyShellInvocation)
        } else {
            None
        }
    }
}

/// Every reason's canonical sentence is non-empty.
pub proof fn lemma_canonical_text_nonempty(c: ReasonCode)
    ensures
        canonical_text_of(c).len() > 0,
{
    reveal_strlit("This operation names or would resolve to a path outside the SafeShell environment.");
    reveal_strlit("This operation attempts to escape the SafeShell environment's namespace or mount boundary.");
    reveal_strlit("This operation targets a process outside the SafeShell environment's process namespace.");
    reveal_strlit("This operation would modify or disable a security control that SafeShell's containment guarantee depends on.");
    reveal_strlit("This operation requires a host capability SafeShell cannot safely provide.");
    reveal_strlit("This operation is outside SafeShell's supported execution model and cannot be safely simulated or contained.");
    reveal_strlit("SafeShell cannot provide the required isolation or recovery guarantee for this operation in the current configuration.");
    reveal_strlit("A required security capability is unavailable in this session.");
    reveal_strlit("This operation attempts to invoke a general-purpose shell or interpreter, which SafeShell does not provide.");
}

/// Distinct reason codes have distinct canonical sentences.
pub proof fn lemma_canonical_text_distinct(a: ReasonCode, b: ReasonCode)
    ensures
        a != b ==> canonical_text_of(a) != canonical_text_of(b),
{
    if a != b {
        reveal_strlit("This operation names or would resolve to a path outside the SafeShell environment.");
        reveal_strlit("This operation attempts to escape the SafeShell environment's namespace or mount boundary.");
        reveal_strlit("This operation targets a process outside the SafeShell environment's process namespace.");
        reveal_strlit("This operation would modify or disable a security control that SafeShell's containment guarantee depends on.");
        reveal_strlit("This operation requires a host capability SafeShell cannot safely provide.");
        reveal_strlit("This operation is outside SafeShell's supported execution model and cannot be safely simulated or contained.");
        reveal_strlit("SafeShell cannot provide the required isolation or recovery guarantee for this operation in the current configuration.");
        reveal_strlit("A required security capability is unavailable in this session.");
        reveal_strlit("This operation attempts to invoke a general-purpose shell or interpreter, which SafeShell does not provide.");
        assert(canonical_text_of(ReasonCode::DenyHostPathAccess).len() == 82);
        assert(canonical_text_of(ReasonCode::DenySandboxEscapeAttempt).len() == 90);
        assert(canonical_text_of(ReasonCode::DenyHostProcessManipulation).len() == 87);
        assert(canonical_text_of(ReasonCode::DenySandboxWeakening).len() == 108);
        assert(canonical_text_of(ReasonCode::DenyRequiresHostPrivilege).len() == 74);
        assert(canonical_text_of(ReasonCode::DenyUnsimulatable).len() == 108);
        assert(canonical_text_of(ReasonCode::DenyNoRecoveryGuarantee).len() == 118);
        assert(canonical_text_of(ReasonCode::DenyCapabilityUnavailable).len() == 62);
        assert(canonical_text_of(ReasonCode::DenyShellInvocation).len() == 107);
        assert(canonical_text_of(ReasonCode::DenySandboxWeakening)[15] != canonical_text_of(
            ReasonCode::DenyUnsimulatable,
        )[15]);
    }
}

/// Reading back a reason's own code gives that reason: codes round-trip.
pub proof fn lemma_reason_code_round_trip(c: ReasonCode)
    ensures
        reason_for_code(code_of(c)) == Some(c),
{
    reveal_strlit("DENY_HOST_PATH_ACCESS");
    reveal_strlit("DENY_SANDBOX_ESCAPE_ATTEMPT");
    reveal_strlit("DENY_HOST_PROCESS_MANIPULATION");
    reveal_strlit("DENY_SANDBOX_WEAKENING");
    reveal_strlit("DENY_REQUIRES_HOST_PRIVILEGE");
    reveal_strlit("DENY_UNSIMULATABLE");
    reveal_strlit("DENY_NO_RECOVERY_GUARANTEE");
    reveal_strlit("DENY_CAPABILITY_UNAVAILABLE");
    reveal_strlit("DENY_SHELL_INVOCATION");
    match c {
        ReasonCode::DenyHostPathAccess => {
        },
        ReasonCode::DenySandboxEscapeAttempt => {
            assert("DENY_SANDBOX_ESCAPE_ATTEMPT"@.len() != "DENY_HOST_PATH_ACCESS"@.len());
            assert("DENY_SANDBOX_ESCAPE_ATTEMPT"@ != "DENY_HOST_PATH_ACCESS"@);
        },
        ReasonCode::DenyHostProcessManipulation => {
            assert("DENY_HOST_PROCESS_MANIPULATION"@.len() != "DENY_HOST_PATH_ACCESS"@.len());
            assert("DENY_HOST_PROCESS_MANIPULATION"@ != "DENY_HOST_PATH_ACCESS"@);
            assert("DENY_HOST_PROCESS_MANIPULATION"@.len() != "DENY_SANDBOX_ESCAPE_ATTEMPT"@.len());
            assert("DENY_HOST_PROCESS_MANIPULATION"@ != "DENY_SANDBOX_ESCAPE_ATTEMPT"@);
        },
        ReasonCode::DenySandboxWeakening => {
            assert("DENY_SANDBOX_WEAKENING"@.len() != "DENY_HOST_PATH_ACCESS"@.len());
            assert("DENY_SANDBOX_WEAKENING"@ != "DENY_HOST_PATH_ACCESS"@);
            assert("DENY_SANDBOX_WEAKENING"@.len() != "DENY_SANDBOX_ESCAPE_ATTEMPT"@.len());
            assert("DENY_SANDBOX_WEAKENING"@ != "DENY_SANDBOX_ESCAPE_ATTEMPT"@);
            assert("DENY_SANDBOX_WEAKENING"@.len() != "DENY_HOST_PROCESS_MANIPULATION"@.len());
            assert("DENY_SANDBOX_WEAKENING"@ != "DENY_HOST_PROCESS_MANIPULATION"@);
        },
        ReasonCode::DenyRequiresHostPrivilege => {
            assert("DENY_REQUIRES_HOST_PRIVILEGE"@.len() != "DENY_HOST_PATH_ACCESS"@.len());
            assert("DENY_REQUIRES_HOST_PRIVILEGE"@ != "DENY_HOST_PATH_ACCESS"@);
            assert("DENY_REQUIRES_HOST_PRIVILEGE"@.len() != "DENY_SANDBOX_ESCAPE_ATTEMPT"@.len());
            assert("DENY_REQUIRES_HOST_PRIVILEGE"@ != "DENY_SANDBOX_ESCAPE_ATTEMPT"@);
            assert("DENY_REQUIRES_HOST_PRIVILEGE"@.len() != "DENY_HOST_PROCESS_MANIPULATION"@.len());
            assert("DENY_REQUIRES_HOST_PRIVILEGE"@ != "DENY_HOST_PROCESS_MANIPULATION"@);
            assert("DENY_REQUIRES_HOST_PRIVILEGE"@.len() != "DENY_SANDBOX_WEAKENING"@.len());
            assert("DENY_REQUIRES_HOST_PRIVILEGE"@ != "DENY_SANDBOX_WEAKENING"@);
        },
        ReasonCode::DenyUnsimulatable => {
            assert("DENY_UNSIMULATABLE"@.len() != "DENY_HOST_PATH_ACCESS"@.len());
            assert("DENY_UNSIMULATABLE"@ != "DENY_HOST_PATH_ACCESS"@);
            assert("DENY_UNSIMULATABLE"@.len() != "DENY_SANDBOX_ESCAPE_ATTEMPT"@.len());
            assert("DENY_UNSIMULATABLE"@ != "DENY_SANDBOX_ESCAPE_ATTEMPT"@);
            assert("DENY_UNSIMULATABLE"@.len() != "DENY_HOST_PROCESS_MANIPULATION"@.len());
            assert("DENY_UNSIMULATABLE"@ != "DENY_HOST_PROCESS_MANIPULATION"@);
            assert("DENY_UNSIMULATABLE"@.len() != "DENY_SANDBOX_WEAKENING"@.len());
            assert("DENY_UNSIMULATABLE"@ != "DENY_SANDBOX_WEAKENING"@);
            assert("DENY_UNSIMULATABLE"@.len() != "DENY_REQUIRES_HOST_PRIVILEGE"@.len());
            assert("DENY_UNSIMULATABLE"@ != "DENY_REQUIRES_HOST_PRIVILEGE"@);
        },
        ReasonCode::DenyNoRecoveryGuarantee => {
            assert("DENY_NO_RECOVERY_GUARANTEE"@.len() != "DENY_HOST_PATH_ACCESS"@.len());
            assert("DENY_NO_RECOVERY_GUARANTEE"@ != "DENY_HOST_PATH_ACCESS"@);
            assert("DENY_NO_RECOVERY_GUARANTEE"@.len() != "DENY_SANDBOX_ESCAPE_ATTEMPT"@.len());
            assert("DENY_NO_RECOVERY_GUARANTEE"@ != "DENY_SANDBOX_ESCAPE_ATTEMPT"@);
            assert("DENY_NO_RECOVERY_GUARANTEE"@.len() != "DENY_HOST_PROCESS_MANIPULATION"@.len());
            assert("DENY_NO_RECOVERY_GUARANTEE"@ != "DENY_HOST_PROCESS_MANIPULATION"@);
            assert("DENY_NO_RECOVERY_GUARANTEE"@.len() != "DENY_SANDBOX_WEAKENING"@.len());
            assert("DENY_NO_RECOVERY_GUARANTEE"@ != "DENY_SANDBOX_WEAKENING"@);
            assert("DENY_NO_RECOVERY_GUARANTEE"@.len() != "DENY_REQUIRES_HOST_PRIVILEGE"@.len());
            assert("DENY_NO_RECOVERY_GUARANTEE"@ != "DENY_REQUIRES_HOST_PRIVILEGE"@);
            assert("DENY_NO_RECOVERY_GUARANTEE"@.len() != "DENY_UNSIMULATABLE"@.len());
            assert("DENY_NO_RECOVERY_GUARANTEE"@ != "DENY_UNSIMULATABLE"@);
        },
        ReasonCode::DenyCapabilityUnavailable => {
            assert("DENY_CAPABILITY_UNAVAILABLE"@.len() != "DENY_HOST_PATH_ACCESS"@.len());
            assert("DENY_CAPABILITY_UNAVAILABLE"@ != "DENY_HOST_PATH_ACCESS"@);
            assert("DENY_CAPABILITY_UNAVAILABLE"@[5] != "DENY_SANDBOX_ESCAPE_ATTEMPT"@[5]);
            assert("DENY_CAPABILITY_UNAVAILABLE"@ != "DENY_SANDBOX_ESCAPE_ATTEMPT"@);
            assert("DENY_CAPABILITY_UNAVAILABLE"@.len() != "DENY_HOST_PROCESS_MANIPULATION"@.len());
            assert("DENY_CAPABILITY_UNAVAILABLE"@ != "DENY_HOST_PROCESS_MANIPULATION"@);
            assert("DENY_CAPABILITY_UNAVAILABLE"@.len() != "DENY_SANDBOX_WEAKENING"@.len());
            assert("DENY_CAPABILITY_UNAVAILABLE"@ != "DENY_SANDBOX_WEAKENING"@);
            assert("DENY_CAPABILITY_UNAVAILABLE"@.len() != "DENY_REQUIRES_HOST_PRIVILEGE"@.len());
            assert("DENY_CAPABILITY_UNAVAILABLE"@ != "DENY_REQUIRES_HOST_PRIVILEGE"@);
            assert("DENY_CAPABILITY_UNAVAILABLE"@.len() != "DENY_UNSIMULATABLE"@.len());
            assert("DENY_CAPABILITY_UNAVAILABLE"@ != "DENY_UNSIMULATABLE"@);
            assert("DENY_CAPABILITY_UNAVAILABLE"@.len() != "DENY_NO_RECOVERY_GUARANTEE"@.len());
            assert("DENY_CAPABILITY_UNAVAILABLE"@ != "DENY_NO_RECOVERY_GUARANTEE"@);
        },
        ReasonCode::DenyShellInvocation => {
            assert("DENY_SHELL_INVOCATION"@[5] != "DENY_HOST_PATH_ACCESS"@[5]);
            assert("DENY_SHELL_INVOCATION"@ != "DENY_HOST_PATH_ACCESS"@);
            assert("DENY_SHELL_INVOCATION"@.len() != "DENY_SANDBOX_ESCAPE_ATTEMPT"@.len());
            assert("DENY_SHELL_INVOCATION"@ != "DENY_SANDBOX_ESCAPE_ATTEMPT"@);
            assert("DENY_SHELL_INVOCATION"@.len() != "DENY_HOST_PROCESS_MANIPULATION"@.len());
            assert("DENY_SHELL_INVOCATION"@ != "DENY_HOST_PROCESS_MANIPULATION"@);
            assert("DENY_SHELL_INVOCATION"@.len() != "DENY_SANDBOX_WEAKENING"@.len());
            assert("DENY_SHELL_INVOCATION"@ != "DENY_SANDBOX_WEAKENING"@);
            assert("DENY_SHELL_INVOCATION"@.len() != "DENY_REQUIRES_HOST_PRIVILEGE"@.len());
            assert("DENY_SHELL_INVOCATION"@ != "DENY_REQUIRES_HOST_PRIVILEGE"@);
            assert("DENY_SHELL_INVOCATION"@.len() != "DENY_UNSIMULATABLE"@.len());
            assert("DENY_SHELL_INVOCATION"@ != "DENY_UNSIMULATABLE"@);
            assert("DENY_SHELL_INVOCATION"@.len() != "DENY_NO_RECOVERY_GUARANTEE"@.len());
            assert("DENY_SHELL_INVOCATION"@ != "DENY_NO_RECOVERY_GUARANTEE"@);
            assert("DENY_SHELL_INVOCATION"@.len() != "DENY_CAPABILITY_UNAVAILABLE"@.len());
            assert("DENY_SHELL_INVOCATION"@ != "DENY_CAPABILITY_UNAVAILABLE"@);
        },
    }
}

/// The engine's decision about one command (or one pipeline).
#[derive(Debug)]
pub struct PolicyDecision {
    pub support_tier: SupportTier,
    pub verdict: Verdict,
    pub category: Option<Category>,
    pub risk_level: Option<RiskLevel>,
    pub reason_codes: Vec<ReasonCode>,
    pub reasons: Vec<String>,
}

/// A decision as a mathematical value.
pub struct DecisionView {
    pub support_tier: SupportTier,
    pub verdict: Verdict,
    pub category: Option<Category>,
    pub risk_level: Option<RiskLevel>,
    pub reason_codes: Seq<ReasonCode>,
    pub reasons: Seq<Seq<char>>,
}

impl PolicyDecision {
    pub open spec fn view(&self) -> DecisionView {
        DecisionView {
            support_tier: self.support_tier,
            verdict: self.verdict,
            category: self.category,
            risk_level: self.risk_level,
            reason_codes: self.reason_codes@,
            reasons: self.reasons@.map_values(|r: String| r@),
        }
    }

    /// Whether the command must pause for the user's approval.
    pub fn requires_approval(&self) -> (b: bool)
        ensures
            b == (self.verdict == Verdict::RequireApproval),
    {
        self.verdict == Verdict::RequireApproval
    }
}

impl Clone for PolicyDecision {
    fn clone(&self) -> (r: Self)
        ensures
            r@ == self@,
    {
        let mut codes: Vec<ReasonCode> = Vec::new();
        let mut i: usize = 0;
        while i < self.reason_codes.len()
            invariant
                i <= self.reason_codes@.len(),
                codes@ == self.reason_codes@.take(i as int),
            decreases self.reason_codes.len() - i,
        {
            codes.push(self.reason_codes[i]);
            i = i + 1;
            assert(codes@ =~= self.reason_codes@.take(i as int));
        }
        assert(self.reason_codes@.take(i as int) =~= self.reason_codes@);
        let mut reasons: Vec<String> = Vec::new();
        let mut j: usize = 0;
        while j < self.reasons.len()
            invariant
                j <= self.reasons@.len(),
                reasons@.len() == j,
                forall|k: int| 0 <= k < j ==> #[trigger] reasons@[k]@ == self.reasons@[k]@,
            decreases self.reasons.len() - j,
        {
            reasons.push(self.reasons[j].clone());
            j = j + 1;
        }
        let r = PolicyDecision {
            support_tier: self.support_tier,
            verdict: self.verdict,
            category: self.category,
            risk_level: self.risk_level,
            reason_codes: codes,
            reasons,
        };
        assert(r@.reasons =~= self@.reasons);
        r
    }
}

} // verus!
