use safeshell::policy::types::{Category, ReasonCode, RiskLevel, SupportTier};

const ALL: [ReasonCode; 9] = [
    ReasonCode::DenyHostPathAccess,
    ReasonCode::DenySandboxEscapeAttempt,
    ReasonCode::DenyHostProcessManipulation,
    ReasonCode::DenySandboxWeakening,
    ReasonCode::DenyRequiresHostPrivilege,
    ReasonCode::DenyUnsimulatable,
    ReasonCode::DenyNoRecoveryGuarantee,
    ReasonCode::DenyCapabilityUnavailable,
    ReasonCode::DenyShellInvocation,
];

#[test]
fn every_reason_code_round_trips_through_its_display_string() {
    for code in ALL {
        assert_eq!(ReasonCode::from_code_str(code.as_code()), Some(code));
    }
    assert_eq!(ReasonCode::from_code_str("NOT_A_REAL_CODE"), None);
}

#[test]
fn risk_levels_escalate_one_step_and_saturate() {
    assert_eq!(RiskLevel::Low.escalate_one_level(), RiskLevel::Medium);
    assert_eq!(RiskLevel::Medium.escalate_one_level(), RiskLevel::High);
    assert_eq!(RiskLevel::High.escalate_one_level(), RiskLevel::Critical);
    assert_eq!(RiskLevel::Critical.escalate_one_level(), RiskLevel::Critical);
}

#[test]
fn display_names_are_lower_case() {
    assert_eq!(Category::DangerousContainable.as_str(), "dangerous_containable");
    assert_eq!(RiskLevel::High.as_str(), "high");
    assert_eq!(SupportTier::PartiallySupported.as_str(), "partially_supported");
    assert_eq!(ReasonCode::DenyShellInvocation.as_code(), "DENY_SHELL_INVOCATION");
}

#[test]
fn canonical_texts_are_distinct_and_nonempty() {
    for (i, a) in ALL.iter().enumerate() {
        assert!(!a.canonical_text().is_empty());
        for b in ALL.iter().skip(i + 1) {
            assert_ne!(a.canonical_text(), b.canonical_text());
        }
    }
}
