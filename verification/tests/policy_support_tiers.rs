use safeshell::policy::support_tiers::{parse_reason_code, SupportTierLoadError, SupportTierTable, TierSections};
use safeshell::policy::types::{ReasonCode, SupportTier};

fn strings(words: &[&str]) -> Vec<String> {
    words.iter().map(|w| w.to_string()).collect()
}

fn sample_sections() -> TierSections {
    TierSections {
        supported: strings(&["ls", "cd"]),
        partially_supported: strings(&["ps"]),
        divergences: vec![("ps".to_string(), "sandbox-local PIDs only".to_string())],
        unsupported: strings(&["awk"]),
        denied: strings(&["sh", "bash"]),
        denied_reason_code: "DENY_SHELL_INVOCATION".to_string(),
    }
}

#[test]
fn resolves_each_tier_correctly() {
    let table = SupportTierTable::from_sections(sample_sections(), "test").unwrap();
    assert_eq!(table.resolve("ls"), SupportTier::Supported);
    assert_eq!(table.resolve("ps"), SupportTier::PartiallySupported);
    assert_eq!(table.resolve("awk"), SupportTier::Unsupported);
    assert_eq!(table.resolve("sh"), SupportTier::Denied);
}

#[test]
fn unknown_command_defaults_to_unsupported() {
    let table = SupportTierTable::from_sections(sample_sections(), "test").unwrap();
    assert_eq!(table.resolve("totally-made-up-command"), SupportTier::Unsupported);
}

#[test]
fn divergence_is_available_for_partially_supported_commands() {
    let table = SupportTierTable::from_sections(sample_sections(), "test").unwrap();
    assert_eq!(table.divergence("ps"), Some("sandbox-local PIDs only"));
    assert_eq!(table.divergence("ls"), None);
}

#[test]
fn denied_reason_code_is_read_from_the_file() {
    let table = SupportTierTable::from_sections(sample_sections(), "test").unwrap();
    assert_eq!(table.denied_reason_code(), ReasonCode::DenyShellInvocation);
    assert!(table.known_denied_commands().contains(&"sh".to_string()));
    assert!(table.known_denied_commands().contains(&"bash".to_string()));
}

#[test]
fn duplicate_command_across_tiers_fails_to_load() {
    let sections = TierSections {
        supported: strings(&["ls"]),
        partially_supported: strings(&["ls"]),
        divergences: vec![],
        unsupported: vec![],
        denied: vec![],
        denied_reason_code: "DENY_SHELL_INVOCATION".to_string(),
    };
    let result = SupportTierTable::from_sections(sections, "test");
    assert!(matches!(result, Err(SupportTierLoadError::DuplicateCommand { .. })));
}

#[test]
fn unknown_denied_reason_code_fails_to_load() {
    let sections = TierSections {
        supported: vec![],
        partially_supported: vec![],
        divergences: vec![],
        unsupported: vec![],
        denied: strings(&["sh"]),
        denied_reason_code: "DENY_NONSENSE".to_string(),
    };
    let result = SupportTierTable::from_sections(sections, "test");
    assert!(matches!(result, Err(SupportTierLoadError::UnknownDeniedReasonCode { .. })));
}

#[test]
fn a_duplicate_names_both_tiers_and_the_file() {
    let sections = TierSections {
        supported: strings(&["ls"]),
        partially_supported: vec![],
        divergences: vec![],
        unsupported: vec![],
        denied: strings(&["ls"]),
        denied_reason_code: "DENY_SHELL_INVOCATION".to_string(),
    };
    match SupportTierTable::from_sections(sections, "policies.toml") {
        Err(SupportTierLoadError::DuplicateCommand { path, command, first, second }) => {
            assert_eq!(path, "policies.toml");
            assert_eq!(command, "ls");
            assert_eq!(first, "supported");
            assert_eq!(second, "denied");
        }
        _ => panic!("expected a duplicate-command error"),
    }
}

#[test]
fn reason_codes_parse_by_their_code_strings() {
    assert_eq!(parse_reason_code("DENY_UNSIMULATABLE"), Some(ReasonCode::DenyUnsimulatable));
    assert_eq!(parse_reason_code("deny_unsimulatable"), None);
}
