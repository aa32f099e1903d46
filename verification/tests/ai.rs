use safeshell::ai::backend::{
    build_prompt, skip_reason, NullBackend, SkipCause, OllamaBackend, RemoteBackend, OLLAMA_DEFAULT_TIMEOUT_MS, REMOTE_DEFAULT_TIMEOUT_MS,
};
use safeshell::ai::deny_explanation::{validate_ai_rendering, DenyExplanationError, GroundedDenyExplanation};
use safeshell::ai::divergence::{
    detect_affected_resources_divergence, detect_escapes_sandbox_divergence, DivergedField,
};
use safeshell::ai::schema::{AiRequest, PredictedEffects};
use safeshell::policy::types::{ReasonCode, RiskLevel};
use safeshell::simulation::diff::SimulationDiff;

#[test]
fn canonical_only_never_has_an_ai_rendering() {
    let explanation = GroundedDenyExplanation::canonical_only(ReasonCode::DenyShellInvocation);
    assert!(explanation.ai_rendering.is_none());
    assert_eq!(explanation.canonical_text, ReasonCode::DenyShellInvocation.canonical_text());
}

#[test]
fn validated_ai_rendering_still_carries_the_canonical_text_alongside() {
    let rendered = validate_ai_rendering("This blocks shell invocation.").unwrap();
    let explanation =
        GroundedDenyExplanation::with_validated_ai_rendering(ReasonCode::DenyShellInvocation, rendered);
    assert!(explanation.ai_rendering.is_some());
    assert_eq!(
        explanation.canonical_text,
        ReasonCode::DenyShellInvocation.canonical_text(),
        "the canonical text must never be displaced by an AI rendering"
    );
}

#[test]
fn empty_ai_rendering_is_rejected() {
    assert_eq!(validate_ai_rendering("   "), Err(DenyExplanationError::Empty));
}

#[test]
fn an_overlong_ai_rendering_is_rejected() {
    let too_long = "x".repeat(2001);
    assert_eq!(validate_ai_rendering(&too_long), Err(DenyExplanationError::TooLong));
}

#[test]
fn every_reason_code_has_nonempty_canonical_text() {
    for code in [
        ReasonCode::DenyHostPathAccess,
        ReasonCode::DenySandboxEscapeAttempt,
        ReasonCode::DenyHostProcessManipulation,
        ReasonCode::DenySandboxWeakening,
        ReasonCode::DenyRequiresHostPrivilege,
        ReasonCode::DenyUnsimulatable,
        ReasonCode::DenyNoRecoveryGuarantee,
        ReasonCode::DenyCapabilityUnavailable,
        ReasonCode::DenyShellInvocation,
    ] {
        let explanation = GroundedDenyExplanation::canonical_only(code);
        assert!(!explanation.canonical_text.is_empty());
    }
}

#[test]
fn a_rendering_is_trimmed_and_the_limit_counts_bytes() {
    assert_eq!(validate_ai_rendering("  gloss \n").unwrap(), "gloss");
    assert_eq!(validate_ai_rendering(&"x".repeat(2000)).unwrap().len(), 2000);
    // 1000 two-byte characters fit exactly; one more does not.
    assert!(validate_ai_rendering(&"\u{e9}".repeat(1000)).is_ok());
    assert_eq!(validate_ai_rendering(&"\u{e9}".repeat(1001)), Err(DenyExplanationError::TooLong));
}

fn sample_request() -> AiRequest {
    AiRequest {
        command_text: "mkdir project".to_string(),
        category: Some("safe"),
        risk_level: None,
        policy_reasons: vec![],
    }
}

#[test]
fn build_prompt_embeds_the_command_and_every_closed_enum_value() {
    let prompt = build_prompt(&sample_request());
    assert!(prompt.contains("mkdir project"));
    for intent in [
        "navigation",
        "file_read",
        "file_write",
        "directory_create",
        "recursive_delete",
        "permission_change",
        "ownership_change",
        "package_removal",
        "other",
    ] {
        assert!(prompt.contains(intent), "missing intent value: {intent}");
    }
    for risk in ["low", "medium", "high", "critical"] {
        assert!(prompt.contains(risk), "missing risk_level value: {risk}");
    }
    for strategy in ["restore_pre_transaction_snapshot", "no_recovery_needed", "not_reversible"] {
        assert!(prompt.contains(strategy), "missing recovery strategy: {strategy}");
    }
}

#[test]
fn build_prompt_fills_the_policy_fields() {
    let prompt = build_prompt(&sample_request());
    assert!(prompt.contains("\nCommand: mkdir project\nPolicy category: safe\nPolicy risk level: none\nPolicy reasons: none\n"));
    let request = AiRequest {
        command_text: "rm -rf /project".to_string(),
        category: None,
        risk_level: Some(RiskLevel::High),
        policy_reasons: vec!["recursive delete".to_string(), "tree-wide".to_string()],
    };
    let prompt = build_prompt(&request);
    assert!(prompt.contains("Policy category: unknown\nPolicy risk level: High\nPolicy reasons: recursive delete; tree-wide\n"));
    assert!(prompt.ends_with("Output only the JSON object."));
}

#[test]
fn backends_keep_their_settings() {
    let remote = RemoteBackend::new("http://planner".to_string());
    assert_eq!(remote.endpoint(), "http://planner");
    assert_eq!(remote.api_key(), None);
    assert_eq!(remote.timeout_ms(), REMOTE_DEFAULT_TIMEOUT_MS);
    let remote = remote.with_api_key("k-123".to_string()).with_timeout(50);
    assert_eq!(remote.api_key(), Some("k-123"));
    assert_eq!(remote.timeout_ms(), 50);

    let ollama = OllamaBackend::new("http://localhost:11434//".to_string(), "llama3.1".to_string());
    assert_eq!(ollama.model(), "llama3.1");
    assert_eq!(ollama.timeout_ms(), OLLAMA_DEFAULT_TIMEOUT_MS);
    assert_eq!(ollama.generate_url(), "http://localhost:11434/api/generate");
    assert_eq!(ollama.with_timeout(50).timeout_ms(), 50);
}

fn effects(escapes_sandbox: bool) -> PredictedEffects {
    PredictedEffects { files_deleted_estimate: 0, directories_deleted_estimate: 0, escapes_sandbox }
}

fn resources(paths: &[&str]) -> Vec<String> {
    paths.iter().map(|s| s.to_string()).collect()
}

#[test]
fn no_divergence_when_ai_correctly_claims_containment() {
    assert!(detect_escapes_sandbox_divergence(&effects(false)).is_none());
}

#[test]
fn divergence_when_ai_claims_a_sandbox_escape_policy_already_ruled_out() {
    let finding = detect_escapes_sandbox_divergence(&effects(true)).unwrap();
    assert_eq!(finding.field, DivergedField::EscapesSandbox);
}

#[test]
fn no_affected_resources_divergence_on_overlap() {
    let diff = SimulationDiff { directories_created: vec!["project".to_string()], ..Default::default() };
    assert!(detect_affected_resources_divergence(&resources(&["project"]), &diff).is_none());
}

#[test]
fn no_divergence_when_both_are_empty() {
    let diff = SimulationDiff::default();
    assert!(detect_affected_resources_divergence(&resources(&[]), &diff).is_none());
}

#[test]
fn divergence_when_ai_and_diff_share_no_paths_at_all() {
    let diff = SimulationDiff { directories_created: vec!["project".to_string()], ..Default::default() };
    let finding =
        detect_affected_resources_divergence(&resources(&["totally/wrong/path"]), &diff).unwrap();
    assert_eq!(finding.field, DivergedField::AffectedResources);
}

#[test]
fn divergence_findings_render_both_sides() {
    let finding = detect_escapes_sandbox_divergence(&effects(true)).unwrap();
    assert_eq!(finding.ai_claimed, "true");
    assert_eq!(finding.ground_truth, "false");
    let diff = SimulationDiff {
        files_created: vec!["a".to_string()],
        files_modified: vec!["a".to_string()],
        directories_created: vec!["d".to_string()],
        ..Default::default()
    };
    let finding = detect_affected_resources_divergence(&resources(&["x"]), &diff).unwrap();
    assert_eq!(finding.ai_claimed, "[\"x\"]");
    assert_eq!(finding.ground_truth, "[\"a\", \"d\"]");
}

#[test]
fn skipped_analyses_say_why() {
    assert_eq!(skip_reason(&SkipCause::Disabled), "AI disabled (NullBackend)");
    assert_eq!(
        skip_reason(&SkipCause::StructurallySafe),
        "command structurally cannot require approval (policy: Allow/Safe)"
    );
    assert_eq!(skip_reason(&SkipCause::TimedOut), "AI call timed out");
    assert_eq!(skip_reason(&SkipCause::CallFailed("connection refused".into())), "AI call failed: connection refused");
    assert_eq!(
        skip_reason(&SkipCause::Invalid("missing field `intent`".into())),
        "AI response failed validation: missing field `intent`"
    );
    assert_eq!(NullBackend.name(), "NullBackend");
    assert_eq!(RemoteBackend::new("http://x".into()).name(), "RemoteBackend");
    assert_eq!(OllamaBackend::new("http://x".into(), "m".into()).name(), "OllamaBackend");
}
