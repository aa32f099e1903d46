//! The closed vocabulary of an AI plan, and the request sent to a planner.
//! A whole plan carries a floating-point confidence and lives outside the
//! verified library; its parts without one live here.

use vstd::prelude::*;
use crate::policy::types::RiskLevel;

verus! {

/// What the planner thinks a command is for.
#[derive(Debug, Clone, Copy, PartialEq, Eq, Structural)]
pub enum Intent {
    Navigation,
    FileRead,
    FileWrite,
    DirectoryCreate,
    RecursiveDelete,
    PermissionChange,
    OwnershipChange,
    PackageRemoval,
    Other,
}

/// How the planner suggests recovering from a command.
#[derive(Debug, Clone, Copy, PartialEq, Eq, Structural)]
pub enum RecoveryStrategy {
    RestorePreTransactionSnapshot,
    NoRecoveryNeeded,
    NotReversible,
}

/// A recovery strategy with its human-readable guidance.
#[derive(Debug, Clone, PartialEq)]
pub struct RecoveryRecommendation {
    pub strategy: RecoveryStrategy,
    pub description: String,
}

/// The effects the planner predicts.
#[derive(Debug, Clone, Copy, PartialEq, Eq, Structural)]
pub struct PredictedEffects {
    pub files_deleted_estimate: u32,
    pub directories_deleted_estimate: u32,
    pub escapes_sandbox: bool,
}

/// What is sent to a planner about one command.
#[derive(Debug, Clone)]
pub struct AiRequest {
    pub command_text: String,
    pub category: Option<&'static str>,
    pub risk_level: Option<RiskLevel>,
    pub policy_reasons: Vec<String>,
}

} // verus!
