//! The policy layer: the vocabulary of decisions, the support-tier table,
//! the containment rules (the only source of a Deny), risk classification,
//! and the engine that applies them in a fixed order.

pub mod types;
pub mod risk;
pub mod containment;
pub mod support_tiers;
pub mod engine;
