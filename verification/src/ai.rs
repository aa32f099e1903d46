//! The advisory AI layer: the request sent to a planner, the prompt built
//! from it, the planner backends' settings, divergence findings, and DENY
//! explanations that always keep the canonical sentence beside any AI gloss.

pub mod schema;
pub mod backend;
pub mod deny_explanation;
pub mod divergence;
