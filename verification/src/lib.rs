//! SafeShell: the deterministic core of a transactional shell sandbox. Every
//! command line is parsed by a restricted grammar, classified by support
//! tier, checked against containment rules, and risk-rated, before anything
//! runs.

pub mod text;
pub mod order;
pub mod numbers;
pub mod ids;
pub mod policy;
pub mod parser;
pub mod fs_abstraction;
pub mod sandbox;
pub mod ai;
pub mod simulation;
pub mod audit;
pub mod executor;
pub mod handlers;
pub mod orchestrator;
pub mod rollback;
pub mod mock_packages;
pub mod session;
pub mod ipc;
