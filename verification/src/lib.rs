//! A task-graph orchestrator core: a directed acyclic mesh of tasks with
//! dependency-aware readiness, a priority scheduler, a bounded executor state
//! machine, retry and circuit-breaker policies, and a snapshot/checkpoint
//! engine with a verified byte codec.

pub mod breaker;
pub mod codec;
pub mod config;
pub mod errors;
pub mod executor;
pub mod graph;
pub mod mesh;
pub mod orchestrator;
pub mod retry;
pub mod scheduler;
pub mod snapshot;
pub mod store;
pub mod strutil;
pub mod trusted;
pub mod types;
pub mod wire;
pub mod workflow;

