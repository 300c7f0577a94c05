//! Batch orchestration for tree-migration jobs: a registry of dropped
//! configuration files, the derived per-item and application states, the
//! choice of jobs to dispatch, and the application of their terminal signals.

pub mod job;
pub mod lemmas;
pub mod orchestrator;
pub mod registry;
pub mod state;
