//! Fleet support: agent topology and metrics, worker profiles and the
//! bookkeeping around workers.
pub mod artifacts;
pub mod collector;
pub mod executor;
pub mod manager;
pub mod observability;
pub mod profile;
pub mod scoring;
pub mod task_checks;
pub mod worker_runtime;
