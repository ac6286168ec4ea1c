//! A verified job queue and runner core.
//!
//! Clients submit named shell-style build jobs; a single background worker
//! claims pending jobs one at a time in submission order, executes each one
//! through an external command-runner tool, and records a terminal status.
//! This crate holds the verified heart of that system: the job record model,
//! the in-memory store with its ordering and pagination contract, the status
//! state machine, the scheduler that drives the runner loop, the bookkeeping
//! for log and artifact paths, and the status-change notification model.
//! Process spawning, HTTP serving and the clock stay at the edges; the one
//! clock read comes in through a single trusted wrapper.

pub mod clock;
pub mod digits;
pub mod model;
pub mod notify;
pub mod recipes;
pub mod runner;
pub mod service;
pub mod store;
pub mod text;
pub mod view;

pub use model::Job;
pub use model::TaskStatus;
pub use model::Timestamp;
pub use service::Scheduler;
pub use store::JobStore;
