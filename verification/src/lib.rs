//! Deadline control for autonomous agents: budgets, checkpoints and recovery of tasks,
//! the temporal policy that a tick answers with, and one-shot action leases.
//!
//! Times are exact spans of nanoseconds, and numbers that callers supply are taken to
//! the nearest billionth. The clock is injected, so that the same policy can be
//! exercised deterministically.

pub mod advice;
pub mod clock;
pub mod decimal;
pub mod duration;
pub mod enforcement;
pub mod enforcement_laws;
pub mod error;
pub mod history;
pub mod interface_laws;
pub mod laws;
pub mod lifecycle;
pub mod manager;
pub mod metadata;
pub mod names;
pub mod notation_laws;
pub mod number;
pub mod plan;
pub mod plan_laws;
pub mod policy;
pub mod policy_laws;
pub mod recovery;
pub mod recovery_laws;
pub mod registry;
pub mod request_laws;
pub mod reservations;
pub mod rules;
pub mod schedule;
pub mod session;
pub mod session_laws;
pub mod store;
pub mod task;
pub mod task_laws;
pub mod text;

pub use clock::{Clock, ManualClock, MonotonicClock};
pub use duration::Duration;
pub use error::TaskError;
pub use manager::TaskManager;
pub use metadata::Metadata;
pub use number::{Amount, Number};
pub use schedule::{Mode, Schedule, SchedulePhase};
pub use store::{MemoryStore, SnapshotStore};
pub use task::{
    AdjustTaskOutcome, AdjustTaskRequest, CheckpointOutcome, CheckpointRecord, CheckpointRequest,
    FinishTaskOutcome, FinishTaskRequest, PersistedState, PersistedTask, StartTaskOutcome,
    StartTaskRequest, TaskStatus, TaskTiming, TaskView, TickOutcome, TickRequest,
};
