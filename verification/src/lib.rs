//! A cooperative task scheduler for an embedded scripting engine.
//!
//! The scheduler multiplexes three categories of pending work — instant,
//! deferred, and asynchronously-delayed tasks — into a single, strictly
//! ordered resumption protocol. The host driver repeatedly asks for the
//! next unit of work; script continuations are executed by the embedder,
//! which reports each outcome back to the scheduler.

pub mod engine;
pub mod laws;
pub mod outcome;
pub mod scheduler;
pub mod task;

pub use engine::engine_value_is_function;
pub use engine::engine_value_is_thread;
pub use outcome::spec_resume_args;
pub use outcome::ResumeArgs;
pub use outcome::ResumeDecision;
pub use outcome::SchedulerError;
pub use outcome::SchedulerStep;
pub use outcome::TaskSchedulerResult;
pub use outcome::TaskSchedulerState;
pub use scheduler::lane_wf;
pub use scheduler::pending_discharged;
pub use scheduler::pending_wf;
pub use scheduler::popped_outcome;
pub use scheduler::task_created;
pub use scheduler::PendingFuture;
pub use scheduler::TaskScheduler;
pub use task::Task;
pub use task::TaskKind;
pub use task::TaskReference;
