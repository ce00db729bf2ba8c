//! Snapshots, step outcomes, and the scheduler's error taxonomy.

use vstd::prelude::*;

use crate::task::Task;
use crate::task::TaskReference;

verus! {

/// Why a scheduling call was rejected. Per-task resumption errors are
/// engine errors and travel inside [`TaskSchedulerResult::TaskErrored`].
#[derive(Debug)]
pub enum SchedulerError {
    /// The scheduling call received a value that is neither a coroutine
    /// nor a callable; the task was never created. Carries the rejected
    /// value, so the host can report the engine's name for its type.
    Argument(mlua::Value),
    /// "Schedule after the current resumption" was invoked while the
    /// instant lane was empty: there is no current entry to follow, and
    /// no task was created.
    Precondition,
    /// The engine failed while wrapping a callable into a coroutine.
    Engine(mlua::Error),
}

/// An immutable snapshot of the scheduler's counts and exit state,
/// recomputed on demand; used for diagnostics and for the host driver's
/// loop-termination decision.
#[derive(Debug, Clone, Copy, PartialEq, Eq)]
pub struct TaskSchedulerState {
    /// The exit code requested by script code, once one has been set.
    pub exit_code: Option<u8>,
    /// Entries in the instant lane, stale references included.
    pub num_instant: usize,
    /// Entries in the deferred lane, stale references included.
    pub num_deferred: usize,
    /// Registered asynchronous operations not yet reported complete.
    pub num_future: usize,
    /// Live tasks in the task store.
    pub num_total: usize,
}

/// The result of one full scheduler step, produced once per step.
#[derive(Debug, Clone)]
pub enum TaskSchedulerResult {
    /// The task store is empty: the run is over.
    Finished { state: TaskSchedulerState },
    /// A task surfaced an error. The task was removed before (or instead
    /// of) its resumption, so no cleanup is needed afterwards.
    TaskErrored { error: mlua::Error, state: TaskSchedulerState },
    /// One unit of work completed without error — possibly vacuously,
    /// when a popped reference no longer had a backing task.
    TaskSuccessful { state: TaskSchedulerState },
}

/// What a resumed coroutine must be handed, in priority order:
/// caller-supplied override arguments, else the task's stored arguments,
/// else — only for tasks that were never given either source, i.e. bare
/// waits — the elapsed wall-clock time since the task's creation.
pub enum ResumeArgs {
    /// Resume with exactly these values.
    Values(Vec<mlua::Value>),
    /// Resume with the time elapsed since this creation instant, in
    /// seconds, as the sole argument.
    ElapsedSince(std::time::Instant),
}

/// The arguments a task is resumed with: a caller-supplied override wins,
/// else the arguments stored at creation, else — for a task that was
/// given neither source, a bare wait — the elapsed time since creation.
pub open spec fn spec_resume_args(t: Task, override_args: Option<Vec<mlua::Value>>) -> ResumeArgs {
    match override_args {
        Some(v) => ResumeArgs::Values(v),
        None => match t.args {
            Some(v) => ResumeArgs::Values(v),
            None => ResumeArgs::ElapsedSince(t.queued_at),
        },
    }
}

/// The outcome of resuming one task reference.
pub enum ResumeDecision {
    /// The reference had no backing task any more: a stale miss, treated
    /// as a silent, vacuous success; nothing must be resumed.
    Stale,
    /// Resume this coroutine with these arguments.
    Run { thread: mlua::Thread, args: ResumeArgs },
}

/// One decision of the step protocol. The scheduler never executes a
/// coroutine itself: the embedder performs the `Resume` work — during
/// which script code may call scheduling entry points again — and then
/// reports the outcome back through `report_resume_outcome`.
pub enum SchedulerStep {
    /// The step is complete; nothing is left for the embedder to run.
    Done(TaskSchedulerResult),
    /// Resume this coroutine with these arguments, then report the
    /// outcome.
    Resume { reference: TaskReference, thread: mlua::Thread, args: ResumeArgs },
    /// Both lanes are empty and asynchronous operations are pending:
    /// await the next completion and report it through
    /// `resume_next_queue_future`.
    AwaitFutures,
}

} // verus!
