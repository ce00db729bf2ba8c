//! Task identity: kinds and references.

use vstd::prelude::*;

verus! {

/// The kind of a task. Immutable once assigned; it determines which
/// subsystem holds the task's readiness signal: instant and deferred
/// tasks wait in a lane queue, future tasks wait on an asynchronous
/// operation.
#[derive(Debug, Clone, Copy, PartialEq, Eq, PartialOrd, Ord, Hash, Structural)]
pub enum TaskKind {
    Instant,
    Deferred,
    Future,
}

/// A lightweight, copyable handle to a task in the scheduler.
///
/// The guid is drawn from a counter owned by the scheduler instance that
/// increases with every created task and is never reused. Two references
/// are equal exactly when both the kind and the guid match.
#[derive(Debug, Clone, Copy, PartialEq, Eq, PartialOrd, Ord, Hash, Structural)]
pub struct TaskReference {
    /// The kind of the task this reference points to.
    pub kind: TaskKind,
    /// The scheduler-issued guid; never reused within one scheduler.
    pub guid: usize,
}

impl TaskReference {
    pub fn new(kind: TaskKind, guid: usize) -> (r: TaskReference)
        ensures
            r.kind == kind,
            r.guid == guid,
    {
        TaskReference { kind, guid }
    }
}

/// A task record owned by the task store: the suspended coroutine, the
/// arguments to hand it on resumption (if any were given), and the time
/// the task was created. The record is exclusively owned by the store
/// from creation until removal; removal (by resumption or cancellation)
/// releases the coroutine handle and the argument storage exactly once,
/// by dropping them.
pub struct Task {
    /// The kind the task was created with.
    pub kind: TaskKind,
    /// The suspended coroutine the task will resume.
    pub thread: mlua::Thread,
    /// The resume arguments stored at creation, if any. A task created
    /// without any (a bare wait) is resumed with the elapsed time instead.
    pub args: Option<Vec<mlua::Value>>,
    /// The creation timestamp.
    pub queued_at: std::time::Instant,
}

} // verus!
