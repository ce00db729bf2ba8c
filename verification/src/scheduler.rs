//! The task scheduler: scheduling entry points, aggregate state
//! snapshots, and the single-step resumption protocol that picks the
//! next unit of work across the two lanes and the future set.

use vstd::prelude::*;

use std::collections::HashMap;
use std::collections::VecDeque;

use crate::engine::classify_value;
use crate::engine::create_thread;
use crate::engine::engine_value_is_function;
use crate::engine::engine_value_is_thread;
use crate::engine::instant_now;
use crate::engine::ValueClass;
use crate::outcome::spec_resume_args;
use crate::outcome::ResumeArgs;
use crate::outcome::ResumeDecision;
use crate::outcome::SchedulerError;
use crate::outcome::SchedulerStep;
use crate::outcome::TaskSchedulerResult;
use crate::outcome::TaskSchedulerState;
use crate::task::Task;
use crate::task::TaskKind;
use crate::task::TaskReference;

verus! {

broadcast use vstd::std_specs::hash::group_hash_axioms;

/// One registered asynchronous operation: the task it belongs to and the
/// delay its timer was created with, in milliseconds. The embedder runs
/// the timer and reports its completion back to the scheduler.
#[derive(Debug, Clone, Copy, PartialEq, Eq, Structural)]
pub struct PendingFuture {
    /// The task the operation belongs to.
    pub reference: TaskReference,
    /// The delay the operation was registered with, in milliseconds.
    pub delay_millis: u64,
}

/// Every task reference a well-formed lane holds has this kind, and a
/// guid drawn from the scheduler's counter.
pub open spec fn lane_wf(lane: Seq<TaskReference>, kind: TaskKind, ctr: usize) -> bool {
    forall|i: int|
        0 <= i < lane.len() ==> {
            &&& (#[trigger] lane[i]).kind == kind
            &&& 1 <= lane[i].guid <= ctr
        }
}

/// Every entry a well-formed future set holds belongs to a future task
/// whose guid was drawn from the scheduler's counter.
pub open spec fn pending_wf(pending: Seq<PendingFuture>, ctr: usize) -> bool {
    forall|i: int|
        0 <= i < pending.len() ==> {
            &&& (#[trigger] pending[i]).reference.kind == TaskKind::Future
            &&& 1 <= pending[i].reference.guid <= ctr
        }
}

/// No two entries of a lane carry the same guid: together with the lanes
/// being homogeneous in kind, a reference appears in at most one place
/// across all three structures.
pub open spec fn distinct_guids(lane: Seq<TaskReference>) -> bool {
    forall|i: int, j: int|
        0 <= i < j < lane.len() ==> lane[i].guid != lane[j].guid
}

/// No two entries of the future set carry the same guid.
pub open spec fn distinct_pending_guids(pending: Seq<PendingFuture>) -> bool {
    forall|i: int, j: int|
        0 <= i < j < pending.len() ==> pending[i].reference.guid != pending[j].reference.guid
}

/// A cooperative task scheduler multiplexing three categories of pending
/// work — instant, deferred, and asynchronously-delayed tasks — into one
/// strictly ordered resumption protocol.
///
/// The scheduler owns the authoritative table of live tasks; the lanes
/// and the future set hold only references into it. Removal from the
/// table is the single "task no longer exists" signal: the lanes may
/// retain stale references after a cancellation, and every consumer
/// treats a lookup miss as a silent no-op.
pub struct TaskScheduler {
    lua: mlua::Lua,
    guid_ctr: usize,
    tasks: HashMap<usize, Task>,
    queue_instant: VecDeque<TaskReference>,
    queue_deferred: VecDeque<TaskReference>,
    futures: Vec<PendingFuture>,
    exit_code_set: bool,
    exit_code: u8,
}

/// A fresh task was created: its reference carries the requested kind and
/// the next guid, the counter advanced by one, the store gained exactly
/// that task — with the requested kind and stored arguments — and the
/// exit signal is untouched.
pub open spec fn task_created(
    pre: TaskScheduler,
    post: TaskScheduler,
    tr: TaskReference,
    kind: TaskKind,
    args: Option<Vec<mlua::Value>>,
) -> bool {
    &&& tr.kind == kind
    &&& tr.guid == pre.guid_ctr() + 1
    &&& post.guid_ctr() == pre.guid_ctr() + 1
    &&& post.live_tasks().contains_key(tr.guid)
    &&& post.live_tasks() == pre.live_tasks().insert(tr.guid, post.live_tasks()[tr.guid])
    &&& post.live_tasks()[tr.guid].kind == kind
    &&& post.live_tasks()[tr.guid].args == args
    &&& post.exit() == pre.exit()
}

/// After prepending a fresh instant reference to the instant lane, all
/// three structures are still well formed and everything queued before is
/// queued still.
proof fn lemma_lanes_after_prepend_instant(
    pre: TaskScheduler,
    post: TaskScheduler,
    x: TaskReference,
)
    requires
        lane_wf(pre.instant_lane(), TaskKind::Instant, pre.guid_ctr()),
        lane_wf(pre.deferred_lane(), TaskKind::Deferred, pre.guid_ctr()),
        pending_wf(pre.pending_futures(), pre.guid_ctr()),
        pre.guid_ctr() <= post.guid_ctr(),
        x.kind == TaskKind::Instant,
        pre.guid_ctr() < x.guid <= post.guid_ctr(),
        distinct_guids(pre.instant_lane()),
        post.instant_lane() == seq![x] + pre.instant_lane(),
        post.deferred_lane() == pre.deferred_lane(),
        post.pending_futures() == pre.pending_futures(),
    ensures
        lane_wf(post.instant_lane(), TaskKind::Instant, post.guid_ctr()),
        lane_wf(post.deferred_lane(), TaskKind::Deferred, post.guid_ctr()),
        pending_wf(post.pending_futures(), post.guid_ctr()),
        distinct_guids(post.instant_lane()),
        forall|r: TaskReference| pre.queued_in(r) ==> post.queued_in(r),
        post.queued_in(x),
{
    assert(post.instant_lane()[0] == x);
    assert forall|i: int, j: int|
        0 <= i < j < post.instant_lane().len() implies post.instant_lane()[i].guid
        != post.instant_lane()[j].guid by {
        assert(post.instant_lane()[j] == pre.instant_lane()[j - 1]);
        if i > 0 {
            assert(post.instant_lane()[i] == pre.instant_lane()[i - 1]);
        }
    }
    assert forall|i: int| 0 <= i < post.instant_lane().len() implies {
        &&& (#[trigger] post.instant_lane()[i]).kind == TaskKind::Instant
        &&& 1 <= post.instant_lane()[i].guid <= post.guid_ctr()
    } by {
        if i > 0 {
            assert(post.instant_lane()[i] == pre.instant_lane()[i - 1]);
        }
    }
    assert forall|r: TaskReference| pre.queued_in(r) implies post.queued_in(r) by {
        match r.kind {
            TaskKind::Instant => {
                let i = choose|i: int|
                    0 <= i < pre.instant_lane().len() && pre.instant_lane()[i] == r;
                assert(post.instant_lane()[i + 1] == pre.instant_lane()[i]);
            },
            TaskKind::Deferred => {
                lemma_queued_in_same_lanes(pre, post, r);
            },
            TaskKind::Future => {
                lemma_queued_in_same_lanes(pre, post, r);
            },
        }
    }
}

/// After placing a fresh instant reference in second position of a
/// non-empty instant lane, all three structures are still well formed and
/// everything queued before is queued still.
proof fn lemma_lanes_after_insert_second(
    pre: TaskScheduler,
    post: TaskScheduler,
    x: TaskReference,
)
    requires
        lane_wf(pre.instant_lane(), TaskKind::Instant, pre.guid_ctr()),
        lane_wf(pre.deferred_lane(), TaskKind::Deferred, pre.guid_ctr()),
        pending_wf(pre.pending_futures(), pre.guid_ctr()),
        pre.guid_ctr() <= post.guid_ctr(),
        x.kind == TaskKind::Instant,
        pre.guid_ctr() < x.guid <= post.guid_ctr(),
        distinct_guids(pre.instant_lane()),
        pre.instant_lane().len() >= 1,
        post.instant_lane() == pre.instant_lane().insert(1, x),
        post.deferred_lane() == pre.deferred_lane(),
        post.pending_futures() == pre.pending_futures(),
    ensures
        lane_wf(post.instant_lane(), TaskKind::Instant, post.guid_ctr()),
        lane_wf(post.deferred_lane(), TaskKind::Deferred, post.guid_ctr()),
        pending_wf(post.pending_futures(), post.guid_ctr()),
        distinct_guids(post.instant_lane()),
        forall|r: TaskReference| pre.queued_in(r) ==> post.queued_in(r),
        post.queued_in(x),
{
    assert(post.instant_lane()[1] == x);
    assert forall|i: int, j: int|
        0 <= i < j < post.instant_lane().len() implies post.instant_lane()[i].guid
        != post.instant_lane()[j].guid by {
        if i == 0 {
            assert(post.instant_lane()[0] == pre.instant_lane()[0]);
        } else if i > 1 {
            assert(post.instant_lane()[i] == pre.instant_lane()[i - 1]);
        }
        if j > 1 {
            assert(post.instant_lane()[j] == pre.instant_lane()[j - 1]);
        }
    }
    assert forall|i: int| 0 <= i < post.instant_lane().len() implies {
        &&& (#[trigger] post.instant_lane()[i]).kind == TaskKind::Instant
        &&& 1 <= post.instant_lane()[i].guid <= post.guid_ctr()
    } by {
        if i == 0 {
            assert(post.instant_lane()[0] == pre.instant_lane()[0]);
        } else if i > 1 {
            assert(post.instant_lane()[i] == pre.instant_lane()[i - 1]);
        }
    }
    assert forall|r: TaskReference| pre.queued_in(r) implies post.queued_in(r) by {
        match r.kind {
            TaskKind::Instant => {
                let i = choose|i: int|
                    0 <= i < pre.instant_lane().len() && pre.instant_lane()[i] == r;
                if i == 0 {
                    assert(post.instant_lane()[0] == pre.instant_lane()[0]);
                } else {
                    assert(post.instant_lane()[i + 1] == pre.instant_lane()[i]);
                }
            },
            TaskKind::Deferred => {
                lemma_queued_in_same_lanes(pre, post, r);
            },
            TaskKind::Future => {
                lemma_queued_in_same_lanes(pre, post, r);
            },
        }
    }
}

/// After appending a fresh deferred reference to the deferred lane, all
/// three structures are still well formed and everything queued before is
/// queued still.
proof fn lemma_lanes_after_append_deferred(
    pre: TaskScheduler,
    post: TaskScheduler,
    x: TaskReference,
)
    requires
        lane_wf(pre.instant_lane(), TaskKind::Instant, pre.guid_ctr()),
        lane_wf(pre.deferred_lane(), TaskKind::Deferred, pre.guid_ctr()),
        pending_wf(pre.pending_futures(), pre.guid_ctr()),
        pre.guid_ctr() <= post.guid_ctr(),
        x.kind == TaskKind::Deferred,
        pre.guid_ctr() < x.guid <= post.guid_ctr(),
        distinct_guids(pre.deferred_lane()),
        post.instant_lane() == pre.instant_lane(),
        post.deferred_lane() == pre.deferred_lane().push(x),
        post.pending_futures() == pre.pending_futures(),
    ensures
        lane_wf(post.instant_lane(), TaskKind::Instant, post.guid_ctr()),
        lane_wf(post.deferred_lane(), TaskKind::Deferred, post.guid_ctr()),
        pending_wf(post.pending_futures(), post.guid_ctr()),
        distinct_guids(post.deferred_lane()),
        forall|r: TaskReference| pre.queued_in(r) ==> post.queued_in(r),
        post.queued_in(x),
{
    assert(post.deferred_lane()[pre.deferred_lane().len() as int] == x);
    assert forall|i: int, j: int|
        0 <= i < j < post.deferred_lane().len() implies post.deferred_lane()[i].guid
        != post.deferred_lane()[j].guid by {
        assert(post.deferred_lane()[i] == pre.deferred_lane()[i]);
        if j < pre.deferred_lane().len() {
            assert(post.deferred_lane()[j] == pre.deferred_lane()[j]);
        }
    }
    assert forall|i: int| 0 <= i < post.deferred_lane().len() implies {
        &&& (#[trigger] post.deferred_lane()[i]).kind == TaskKind::Deferred
        &&& 1 <= post.deferred_lane()[i].guid <= post.guid_ctr()
    } by {
        if i < pre.deferred_lane().len() {
            assert(post.deferred_lane()[i] == pre.deferred_lane()[i]);
        }
    }
    assert forall|r: TaskReference| pre.queued_in(r) implies post.queued_in(r) by {
        match r.kind {
            TaskKind::Deferred => {
                let i = choose|i: int|
                    0 <= i < pre.deferred_lane().len() && pre.deferred_lane()[i] == r;
                assert(post.deferred_lane()[i] == pre.deferred_lane()[i]);
            },
            TaskKind::Instant => {
                lemma_queued_in_same_lanes(pre, post, r);
            },
            TaskKind::Future => {
                lemma_queued_in_same_lanes(pre, post, r);
            },
        }
    }
}

/// After registering a fresh future reference in the future set, all
/// three structures are still well formed and everything queued before is
/// queued still.
proof fn lemma_lanes_after_push_pending(
    pre: TaskScheduler,
    post: TaskScheduler,
    p: PendingFuture,
)
    requires
        lane_wf(pre.instant_lane(), TaskKind::Instant, pre.guid_ctr()),
        lane_wf(pre.deferred_lane(), TaskKind::Deferred, pre.guid_ctr()),
        pending_wf(pre.pending_futures(), pre.guid_ctr()),
        pre.guid_ctr() <= post.guid_ctr(),
        p.reference.kind == TaskKind::Future,
        pre.guid_ctr() < p.reference.guid <= post.guid_ctr(),
        distinct_pending_guids(pre.pending_futures()),
        post.instant_lane() == pre.instant_lane(),
        post.deferred_lane() == pre.deferred_lane(),
        post.pending_futures() == pre.pending_futures().push(p),
    ensures
        lane_wf(post.instant_lane(), TaskKind::Instant, post.guid_ctr()),
        lane_wf(post.deferred_lane(), TaskKind::Deferred, post.guid_ctr()),
        pending_wf(post.pending_futures(), post.guid_ctr()),
        distinct_pending_guids(post.pending_futures()),
        forall|r: TaskReference| pre.queued_in(r) ==> post.queued_in(r),
        post.queued_in(p.reference),
{
    assert(post.pending_futures()[pre.pending_futures().len() as int] == p);
    assert forall|i: int, j: int|
        0 <= i < j < post.pending_futures().len() implies post.pending_futures()[i].reference.guid
        != post.pending_futures()[j].reference.guid by {
        assert(post.pending_futures()[i] == pre.pending_futures()[i]);
        if j < pre.pending_futures().len() {
            assert(post.pending_futures()[j] == pre.pending_futures()[j]);
        }
    }
    assert forall|i: int| 0 <= i < post.pending_futures().len() implies {
        &&& (#[trigger] post.pending_futures()[i]).reference.kind == TaskKind::Future
        &&& 1 <= post.pending_futures()[i].reference.guid <= post.guid_ctr()
    } by {
        if i < pre.pending_futures().len() {
            assert(post.pending_futures()[i] == pre.pending_futures()[i]);
        }
    }
    assert forall|r: TaskReference| pre.queued_in(r) implies post.queued_in(r) by {
        match r.kind {
            TaskKind::Future => {
                let i = choose|i: int|
                    0 <= i < pre.pending_futures().len() && pre.pending_futures()[i].reference
                        == r;
                assert(post.pending_futures()[i] == pre.pending_futures()[i]);
            },
            TaskKind::Instant => {
                lemma_queued_in_same_lanes(pre, post, r);
            },
            TaskKind::Deferred => {
                lemma_queued_in_same_lanes(pre, post, r);
            },
        }
    }
}

/// A reference queued in a structure its kind assigns it to stays queued
/// when that structure is unchanged.
proof fn lemma_queued_in_same_lanes(pre: TaskScheduler, post: TaskScheduler, r: TaskReference)
    requires
        pre.queued_in(r),
        r.kind == TaskKind::Instant ==> post.instant_lane() == pre.instant_lane(),
        r.kind == TaskKind::Deferred ==> post.deferred_lane() == pre.deferred_lane(),
        r.kind == TaskKind::Future ==> post.pending_futures() == pre.pending_futures(),
    ensures
        post.queued_in(r),
{
    match r.kind {
        TaskKind::Instant => {
            let i = choose|i: int|
                0 <= i < pre.instant_lane().len() && pre.instant_lane()[i] == r;
            assert(0 <= i < post.instant_lane().len() && post.instant_lane()[i] == r);
        },
        TaskKind::Deferred => {
            let i = choose|i: int|
                0 <= i < pre.deferred_lane().len() && pre.deferred_lane()[i] == r;
            assert(0 <= i < post.deferred_lane().len() && post.deferred_lane()[i] == r);
        },
        TaskKind::Future => {
            let i = choose|i: int|
                0 <= i < pre.pending_futures().len() && pre.pending_futures()[i].reference == r;
            assert(0 <= i < post.pending_futures().len() && post.pending_futures()[i].reference
                == r);
        },
    }
}

/// What one popped reference leads to: a live task is removed from the
/// store and handed out for resumption with arguments chosen by
/// [`spec_resume_args`]; a stale reference changes nothing and reports a
/// vacuous success.
pub open spec fn popped_outcome(
    pre: TaskScheduler,
    post: TaskScheduler,
    r: TaskReference,
    override_args: Option<Vec<mlua::Value>>,
    step: SchedulerStep,
) -> bool {
    if pre.live(r) {
        &&& post.live_tasks() == pre.live_tasks().remove(r.guid)
        &&& step == (SchedulerStep::Resume {
            reference: r,
            thread: pre.live_tasks()[r.guid].thread,
            args: spec_resume_args(pre.live_tasks()[r.guid], override_args),
        })
    } else {
        &&& post.live_tasks() == pre.live_tasks()
        &&& step == SchedulerStep::Done(
            TaskSchedulerResult::TaskSuccessful { state: post.state_snapshot() },
        )
    }
}

/// The future set discharged one completed operation: some entry carrying
/// the completed reference left the set, if one was there; nothing else
/// about the set changed.
pub open spec fn pending_discharged(
    pre: Seq<PendingFuture>,
    post: Seq<PendingFuture>,
    r: TaskReference,
) -> bool {
    if exists|j: int| 0 <= j < pre.len() && pre[j].reference == r {
        exists|j: int| 0 <= j < pre.len() && pre[j].reference == r && post == pre.remove(j)
    } else {
        post == pre
    }
}

/// Removing a task from the store keeps the scheduler well formed: its
/// queued reference, wherever it sits, merely goes stale.
proof fn lemma_wf_after_take(pre: TaskScheduler, post: TaskScheduler, r: TaskReference)
    requires
        pre.wf(),
        post.guid_ctr() == pre.guid_ctr(),
        post.instant_lane() == pre.instant_lane(),
        post.deferred_lane() == pre.deferred_lane(),
        post.pending_futures() == pre.pending_futures(),
        post.live_tasks() == pre.live_tasks() || post.live_tasks() == pre.live_tasks().remove(
            r.guid,
        ),
    ensures
        post.wf(),
{
    assert forall|g: usize| #[trigger]
        post.live_tasks().dom().contains(g) implies 1 <= g <= post.guid_ctr() by {
        assert(pre.live_tasks().dom().contains(g));
    }
    assert forall|g: usize| #[trigger]
        post.live_tasks().dom().contains(g) implies post.queued_in(post.tracked_ref(g)) by {
        assert(pre.live_tasks().dom().contains(g));
        assert(post.tracked_ref(g) == pre.tracked_ref(g));
        assert(pre.queued_in(pre.tracked_ref(g)));
        lemma_queued_in_same_lanes(pre, post, post.tracked_ref(g));
    }
}

/// Popping the front of a lane — and removing the popped task from the
/// store when it was live — keeps the scheduler well formed.
proof fn lemma_wf_after_pop(
    pre: TaskScheduler,
    post: TaskScheduler,
    popped: TaskReference,
    lane_kind: TaskKind,
)
    requires
        pre.wf(),
        post.guid_ctr() == pre.guid_ctr(),
        lane_kind != TaskKind::Future,
        lane_kind == TaskKind::Instant ==> {
            &&& pre.instant_lane().len() > 0
            &&& popped == pre.instant_lane()[0]
            &&& post.instant_lane() == pre.instant_lane().drop_first()
            &&& post.deferred_lane() == pre.deferred_lane()
        },
        lane_kind == TaskKind::Deferred ==> {
            &&& pre.deferred_lane().len() > 0
            &&& popped == pre.deferred_lane()[0]
            &&& post.deferred_lane() == pre.deferred_lane().drop_first()
            &&& post.instant_lane() == pre.instant_lane()
        },
        post.pending_futures() == pre.pending_futures(),
        post.live_tasks() == (if pre.live(popped) {
            pre.live_tasks().remove(popped.guid)
        } else {
            pre.live_tasks()
        }),
    ensures
        post.wf(),
{
    if lane_kind == TaskKind::Instant {
        assert forall|i: int| 0 <= i < post.instant_lane().len() implies {
            &&& (#[trigger] post.instant_lane()[i]).kind == TaskKind::Instant
            &&& 1 <= post.instant_lane()[i].guid <= post.guid_ctr()
        } by {
            assert(post.instant_lane()[i] == pre.instant_lane()[i + 1]);
        }
    } else {
        assert forall|i: int| 0 <= i < post.deferred_lane().len() implies {
            &&& (#[trigger] post.deferred_lane()[i]).kind == TaskKind::Deferred
            &&& 1 <= post.deferred_lane()[i].guid <= post.guid_ctr()
        } by {
            assert(post.deferred_lane()[i] == pre.deferred_lane()[i + 1]);
        }
    }
    assert forall|g: usize| #[trigger]
        post.live_tasks().dom().contains(g) implies 1 <= g <= post.guid_ctr() by {
        assert(pre.live_tasks().dom().contains(g));
    }
    assert forall|g: usize| #[trigger]
        post.live_tasks().dom().contains(g) implies post.queued_in(post.tracked_ref(g)) by {
        assert(pre.live_tasks().dom().contains(g));
        assert(post.tracked_ref(g) == pre.tracked_ref(g));
        let r = pre.tracked_ref(g);
        assert(pre.queued_in(r));
        match r.kind {
            TaskKind::Instant => {
                if lane_kind == TaskKind::Instant {
                    let i = choose|i: int|
                        0 <= i < pre.instant_lane().len() && pre.instant_lane()[i] == r;
                    if i == 0 {
                        assert(r == popped);
                        assert(pre.live(popped));
                        assert(!post.live_tasks().dom().contains(g));
                    } else {
                        assert(post.instant_lane()[i - 1] == pre.instant_lane()[i]);
                    }
                } else {
                    lemma_queued_in_same_lanes(pre, post, r);
                }
            },
            TaskKind::Deferred => {
                if lane_kind == TaskKind::Deferred {
                    let i = choose|i: int|
                        0 <= i < pre.deferred_lane().len() && pre.deferred_lane()[i] == r;
                    if i == 0 {
                        assert(r == popped);
                        assert(pre.live(popped));
                        assert(!post.live_tasks().dom().contains(g));
                    } else {
                        assert(post.deferred_lane()[i - 1] == pre.deferred_lane()[i]);
                    }
                } else {
                    lemma_queued_in_same_lanes(pre, post, r);
                }
            },
            TaskKind::Future => {
                lemma_queued_in_same_lanes(pre, post, r);
            },
        }
    }
}

/// Splits a removed task into its coroutine and the arguments it must be
/// resumed with, chosen in priority order: the caller-supplied override,
/// else the stored arguments, else the elapsed time since creation.
fn run_parts(task: Task, override_args: Option<Vec<mlua::Value>>) -> (r: (
    mlua::Thread,
    ResumeArgs,
))
    ensures
        r.0 == task.thread,
        r.1 == spec_resume_args(task, override_args),
{
    let Task { kind: _, thread, args, queued_at } = task;
    let chosen = match override_args {
        Some(v) => ResumeArgs::Values(v),
        None => match args {
            Some(v) => ResumeArgs::Values(v),
            None => ResumeArgs::ElapsedSince(queued_at),
        },
    };
    (thread, chosen)
}

/// The task store gained one fresh, queued task and the structures stayed
/// well formed: the whole scheduler is well formed again.
proof fn lemma_wf_after_create(pre: TaskScheduler, post: TaskScheduler, tr: TaskReference)
    requires
        pre.wf(),
        post.guid_ctr() == pre.guid_ctr() + 1,
        tr.guid == post.guid_ctr(),
        post.live_tasks() == pre.live_tasks().insert(tr.guid, post.live_tasks()[tr.guid]),
        post.live_tasks().contains_key(tr.guid),
        post.live_tasks()[tr.guid].kind == tr.kind,
        lane_wf(post.instant_lane(), TaskKind::Instant, post.guid_ctr()),
        lane_wf(post.deferred_lane(), TaskKind::Deferred, post.guid_ctr()),
        pending_wf(post.pending_futures(), post.guid_ctr()),
        distinct_guids(post.instant_lane()),
        distinct_guids(post.deferred_lane()),
        distinct_pending_guids(post.pending_futures()),
        forall|r: TaskReference| pre.queued_in(r) ==> post.queued_in(r),
        post.queued_in(tr),
    ensures
        post.wf(),
{
    assert forall|g: usize| #[trigger]
        post.live_tasks().dom().contains(g) implies 1 <= g <= post.guid_ctr() by {
        if g != tr.guid {
            assert(pre.live_tasks().dom().contains(g));
        }
    }
    assert forall|g: usize| #[trigger]
        post.live_tasks().dom().contains(g) implies post.queued_in(post.tracked_ref(g)) by {
        if g == tr.guid {
            assert(post.tracked_ref(g) == tr);
        } else {
            assert(pre.live_tasks().dom().contains(g));
            assert(post.tracked_ref(g) == pre.tracked_ref(g));
            assert(pre.queued_in(pre.tracked_ref(g)));
        }
    }
}

impl TaskScheduler {
    /// The last guid issued; the next task gets this plus one.
    pub closed spec fn guid_ctr(self) -> usize {
        self.guid_ctr
    }

    /// The authoritative table of live tasks, keyed by guid.
    pub closed spec fn live_tasks(self) -> Map<usize, Task> {
        self.tasks@
    }

    /// The instant lane, front first.
    pub closed spec fn instant_lane(self) -> Seq<TaskReference> {
        self.queue_instant@
    }

    /// The deferred lane, front first.
    pub closed spec fn deferred_lane(self) -> Seq<TaskReference> {
        self.queue_deferred@
    }

    /// The registered asynchronous operations not yet reported complete.
    pub closed spec fn pending_futures(self) -> Seq<PendingFuture> {
        self.futures@
    }

    /// The one-shot exit signal: `None` until set, then sticky.
    pub closed spec fn exit(self) -> Option<u8> {
        if self.exit_code_set {
            Some(self.exit_code)
        } else {
            None
        }
    }

    /// A reference is live when the task store still holds a task under
    /// its guid, of the same kind. Both fields must match, exactly as
    /// two references are equal only when both fields match.
    pub open spec fn live(self, r: TaskReference) -> bool {
        &&& self.live_tasks().contains_key(r.guid)
        &&& self.live_tasks()[r.guid].kind == r.kind
    }

    /// The reference under which a live task is queued.
    pub open spec fn tracked_ref(self, g: usize) -> TaskReference
        recommends
            self.live_tasks().contains_key(g),
    {
        TaskReference { kind: self.live_tasks()[g].kind, guid: g }
    }

    /// Whether a reference sits in the structure its kind assigns it to:
    /// instant and deferred references wait in their lane, future
    /// references in the future set.
    pub open spec fn queued_in(self, r: TaskReference) -> bool {
        match r.kind {
            TaskKind::Instant => exists|i: int|
                0 <= i < self.instant_lane().len() && self.instant_lane()[i] == r,
            TaskKind::Deferred => exists|i: int|
                0 <= i < self.deferred_lane().len() && self.deferred_lane()[i] == r,
            TaskKind::Future => exists|i: int|
                0 <= i < self.pending_futures().len() && self.pending_futures()[i].reference == r,
        }
    }

    /// Well-formedness: every guid the scheduler tracks — live or queued
    /// — was issued by its counter, lanes hold references of their own
    /// kind without repetition, and every live task is reachable from
    /// the structure its kind assigns it to — hence a reference appears
    /// in exactly one place while its task exists. Established by `new`
    /// and preserved by every operation.
    pub open spec fn wf(self) -> bool {
        &&& forall|g: usize| #[trigger]
            self.live_tasks().dom().contains(g) ==> 1 <= g <= self.guid_ctr()
        &&& lane_wf(self.instant_lane(), TaskKind::Instant, self.guid_ctr())
        &&& lane_wf(self.deferred_lane(), TaskKind::Deferred, self.guid_ctr())
        &&& pending_wf(self.pending_futures(), self.guid_ctr())
        &&& distinct_guids(self.instant_lane())
        &&& distinct_guids(self.deferred_lane())
        &&& distinct_pending_guids(self.pending_futures())
        &&& forall|g: usize| #[trigger]
            self.live_tasks().dom().contains(g) ==> self.queued_in(self.tracked_ref(g))
    }

    /// The snapshot the scheduler reports: the exit signal and the sizes
    /// of all four structures.
    pub open spec fn state_snapshot(self) -> TaskSchedulerState {
        TaskSchedulerState {
            exit_code: self.exit(),
            num_instant: self.instant_lane().len() as usize,
            num_deferred: self.deferred_lane().len() as usize,
            num_future: self.pending_futures().len() as usize,
            num_total: self.live_tasks().len() as usize,
        }
    }

    /// Creates a new, empty task scheduler around an engine handle.
    pub fn new(lua: mlua::Lua) -> (s: TaskScheduler)
        ensures
            s.wf(),
            s.guid_ctr() == 0,
            s.live_tasks() =~= Map::<usize, Task>::empty(),
            s.instant_lane() =~= Seq::<TaskReference>::empty(),
            s.deferred_lane() =~= Seq::<TaskReference>::empty(),
            s.pending_futures() =~= Seq::<PendingFuture>::empty(),
            s.exit() is None,
    {
        TaskScheduler {
            lua,
            guid_ctr: 0,
            tasks: HashMap::new(),
            queue_instant: VecDeque::new(),
            queue_deferred: VecDeque::new(),
            futures: Vec::new(),
            exit_code_set: false,
            exit_code: 0,
        }
    }

    /// Gets the current state of the task scheduler: an immutable
    /// point-in-time summary with no identity, recomputed on demand.
    /// Exclusive ownership rules out the reentrant misuse that would
    /// make a snapshot unobtainable: this call is total.
    pub fn state(&self) -> (st: TaskSchedulerState)
        ensures
            st == self.state_snapshot(),
    {
        TaskSchedulerState {
            exit_code: if self.exit_code_set {
                Some(self.exit_code)
            } else {
                None
            },
            num_instant: self.queue_instant.len(),
            num_deferred: self.queue_deferred.len(),
            num_future: self.futures.len(),
            num_total: self.tasks.len(),
        }
    }

    /// Stores the exit code for the task scheduler. The signal is
    /// write-once-then-sticky: every subsequent snapshot reports an exit
    /// code, and no operation ever clears it. When set more than once,
    /// the last code given is reported.
    pub fn set_exit_code(&mut self, code: u8)
        ensures
            final(self).wf() == old(self).wf(),
            final(self).exit() == Some(code),
            final(self).guid_ctr() == old(self).guid_ctr(),
            final(self).live_tasks() == old(self).live_tasks(),
            final(self).instant_lane() == old(self).instant_lane(),
            final(self).deferred_lane() == old(self).deferred_lane(),
            final(self).pending_futures() == old(self).pending_futures(),
    {
        self.exit_code = code;
        self.exit_code_set = true;
    }

    /// Sorts a scheduling input into a resumable coroutine: a coroutine
    /// passes through, a callable is wrapped into a fresh coroutine, and
    /// anything else is rejected as an argument error. A coroutine needs
    /// no engine call, so for one success is owed; only wrapping a
    /// callable can fail in the engine.
    fn resolve_thread(&self, thread_or_function: mlua::Value) -> (res: Result<
        mlua::Thread,
        SchedulerError,
    >)
        ensures
            match res {
                Ok(_) => engine_value_is_thread(thread_or_function) || engine_value_is_function(
                    thread_or_function,
                ),
                Err(e) => {
                    &&& !(e is Precondition)
                    &&& (e is Argument <==> (!engine_value_is_thread(thread_or_function)
                        && !engine_value_is_function(thread_or_function)))
                },
            },
            engine_value_is_thread(thread_or_function) ==> res is Ok,
    {
        match classify_value(thread_or_function) {
            ValueClass::Thread(t) => Ok(t),
            ValueClass::Function(f) => match create_thread(&self.lua, f) {
                Ok(t) => Ok(t),
                Err(e) => Err(SchedulerError::Engine(e)),
            },
            ValueClass::Other(v) => Err(SchedulerError::Argument(v)),
        }
    }

    /// Allocates the next guid, timestamps the task, and inserts it into
    /// the task store. This is the only path that grows the store. The
    /// caller still has to queue the returned reference.
    fn insert_task(
        &mut self,
        kind: TaskKind,
        thread: mlua::Thread,
        args: Option<Vec<mlua::Value>>,
    ) -> (tr: TaskReference)
        requires
            old(self).guid_ctr() < usize::MAX,
        ensures
            final(self).guid_ctr() == old(self).guid_ctr() + 1,
            tr == (TaskReference { kind, guid: final(self).guid_ctr() }),
            final(self).live_tasks() == old(self).live_tasks().insert(
                tr.guid,
                final(self).live_tasks()[tr.guid],
            ),
            final(self).live_tasks().contains_key(tr.guid),
            final(self).live_tasks()[tr.guid].kind == kind,
            final(self).live_tasks()[tr.guid].thread == thread,
            final(self).live_tasks()[tr.guid].args == args,
            final(self).instant_lane() == old(self).instant_lane(),
            final(self).deferred_lane() == old(self).deferred_lane(),
            final(self).pending_futures() == old(self).pending_futures(),
            final(self).exit() == old(self).exit(),
    {
        let guid = self.guid_ctr + 1;
        self.guid_ctr = guid;
        let queued_at = instant_now();
        let task = Task { kind, thread, args, queued_at };
        let _prev = self.tasks.insert(guid, task);
        TaskReference { kind, guid }
    }

    /// Schedules a new instant task at the front of the instant lane: it
    /// becomes the very next task popped from that lane.
    pub fn schedule_current_resume(
        &mut self,
        thread_or_function: mlua::Value,
        thread_args: Vec<mlua::Value>,
    ) -> (res: Result<TaskReference, SchedulerError>)
        requires
            old(self).wf(),
            old(self).guid_ctr() < usize::MAX,
        ensures
            final(self).wf(),
            match res {
                Ok(tr) => {
                    &&& task_created(
                        *old(self),
                        *final(self),
                        tr,
                        TaskKind::Instant,
                        Some(thread_args),
                    )
                    &&& final(self).instant_lane() == seq![tr] + old(self).instant_lane()
                    &&& final(self).deferred_lane() == old(self).deferred_lane()
                    &&& final(self).pending_futures() == old(self).pending_futures()
                },
                Err(e) => {
                    &&& *final(self) == *old(self)
                    &&& !(e is Precondition)
                    &&& (e is Argument <==> (!engine_value_is_thread(thread_or_function)
                        && !engine_value_is_function(thread_or_function)))
                },
            },
            engine_value_is_thread(thread_or_function) ==> res is Ok,
    {
        let thread = match self.resolve_thread(thread_or_function) {
            Ok(t) => t,
            Err(e) => {
                return Err(e);
            },
        };
        let tr = self.insert_task(TaskKind::Instant, thread, Some(thread_args));
        self.queue_instant.push_front(tr);
        proof {
            lemma_lanes_after_prepend_instant(*old(self), *self, tr);
            lemma_wf_after_create(*old(self), *self, tr);
        }
        Ok(tr)
    }

    /// Schedules a new instant task in second position of the instant
    /// lane, immediately behind the current front entry. Fails with a
    /// precondition error — creating no task — when the lane is empty:
    /// there is no current entry to follow.
    pub fn schedule_after_current_resume(
        &mut self,
        thread_or_function: mlua::Value,
        thread_args: Vec<mlua::Value>,
    ) -> (res: Result<TaskReference, SchedulerError>)
        requires
            old(self).wf(),
            old(self).guid_ctr() < usize::MAX,
        ensures
            final(self).wf(),
            match res {
                Ok(tr) => {
                    &&& old(self).instant_lane().len() >= 1
                    &&& task_created(
                        *old(self),
                        *final(self),
                        tr,
                        TaskKind::Instant,
                        Some(thread_args),
                    )
                    &&& final(self).instant_lane() == old(self).instant_lane().insert(1, tr)
                    &&& final(self).deferred_lane() == old(self).deferred_lane()
                    &&& final(self).pending_futures() == old(self).pending_futures()
                },
                Err(e) => {
                    &&& *final(self) == *old(self)
                    &&& (e is Precondition <==> old(self).instant_lane().len() == 0)
                    &&& old(self).instant_lane().len() > 0 ==> (e is Argument <==> (
                    !engine_value_is_thread(thread_or_function) && !engine_value_is_function(
                        thread_or_function,
                    )))
                },
            },
            old(self).instant_lane().len() > 0 && engine_value_is_thread(thread_or_function)
                ==> res is Ok,
    {
        if self.queue_instant.len() == 0 {
            return Err(SchedulerError::Precondition);
        }
        let thread = match self.resolve_thread(thread_or_function) {
            Ok(t) => t,
            Err(e) => {
                return Err(e);
            },
        };
        let tr = self.insert_task(TaskKind::Instant, thread, Some(thread_args));
        self.queue_instant.insert(1, tr);
        proof {
            lemma_lanes_after_insert_second(*old(self), *self, tr);
            lemma_wf_after_create(*old(self), *self, tr);
        }
        Ok(tr)
    }

    /// Schedules a new deferred task at the tail of the deferred lane:
    /// deferred tasks always run after every instant task, in the order
    /// they were scheduled.
    pub fn schedule_deferred(
        &mut self,
        thread_or_function: mlua::Value,
        thread_args: Vec<mlua::Value>,
    ) -> (res: Result<TaskReference, SchedulerError>)
        requires
            old(self).wf(),
            old(self).guid_ctr() < usize::MAX,
        ensures
            final(self).wf(),
            match res {
                Ok(tr) => {
                    &&& task_created(
                        *old(self),
                        *final(self),
                        tr,
                        TaskKind::Deferred,
                        Some(thread_args),
                    )
                    &&& final(self).deferred_lane() == old(self).deferred_lane().push(tr)
                    &&& final(self).instant_lane() == old(self).instant_lane()
                    &&& final(self).pending_futures() == old(self).pending_futures()
                },
                Err(e) => {
                    &&& *final(self) == *old(self)
                    &&& !(e is Precondition)
                    &&& (e is Argument <==> (!engine_value_is_thread(thread_or_function)
                        && !engine_value_is_function(thread_or_function)))
                },
            },
            engine_value_is_thread(thread_or_function) ==> res is Ok,
    {
        let thread = match self.resolve_thread(thread_or_function) {
            Ok(t) => t,
            Err(e) => {
                return Err(e);
            },
        };
        let tr = self.insert_task(TaskKind::Deferred, thread, Some(thread_args));
        self.queue_deferred.push_back(tr);
        proof {
            lemma_lanes_after_append_deferred(*old(self), *self, tr);
            lemma_wf_after_create(*old(self), *self, tr);
        }
        Ok(tr)
    }

    /// Schedules a new future task whose asynchronous operation is a
    /// timer of the given delay. The embedder runs the timer and reports
    /// its completion — with no argument override — through
    /// `resume_next_queue_future`; the stored arguments, even an empty
    /// list, are then handed to the coroutine.
    pub fn schedule_delayed(
        &mut self,
        after_millis: u64,
        thread_or_function: mlua::Value,
        thread_args: Vec<mlua::Value>,
    ) -> (res: Result<TaskReference, SchedulerError>)
        requires
            old(self).wf(),
            old(self).guid_ctr() < usize::MAX,
        ensures
            final(self).wf(),
            match res {
                Ok(tr) => {
                    &&& task_created(
                        *old(self),
                        *final(self),
                        tr,
                        TaskKind::Future,
                        Some(thread_args),
                    )
                    &&& final(self).pending_futures() == old(self).pending_futures().push(
                        (PendingFuture { reference: tr, delay_millis: after_millis }),
                    )
                    &&& final(self).instant_lane() == old(self).instant_lane()
                    &&& final(self).deferred_lane() == old(self).deferred_lane()
                },
                Err(e) => {
                    &&& *final(self) == *old(self)
                    &&& !(e is Precondition)
                    &&& (e is Argument <==> (!engine_value_is_thread(thread_or_function)
                        && !engine_value_is_function(thread_or_function)))
                },
            },
            engine_value_is_thread(thread_or_function) ==> res is Ok,
    {
        let thread = match self.resolve_thread(thread_or_function) {
            Ok(t) => t,
            Err(e) => {
                return Err(e);
            },
        };
        let tr = self.insert_task(TaskKind::Future, thread, Some(thread_args));
        let pending = PendingFuture { reference: tr, delay_millis: after_millis };
        self.futures.push(pending);
        proof {
            lemma_lanes_after_push_pending(*old(self), *self, pending);
            lemma_wf_after_create(*old(self), *self, tr);
        }
        Ok(tr)
    }

    /// Schedules a new future task with no stored arguments at all — a
    /// bare wait. When the timer's completion is reported and the task is
    /// resumed, the coroutine receives the elapsed wall-clock time since
    /// its creation as its sole argument.
    pub fn schedule_wait(&mut self, after_millis: u64, thread_or_function: mlua::Value) -> (res:
        Result<TaskReference, SchedulerError>)
        requires
            old(self).wf(),
            old(self).guid_ctr() < usize::MAX,
        ensures
            final(self).wf(),
            match res {
                Ok(tr) => {
                    &&& task_created(*old(self), *final(self), tr, TaskKind::Future, None)
                    &&& final(self).pending_futures() == old(self).pending_futures().push(
                        (PendingFuture { reference: tr, delay_millis: after_millis }),
                    )
                    &&& final(self).instant_lane() == old(self).instant_lane()
                    &&& final(self).deferred_lane() == old(self).deferred_lane()
                },
                Err(e) => {
                    &&& *final(self) == *old(self)
                    &&& !(e is Precondition)
                    &&& (e is Argument <==> (!engine_value_is_thread(thread_or_function)
                        && !engine_value_is_function(thread_or_function)))
                },
            },
            engine_value_is_thread(thread_or_function) ==> res is Ok,
    {
        let thread = match self.resolve_thread(thread_or_function) {
            Ok(t) => t,
            Err(e) => {
                return Err(e);
            },
        };
        let tr = self.insert_task(TaskKind::Future, thread, None);
        let pending = PendingFuture { reference: tr, delay_millis: after_millis };
        self.futures.push(pending);
        proof {
            lemma_lanes_after_push_pending(*old(self), *self, pending);
            lemma_wf_after_create(*old(self), *self, tr);
        }
        Ok(tr)
    }

    /// Deletes and returns the task record behind a reference, if the
    /// reference is still live. This is the single authoritative "task no
    /// longer exists" transition, shared by resumption and cancellation.
    fn take_task(&mut self, reference: TaskReference) -> (t: Option<Task>)
        ensures
            final(self).guid_ctr() == old(self).guid_ctr(),
            final(self).instant_lane() == old(self).instant_lane(),
            final(self).deferred_lane() == old(self).deferred_lane(),
            final(self).pending_futures() == old(self).pending_futures(),
            final(self).exit() == old(self).exit(),
            if old(self).live(reference) {
                &&& t == Some(old(self).live_tasks()[reference.guid])
                &&& final(self).live_tasks() == old(self).live_tasks().remove(reference.guid)
            } else {
                &&& t is None
                &&& final(self).live_tasks() == old(self).live_tasks()
            },
    {
        if self.contains_task(reference) {
            self.tasks.remove(&reference.guid)
        } else {
            None
        }
    }

    /// Resumes a task, if the task still exists in the scheduler: deletes
    /// the record and hands out its coroutine together with the arguments
    /// chosen in priority order — the caller-supplied override, else the
    /// stored arguments, else the elapsed time since creation. A stale
    /// reference is a silent no-op. The lanes are not touched.
    pub fn resume_task(
        &mut self,
        reference: TaskReference,
        override_args: Option<Vec<mlua::Value>>,
    ) -> (d: ResumeDecision)
        requires
            old(self).wf(),
        ensures
            final(self).wf(),
            final(self).guid_ctr() == old(self).guid_ctr(),
            final(self).instant_lane() == old(self).instant_lane(),
            final(self).deferred_lane() == old(self).deferred_lane(),
            final(self).pending_futures() == old(self).pending_futures(),
            final(self).exit() == old(self).exit(),
            if old(self).live(reference) {
                &&& final(self).live_tasks() == old(self).live_tasks().remove(reference.guid)
                &&& d == (ResumeDecision::Run {
                    thread: old(self).live_tasks()[reference.guid].thread,
                    args: spec_resume_args(
                        old(self).live_tasks()[reference.guid],
                        override_args,
                    ),
                })
            } else {
                &&& final(self).live_tasks() == old(self).live_tasks()
                &&& d is Stale
            },
    {
        let taken = self.take_task(reference);
        proof {
            lemma_wf_after_take(*old(self), *self, reference);
        }
        match taken {
            None => ResumeDecision::Stale,
            Some(task) => {
                let (thread, args) = run_parts(task, override_args);
                ResumeDecision::Run { thread, args }
            },
        }
    }

    /// Resumes the task scheduler queue by one step, evaluating the
    /// priority order freshly: the front of the instant lane first, else
    /// the front of the deferred lane, else — when asynchronous
    /// operations are pending — the embedder is asked to await the next
    /// completion, else the run is finished. A popped reference with no
    /// backing task is a stale miss: a vacuous, silent success.
    ///
    /// The step never reports `Finished` while a task is live, and it
    /// reports `Finished` exactly when all three structures are empty —
    /// the task store is then empty too.
    pub fn resume_queue(&mut self) -> (step: SchedulerStep)
        requires
            old(self).wf(),
        ensures
            final(self).wf(),
            final(self).guid_ctr() == old(self).guid_ctr(),
            final(self).exit() == old(self).exit(),
            final(self).pending_futures() == old(self).pending_futures(),
            if old(self).instant_lane().len() > 0 {
                &&& final(self).instant_lane() == old(self).instant_lane().drop_first()
                &&& final(self).deferred_lane() == old(self).deferred_lane()
                &&& popped_outcome(
                    *old(self),
                    *final(self),
                    old(self).instant_lane()[0],
                    None,
                    step,
                )
            } else if old(self).deferred_lane().len() > 0 {
                &&& final(self).instant_lane() == old(self).instant_lane()
                &&& final(self).deferred_lane() == old(self).deferred_lane().drop_first()
                &&& popped_outcome(
                    *old(self),
                    *final(self),
                    old(self).deferred_lane()[0],
                    None,
                    step,
                )
            } else if old(self).pending_futures().len() > 0 {
                &&& *final(self) == *old(self)
                &&& step == SchedulerStep::AwaitFutures
            } else {
                &&& *final(self) == *old(self)
                &&& step == SchedulerStep::Done(
                    TaskSchedulerResult::Finished { state: old(self).state_snapshot() },
                )
                &&& old(self).live_tasks().dom() =~= Set::<usize>::empty()
            },
    {
        if self.queue_instant.len() > 0 {
            let popped = self.queue_instant.pop_front().unwrap();
            let taken = self.take_task(popped);
            proof {
                lemma_wf_after_pop(*old(self), *self, popped, TaskKind::Instant);
            }
            match taken {
                None => SchedulerStep::Done(
                    TaskSchedulerResult::TaskSuccessful { state: self.state() },
                ),
                Some(task) => {
                    let (thread, args) = run_parts(task, None);
                    SchedulerStep::Resume { reference: popped, thread, args }
                },
            }
        } else if self.queue_deferred.len() > 0 {
            let popped = self.queue_deferred.pop_front().unwrap();
            let taken = self.take_task(popped);
            proof {
                lemma_wf_after_pop(*old(self), *self, popped, TaskKind::Deferred);
            }
            match taken {
                None => SchedulerStep::Done(
                    TaskSchedulerResult::TaskSuccessful { state: self.state() },
                ),
                Some(task) => {
                    let (thread, args) = run_parts(task, None);
                    SchedulerStep::Resume { reference: popped, thread, args }
                },
            }
        } else if self.futures.len() > 0 {
            SchedulerStep::AwaitFutures
        } else {
            proof {
                crate::laws::lemma_drained_scheduler_has_empty_store(*self);
            }
            SchedulerStep::Done(TaskSchedulerResult::Finished { state: self.state() })
        }
    }

    /// Discharges the future-set entry of a completed operation, if one
    /// is still registered. The task behind it must already have been
    /// removed from the store.
    fn discharge_pending(&mut self, reference: TaskReference)
        requires
            old(self).wf(),
            !old(self).live(reference),
        ensures
            final(self).wf(),
            final(self).guid_ctr() == old(self).guid_ctr(),
            final(self).instant_lane() == old(self).instant_lane(),
            final(self).deferred_lane() == old(self).deferred_lane(),
            final(self).live_tasks() == old(self).live_tasks(),
            final(self).exit() == old(self).exit(),
            pending_discharged(
                old(self).pending_futures(),
                final(self).pending_futures(),
                reference,
            ),
    {
        let mut i: usize = 0;
        while i < self.futures.len()
            invariant
                old(self).wf(),
                !old(self).live(reference),
                *self == *old(self),
                i <= self.futures@.len(),
                forall|k: int| 0 <= k < i ==> self.futures@[k].reference != reference,
            decreases self.futures@.len() - i,
        {
            if self.futures[i].reference == reference {
                let _p = self.futures.remove(i);
                proof {
                    let pre = *old(self);
                    let post = *self;
                    assert(pre.pending_futures()[i as int].reference == reference);
                    assert(post.pending_futures() == pre.pending_futures().remove(i as int));
                    assert(pending_discharged(
                        pre.pending_futures(),
                        post.pending_futures(),
                        reference,
                    ));
                    assert forall|j: int|
                        0 <= j < post.pending_futures().len() implies {
                        &&& (#[trigger] post.pending_futures()[j]).reference.kind
                            == TaskKind::Future
                        &&& 1 <= post.pending_futures()[j].reference.guid <= post.guid_ctr()
                    } by {
                        if j < i {
                            assert(post.pending_futures()[j] == pre.pending_futures()[j]);
                        } else {
                            assert(post.pending_futures()[j] == pre.pending_futures()[j + 1]);
                        }
                    }
                    assert forall|g: usize| #[trigger]
                        post.live_tasks().dom().contains(g) implies post.queued_in(
                        post.tracked_ref(g),
                    ) by {
                        assert(pre.live_tasks().dom().contains(g));
                        assert(post.tracked_ref(g) == pre.tracked_ref(g));
                        let r = pre.tracked_ref(g);
                        assert(pre.queued_in(r));
                        match r.kind {
                            TaskKind::Future => {
                                let k = choose|k: int|
                                    0 <= k < pre.pending_futures().len()
                                        && pre.pending_futures()[k].reference == r;
                                if k == i {
                                    assert(r == reference);
                                    assert(pre.live(reference));
                                } else if k < i {
                                    assert(post.pending_futures()[k]
                                        == pre.pending_futures()[k]);
                                } else {
                                    assert(post.pending_futures()[k - 1]
                                        == pre.pending_futures()[k]);
                                }
                            },
                            TaskKind::Instant => {
                                lemma_queued_in_same_lanes(pre, post, r);
                            },
                            TaskKind::Deferred => {
                                lemma_queued_in_same_lanes(pre, post, r);
                            },
                        }
                    }
                }
                return ;
            }
            i += 1;
        }
    }

    /// Handles the completion of one asynchronous operation, reported by
    /// the embedder as the reference it belongs to and either an argument
    /// override or a failure.
    ///
    /// On failure, the owning task is cancelled — its coroutine is never
    /// resumed — and the original error is surfaced. On success, the task
    /// is resumed as if it were the next instant task, the produced
    /// arguments overriding whatever was stored; a stale reference is a
    /// vacuous success. Either way the completed entry leaves the future
    /// set.
    pub fn resume_next_queue_future(
        &mut self,
        reference: TaskReference,
        completion: Result<Option<Vec<mlua::Value>>, mlua::Error>,
    ) -> (step: SchedulerStep)
        requires
            old(self).wf(),
        ensures
            final(self).wf(),
            final(self).guid_ctr() == old(self).guid_ctr(),
            final(self).exit() == old(self).exit(),
            final(self).instant_lane() == old(self).instant_lane(),
            final(self).deferred_lane() == old(self).deferred_lane(),
            pending_discharged(
                old(self).pending_futures(),
                final(self).pending_futures(),
                reference,
            ),
            match completion {
                Err(e) => {
                    &&& final(self).live_tasks() == (if old(self).live(reference) {
                        old(self).live_tasks().remove(reference.guid)
                    } else {
                        old(self).live_tasks()
                    })
                    &&& step == SchedulerStep::Done(
                        TaskSchedulerResult::TaskErrored {
                            error: e,
                            state: final(self).state_snapshot(),
                        },
                    )
                },
                Ok(override_args) => popped_outcome(
                    *old(self),
                    *final(self),
                    reference,
                    override_args,
                    step,
                ),
            },
    {
        match completion {
            Err(e) => {
                let _cancelled = self.cancel_task(reference);
                self.discharge_pending(reference);
                SchedulerStep::Done(
                    TaskSchedulerResult::TaskErrored { error: e, state: self.state() },
                )
            },
            Ok(override_args) => {
                let taken = self.take_task(reference);
                proof {
                    lemma_wf_after_take(*old(self), *self, reference);
                }
                match taken {
                    None => {
                        self.discharge_pending(reference);
                        SchedulerStep::Done(
                            TaskSchedulerResult::TaskSuccessful { state: self.state() },
                        )
                    },
                    Some(task) => {
                        self.discharge_pending(reference);
                        let (thread, args) = run_parts(task, override_args);
                        SchedulerStep::Resume { reference, thread, args }
                    },
                }
            },
        }
    }

    /// Builds the step result for a resumption the embedder performed: a
    /// clean yield or return is a success, a raised error is surfaced
    /// once, with the current snapshot either way.
    pub fn report_resume_outcome(&self, outcome: Result<(), mlua::Error>) -> (res:
        TaskSchedulerResult)
        ensures
            match outcome {
                Ok(_) => res == (TaskSchedulerResult::TaskSuccessful {
                    state: self.state_snapshot(),
                }),
                Err(e) => res == (TaskSchedulerResult::TaskErrored {
                    error: e,
                    state: self.state_snapshot(),
                }),
            },
    {
        match outcome {
            Ok(_) => TaskSchedulerResult::TaskSuccessful { state: self.state() },
            Err(e) => TaskSchedulerResult::TaskErrored { error: e, state: self.state() },
        }
    }

    /// The number of guids issued so far; also the last guid issued.
    /// Scheduling requires this to be below `usize::MAX`, so that the
    /// next guid exists.
    pub fn issued_guids(&self) -> (n: usize)
        ensures
            n == self.guid_ctr(),
    {
        self.guid_ctr
    }

    /// Checks if a task still exists in the scheduler. A task may no
    /// longer exist if it has been cancelled, or already resumed.
    pub fn contains_task(&self, reference: TaskReference) -> (b: bool)
        ensures
            b == self.live(reference),
    {
        match self.tasks.get(&reference.guid) {
            Some(t) => t.kind == reference.kind,
            None => false,
        }
    }

    /// Cancels a task, if the task still exists in the scheduler, and
    /// returns whether anything was removed. Removal releases the
    /// coroutine handle and the stored arguments. The lanes and the
    /// future set are not touched: a stale reference left behind is
    /// treated as a silent no-op by every later consumer.
    pub fn cancel_task(&mut self, reference: TaskReference) -> (b: bool)
        requires
            old(self).wf(),
        ensures
            final(self).wf(),
            b == old(self).live(reference),
            final(self).live_tasks() == (if old(self).live(reference) {
                old(self).live_tasks().remove(reference.guid)
            } else {
                old(self).live_tasks()
            }),
            final(self).guid_ctr() == old(self).guid_ctr(),
            final(self).instant_lane() == old(self).instant_lane(),
            final(self).deferred_lane() == old(self).deferred_lane(),
            final(self).pending_futures() == old(self).pending_futures(),
            final(self).exit() == old(self).exit(),
    {
        if self.contains_task(reference) {
            let _removed = self.tasks.remove(&reference.guid);
            proof {
                assert forall|g: usize| #[trigger]
                    self.live_tasks().dom().contains(g) implies self.queued_in(
                    self.tracked_ref(g),
                ) by {
                    assert(old(self).live_tasks().dom().contains(g));
                    assert(self.tracked_ref(g) == old(self).tracked_ref(g));
                    assert(old(self).queued_in(old(self).tracked_ref(g)));
                    lemma_queued_in_same_lanes(*old(self), *self, self.tracked_ref(g));
                }
            }
            true
        } else {
            false
        }
    }
}

} // verus!
