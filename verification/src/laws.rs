//! Properties that hold of every well-formed scheduler, stated and
//! proved once and for all.

use vstd::prelude::*;

use crate::outcome::SchedulerStep;
use crate::outcome::TaskSchedulerResult;
use crate::scheduler::popped_outcome;
use crate::scheduler::task_created;
use crate::scheduler::TaskScheduler;
use crate::task::TaskKind;
use crate::task::TaskReference;

verus! {

/// Guids are unique across the lifetime of one scheduler instance,
/// regardless of kind: any guid strictly above the counter — in
/// particular the next one a scheduling call issues — is neither live in
/// the store nor queued in a lane or the future set.
pub proof fn lemma_fresh_guid_untracked(s: TaskScheduler, g: usize)
    requires
        s.wf(),
        g > s.guid_ctr(),
    ensures
        !s.live_tasks().dom().contains(g),
        forall|i: int|
            0 <= i < s.instant_lane().len() ==> (#[trigger] s.instant_lane()[i]).guid != g,
        forall|i: int|
            0 <= i < s.deferred_lane().len() ==> (#[trigger] s.deferred_lane()[i]).guid != g,
        forall|i: int|
            0 <= i < s.pending_futures().len() ==> (#[trigger] s.pending_futures()[i]).reference.guid
                != g,
{
}

/// Guids strictly increase: the reference a scheduling call creates has
/// a guid strictly above every guid the scheduler tracked before the
/// call, live or queued, regardless of kind.
pub proof fn lemma_guids_strictly_increase(
    pre: TaskScheduler,
    post: TaskScheduler,
    tr: TaskReference,
    kind: TaskKind,
    args: Option<Vec<mlua::Value>>,
)
    requires
        pre.wf(),
        task_created(pre, post, tr, kind, args),
    ensures
        forall|g: usize| #[trigger] pre.live_tasks().dom().contains(g) ==> g < tr.guid,
        forall|i: int|
            0 <= i < pre.instant_lane().len() ==> (#[trigger] pre.instant_lane()[i]).guid
                < tr.guid,
        forall|i: int|
            0 <= i < pre.deferred_lane().len() ==> (#[trigger] pre.deferred_lane()[i]).guid
                < tr.guid,
        forall|i: int|
            0 <= i < pre.pending_futures().len() ==> (
            #[trigger] pre.pending_futures()[i]).reference.guid < tr.guid,
{
}

/// While its task exists, a reference appears in exactly one of the two
/// lanes and the future set — the structure its kind assigns it to — and
/// at exactly one position there.
pub proof fn lemma_live_reference_queued_exactly_once(s: TaskScheduler, r: TaskReference)
    requires
        s.wf(),
        s.live(r),
    ensures
        s.queued_in(r),
        r.kind != TaskKind::Instant ==> forall|i: int|
            0 <= i < s.instant_lane().len() ==> (#[trigger] s.instant_lane()[i]) != r,
        r.kind != TaskKind::Deferred ==> forall|i: int|
            0 <= i < s.deferred_lane().len() ==> (#[trigger] s.deferred_lane()[i]) != r,
        r.kind != TaskKind::Future ==> forall|i: int|
            0 <= i < s.pending_futures().len() ==> (#[trigger] s.pending_futures()[i]).reference
                != r,
        forall|i: int, j: int|
            (0 <= i < s.instant_lane().len() && 0 <= j < s.instant_lane().len()
                && s.instant_lane()[i] == r && s.instant_lane()[j] == r) ==> i == j,
        forall|i: int, j: int|
            (0 <= i < s.deferred_lane().len() && 0 <= j < s.deferred_lane().len()
                && s.deferred_lane()[i] == r && s.deferred_lane()[j] == r) ==> i == j,
        forall|i: int, j: int|
            (0 <= i < s.pending_futures().len() && 0 <= j < s.pending_futures().len()
                && s.pending_futures()[i].reference == r && s.pending_futures()[j].reference == r)
                ==> i == j,
{
    assert(s.live_tasks().dom().contains(r.guid));
    assert(s.tracked_ref(r.guid) == r);
    assert(s.queued_in(s.tracked_ref(r.guid)));
}

/// After a successful cancellation the reference is stale: the store no
/// longer backs it, so cancelling again returns false by the
/// cancellation contract.
pub proof fn lemma_cancelled_is_stale(pre: TaskScheduler, post: TaskScheduler, r: TaskReference)
    requires
        pre.live(r),
        post.live_tasks() == pre.live_tasks().remove(r.guid),
    ensures
        !post.live(r),
{
}

/// A step that pops a stale reference — one cancelled earlier, however
/// it is still queued — reports a vacuous success and resumes nothing:
/// the store is untouched and no coroutine is handed out.
pub proof fn lemma_stale_pop_is_vacuous(
    pre: TaskScheduler,
    post: TaskScheduler,
    r: TaskReference,
    override_args: Option<Vec<mlua::Value>>,
    step: SchedulerStep,
)
    requires
        !pre.live(r),
        popped_outcome(pre, post, r, override_args, step),
    ensures
        step == SchedulerStep::Done(
            TaskSchedulerResult::TaskSuccessful { state: post.state_snapshot() },
        ),
        post.live_tasks() == pre.live_tasks(),
{
}

/// The scheduler reports `Finished` only with an empty task store: once
/// both lanes and the future set are drained — the exact case in which
/// the step protocol reports `Finished` — well-formedness leaves no live
/// task anywhere.
pub proof fn lemma_drained_scheduler_has_empty_store(s: TaskScheduler)
    requires
        s.wf(),
        s.instant_lane().len() == 0,
        s.deferred_lane().len() == 0,
        s.pending_futures().len() == 0,
    ensures
        s.live_tasks().dom() =~= Set::<usize>::empty(),
        s.live_tasks().len() == 0,
{
    assert forall|g: usize| !(#[trigger] s.live_tasks().dom().contains(g)) by {
        if s.live_tasks().dom().contains(g) {
            assert(s.queued_in(s.tracked_ref(g)));
        }
    }
    assert(s.live_tasks().dom() =~= Set::<usize>::empty());
}

} // verus!
