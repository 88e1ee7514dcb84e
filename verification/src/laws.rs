//! What holds of every manager, whatever requests it serves.
//!
//! The laws are stated over [`ManagerState`], the model by which the executable
//! manager's operations are specified, so each of them holds of the executable
//! manager too.

use vstd::prelude::*;
use crate::model::{is_lowest, ManagerState, Request};
use crate::policy::{AllocPolicy, ReleasePolicy};

verus! {

/// `count` requests for a handle, and nothing else.
pub open spec fn nexts(count: nat) -> Seq<Request> {
    Seq::new(count, |i: int| Request::Next)
}

/// No request leads out of the states a manager can be in, and none decrements the
/// counter.
pub proof fn lemma_step_preserves_wf(state: ManagerState, request: Request)
    requires
        state.wf(),
    ensures
        state.step(request).wf(),
        state.step(request).highest >= state.highest,
{
    if request is Next && state.recycles() {
        state.lemma_lowest_free();
    }
}

/// No sequence of requests leads out of the states a manager can be in, and the
/// counter never decreases: it is not reset by a release, nor by anything else.
pub proof fn lemma_run_preserves_wf(state: ManagerState, requests: Seq<Request>)
    requires
        state.wf(),
    ensures
        state.run(requests).wf(),
        state.run(requests).highest >= state.highest,
    decreases requests.len(),
{
    if requests.len() > 0 {
        lemma_run_preserves_wf(state, requests.drop_last());
        lemma_step_preserves_wf(state.run(requests.drop_last()), requests.last());
    }
}

/// A free handle has been dispensed and is not live.
pub proof fn lemma_free_handles_are_not_live(state: ManagerState, handle: nat)
    requires
        state.wf(),
        state.freed.contains(handle),
    ensures
        handle < state.highest,
        !state.is_used(handle),
{
}

/// A handle that is dispensed was not live before, and is live afterwards: no handle
/// is held twice at the same time.
pub proof fn lemma_dispensed_handle_becomes_live(state: ManagerState)
    requires
        state.wf(),
        state.next_handle() is Some,
    ensures
        !state.is_used(state.next_handle().unwrap()),
        state.after_next().is_used(state.next_handle().unwrap()),
{
    if state.recycles() {
        state.lemma_lowest_free();
    }
}

/// Lowest-first recycling: where a handle is dispensed from the free set, it is the
/// smallest free handle, and it leaves the free set.
pub proof fn lemma_recycling_takes_lowest(state: ManagerState)
    requires
        state.wf(),
        state.recycles(),
    ensures
        state.next_handle() is Some,
        is_lowest(state.freed, state.next_handle().unwrap()),
        state.after_next().freed == state.freed.remove(state.next_handle().unwrap()),
        state.after_next().highest == state.highest,
{
    state.lemma_lowest_free();
}

/// Monotonic freshness: without tracking, successive requests for a handle return
/// successive integers. From a state with counter `c` the request after `count`
/// earlier ones returns `c + count`, so a new manager dispenses 0, 1, 2, and so on.
pub proof fn lemma_fresh_handles_count_up(state: ManagerState, count: nat)
    requires
        state.wf(),
        state.release_policy is DontTrack,
        state.highest + count < usize::MAX,
    ensures
        state.run(nexts(count)) == (ManagerState { highest: state.highest + count, ..state }),
        state.run(nexts(count)).next_handle() == Some(state.highest + count),
    decreases count,
{
    if count > 0 {
        let earlier = (count - 1) as nat;
        lemma_fresh_handles_count_up(state, earlier);
        assert(nexts(count).drop_last() =~= nexts(earlier));
        assert(nexts(count).last() == Request::Next);
        assert(state.run(nexts(count)) == state.run(nexts(earlier)).after_next());
    }
    let reached = ManagerState { highest: state.highest + count, ..state };
    assert(state.run(nexts(count)) =~= reached);
    assert(!reached.recycles());
}

/// A new manager without tracking dispenses 0, 1, 2, and so on: its request number
/// `count`, counted from 0, returns `count`.
pub proof fn lemma_new_manager_counts_from_zero(alloc_policy: AllocPolicy, count: nat)
    requires
        count < usize::MAX,
    ensures
        ManagerState::initial(alloc_policy, ReleasePolicy::DontTrack).run(
            nexts(count),
        ).next_handle() == Some(count),
{
    lemma_fresh_handles_count_up(
        ManagerState::initial(alloc_policy, ReleasePolicy::DontTrack),
        count,
    );
}

/// Double-free rejection: with tracking, releasing a live handle succeeds and leaves
/// it not live, and releasing it once more is refused and changes nothing.
pub proof fn lemma_double_release_is_refused(state: ManagerState, handle: nat)
    requires
        state.wf(),
        state.release_policy is Track,
        state.is_used(handle),
    ensures
        state.accepts_release(handle),
        !state.after_release(handle).is_used(handle),
        !state.after_release(handle).accepts_release(handle),
        state.after_release(handle).after_release(handle) == state.after_release(handle),
{
}

/// Configuration lock: after a request for a handle, whatever requests follow, the
/// manager has dispensed a handle and its policies are those it had. Every request
/// for another policy is then refused and changes nothing.
pub proof fn lemma_configuration_locks(
    state: ManagerState,
    requests: Seq<Request>,
    alloc_policy: AllocPolicy,
    release_policy: ReleasePolicy,
)
    requires
        state.wf(),
    ensures
        ({
            let later = state.after_next().run(requests);
            &&& later.has_dispensed()
            &&& later.alloc_policy == state.alloc_policy
            &&& later.release_policy == state.release_policy
            &&& later.after_alloc_policy(alloc_policy) == later
            &&& later.after_release_policy(release_policy) == later
        }),
{
    if state.recycles() {
        state.lemma_lowest_free();
    }
    lemma_step_preserves_wf(state, Request::Next);
    lemma_policies_stay(state.after_next(), requests);
}

/// Once a manager has dispensed a handle, no sequence of requests changes its
/// policies.
pub proof fn lemma_policies_stay(state: ManagerState, requests: Seq<Request>)
    requires
        state.wf(),
        state.has_dispensed(),
    ensures
        state.run(requests).wf(),
        state.run(requests).highest >= state.highest,
        state.run(requests).alloc_policy == state.alloc_policy,
        state.run(requests).release_policy == state.release_policy,
    decreases requests.len(),
{
    if requests.len() > 0 {
        lemma_policies_stay(state, requests.drop_last());
        lemma_step_preserves_wf(state.run(requests.drop_last()), requests.last());
    }
}

/// Never-recycle isolation: with tracking and without recycling, a handle that has
/// been dispensed is not live after its release, and no request for a handle returns
/// it again, whatever requests come in between.
pub proof fn lemma_never_recycle_isolation(
    state: ManagerState,
    handle: nat,
    requests: Seq<Request>,
)
    requires
        state.wf(),
        state.release_policy is Track,
        state.alloc_policy is NeverRecycle,
        handle < state.highest,
    ensures
        !state.after_release(handle).is_used(handle),
        state.after_release(handle).run(requests).next_handle() != Some(handle),
{
    lemma_step_preserves_wf(state, Request::Release(handle));
    lemma_policies_stay(state.after_release(handle), requests);
}

/// Without tracking, a release always succeeds and changes nothing, whether or not
/// the handle was ever dispensed.
pub proof fn lemma_untracked_release_is_idle(state: ManagerState, handle: nat)
    requires
        state.release_policy is DontTrack,
    ensures
        state.accepts_release(handle),
        state.after_release(handle) == state,
{
}

/// Without tracking nothing is recycled: whatever requests are served, a handle
/// that is dispensed afterwards is none of those dispensed before.
pub proof fn lemma_untracked_handles_are_new(state: ManagerState, requests: Seq<Request>)
    requires
        state.wf(),
        state.release_policy is DontTrack,
    ensures
        state.run(requests).next_handle() matches Some(handle) ==> handle >= state.highest,
{
    if state.has_dispensed() {
        lemma_policies_stay(state, requests);
    }
}

} // verus!
