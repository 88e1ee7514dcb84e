//! The handle manager as a mathematical state machine.
//!
//! A [`ManagerState`] is what a manager is, stripped of its representation: the two
//! policies, a counter and a set of free handles. Each operation of the manager is a
//! function from state to state here, and the executable manager is specified by them.

use vstd::prelude::*;
use crate::policy::{AllocPolicy, ReleasePolicy};

verus! {

/// The abstract state of a handle manager.
#[verifier::ext_equal]
pub struct ManagerState {
    /// How the next handle is chosen.
    pub alloc_policy: AllocPolicy,
    /// Whether released handles are remembered.
    pub release_policy: ReleasePolicy,
    /// The next value that has never been dispensed. Exactly the values below it have
    /// been minted, so the highest value ever dispensed is `highest - 1`, and there is
    /// none while `highest` is 0.
    pub highest: nat,
    /// The released handles that are remembered and may be dispensed again.
    pub freed: Set<nat>,
}

/// One request made of a manager.
pub enum Request {
    /// Ask for a handle.
    Next,
    /// Give a handle back.
    Release(nat),
    /// Ask for another allocation policy.
    ConfigureAllocPolicy(AllocPolicy),
    /// Ask for another release policy.
    ConfigureReleasePolicy(ReleasePolicy),
}

/// `handle` is the smallest member of `set`.
pub open spec fn is_lowest(set: Set<nat>, handle: nat) -> bool {
    &&& set.contains(handle)
    &&& forall|other: nat| set.contains(other) ==> handle <= other
}

/// A set of naturals with a member has a smallest member, which is at most that member.
pub proof fn lemma_lowest_exists(set: Set<nat>, member: nat)
    requires
        set.contains(member),
    ensures
        exists|lowest: nat| is_lowest(set, lowest) && lowest <= member,
    decreases member,
{
    if forall|other: nat| set.contains(other) ==> member <= other {
        assert(is_lowest(set, member));
    } else {
        let smaller = choose|other: nat| set.contains(other) && other < member;
        lemma_lowest_exists(set, smaller);
    }
}

impl ManagerState {
    /// The state of a manager that has not dispensed anything yet.
    pub open spec fn initial(alloc_policy: AllocPolicy, release_policy: ReleasePolicy) -> Self {
        ManagerState { alloc_policy, release_policy, highest: 0, freed: Set::empty() }
    }

    /// The states a manager can be in: the counter is representable, only dispensed
    /// values are free, and nothing is remembered unless releases are tracked.
    pub open spec fn wf(self) -> bool {
        &&& self.highest <= usize::MAX
        &&& forall|handle: nat| self.freed.contains(handle) ==> handle < self.highest
        &&& self.release_policy is DontTrack ==> self.freed =~= Set::empty()
    }

    /// At least one handle has been dispensed. From then on the policies are fixed.
    pub open spec fn has_dispensed(self) -> bool {
        self.highest > 0
    }

    /// `handle` is live. Without tracking this means only that it was dispensed at
    /// some time; with tracking, also that it is not free at present.
    pub open spec fn is_used(self, handle: nat) -> bool {
        match self.release_policy {
            ReleasePolicy::DontTrack => handle < self.highest,
            ReleasePolicy::Track => handle < self.highest && !self.freed.contains(handle),
        }
    }

    /// The next request for a handle will be served from the free set.
    pub open spec fn recycles(self) -> bool {
        &&& self.release_policy is Track
        &&& self.alloc_policy is RecycleLowest
        &&& exists|handle: nat| self.freed.contains(handle)
    }

    /// The smallest free handle, where there is a free handle.
    pub open spec fn lowest_free(self) -> nat {
        choose|handle: nat| is_lowest(self.freed, handle)
    }

    /// Where a handle is free, `lowest_free` is the one smallest free handle.
    pub proof fn lemma_lowest_free(self)
        requires
            exists|handle: nat| self.freed.contains(handle),
        ensures
            is_lowest(self.freed, self.lowest_free()),
            forall|handle: nat| is_lowest(self.freed, handle) ==> handle == self.lowest_free(),
    {
        let member = choose|handle: nat| self.freed.contains(handle);
        lemma_lowest_exists(self.freed, member);
    }

    /// What a request for a handle returns: the smallest free handle where the
    /// policies recycle and one is free, else the counter's value, and nothing once
    /// the counter can no longer be incremented.
    pub open spec fn next_handle(self) -> Option<nat> {
        if self.recycles() {
            Some(self.lowest_free())
        } else if self.highest < usize::MAX {
            Some(self.highest)
        } else {
            None
        }
    }

    /// The state after a request for a handle.
    pub open spec fn after_next(self) -> Self {
        if self.recycles() {
            ManagerState { freed: self.freed.remove(self.lowest_free()), ..self }
        } else if self.highest < usize::MAX {
            ManagerState { highest: self.highest + 1, ..self }
        } else {
            self
        }
    }

    /// Releasing `handle` succeeds: always without tracking, and with tracking
    /// exactly when the handle is live.
    pub open spec fn accepts_release(self, handle: nat) -> bool {
        self.release_policy is DontTrack || self.is_used(handle)
    }

    /// The state after an attempt to release `handle`. Only an accepted release under
    /// tracking changes anything: the handle joins the free set.
    pub open spec fn after_release(self, handle: nat) -> Self {
        if self.release_policy is Track && self.is_used(handle) {
            ManagerState { freed: self.freed.insert(handle), ..self }
        } else {
            self
        }
    }

    /// The state after a request for allocation policy `policy`, which is granted
    /// exactly while nothing has been dispensed.
    pub open spec fn after_alloc_policy(self, policy: AllocPolicy) -> Self {
        if self.has_dispensed() {
            self
        } else {
            ManagerState { alloc_policy: policy, ..self }
        }
    }

    /// The state after a request for release policy `policy`, which is granted
    /// exactly while nothing has been dispensed.
    pub open spec fn after_release_policy(self, policy: ReleasePolicy) -> Self {
        if self.has_dispensed() {
            self
        } else {
            ManagerState { release_policy: policy, ..self }
        }
    }

    /// The state after one request.
    pub open spec fn step(self, request: Request) -> Self {
        match request {
            Request::Next => self.after_next(),
            Request::Release(handle) => self.after_release(handle),
            Request::ConfigureAllocPolicy(policy) => self.after_alloc_policy(policy),
            Request::ConfigureReleasePolicy(policy) => self.after_release_policy(policy),
        }
    }

    /// The state after a sequence of requests, served in order.
    pub open spec fn run(self, requests: Seq<Request>) -> Self
        decreases requests.len(),
    {
        if requests.len() == 0 {
            self
        } else {
            self.run(requests.drop_last()).step(requests.last())
        }
    }
}

} // verus!
