//! The executable handle manager.

use vstd::prelude::*;
use crate::free_list::{
    ascending, lemma_element_is_member, lemma_first_is_lowest, lemma_members_insert,
    lemma_members_remove, members,
};
use crate::model::{is_lowest, ManagerState};
use crate::policy::{AllocPolicy, HandleError, ReleasePolicy};

verus! {

/// The source of new handle values. The two fields change together.
struct Counter {
    /// The next value that has never been dispensed.
    highest: usize,
    /// The highest value ever dispensed, if any.
    highest_ever: Option<usize>,
}

/// Dispenses integer handles and keeps track of which of them are live.
///
/// A manager is configured first and used afterwards: once it has dispensed a handle
/// its two policies can no longer be changed.
pub struct HandleManager {
    alloc_policy: AllocPolicy,
    release_policy: ReleasePolicy,
    counter: Counter,
    /// The free handles, in ascending order.
    freed: Vec<usize>,
}

impl View for HandleManager {
    type V = ManagerState;

    closed spec fn view(&self) -> ManagerState {
        ManagerState {
            alloc_policy: self.alloc_policy,
            release_policy: self.release_policy,
            highest: self.counter.highest as nat,
            freed: members(self.freed@),
        }
    }
}

impl Default for HandleManager {
    /// The manager that [`HandleManager::new`] returns.
    fn default() -> (manager: Self)
        ensures
            manager@.wf(),
            manager@ == ManagerState::initial(AllocPolicy::RecycleLowest, ReleasePolicy::DontTrack),
    {
        HandleManager {
            alloc_policy: AllocPolicy::RecycleLowest,
            release_policy: ReleasePolicy::DontTrack,
            counter: Counter { highest: 0, highest_ever: None },
            freed: Vec::with_capacity(0),
        }
    }
}

impl HandleManager {
    /// What holds of every manager: `highest_ever` trails `highest` by one, and the
    /// free list is ascending, holds dispensed values only, and is empty unless
    /// releases are tracked.
    #[verifier::type_invariant]
    spec fn consistent(&self) -> bool {
        &&& self.counter.highest_ever == if self.counter.highest == 0 {
            None
        } else {
            Some((self.counter.highest - 1) as usize)
        }
        &&& ascending(self.freed@)
        &&& forall|i: int| 0 <= i < self.freed@.len() ==> self.freed@[i] < self.counter.highest
        &&& self.release_policy is DontTrack ==> self.freed@.len() == 0
    }

    /// A manager with the default policies (`RecycleLowest`, `DontTrack`) that has
    /// dispensed nothing.
    pub fn new() -> (manager: Self)
        ensures
            manager@.wf(),
            manager@ == ManagerState::initial(AllocPolicy::RecycleLowest, ReleasePolicy::DontTrack),
    {
        Default::default()
    }

    /// Replaces the allocation policy. This is refused with `ConfigurationLocked`,
    /// and nothing changes, once a handle has been dispensed.
    pub fn configure_alloc_policy(&mut self, policy: AllocPolicy) -> (res: Result<(), HandleError>)
        ensures
            old(self)@.wf(),
            final(self)@.wf(),
            final(self)@ == old(self)@.after_alloc_policy(policy),
            !old(self)@.has_dispensed() ==> res == Ok::<(), HandleError>(()),
            old(self)@.has_dispensed() ==> res == Err::<(), HandleError>(
                HandleError::ConfigurationLocked,
            ) && *final(self) == *old(self),
    {
        proof {
            use_type_invariant(&*self);
        }
        if self.counter.highest_ever.is_some() {
            return Err(HandleError::ConfigurationLocked);
        }
        self.alloc_policy = policy;
        Ok(())
    }

    /// Replaces the release policy. This is refused with `ConfigurationLocked`, and
    /// nothing changes, once a handle has been dispensed.
    pub fn configure_release_policy(&mut self, policy: ReleasePolicy) -> (res: Result<
        (),
        HandleError,
    >)
        ensures
            old(self)@.wf(),
            final(self)@.wf(),
            final(self)@ == old(self)@.after_release_policy(policy),
            !old(self)@.has_dispensed() ==> res == Ok::<(), HandleError>(()),
            old(self)@.has_dispensed() ==> res == Err::<(), HandleError>(
                HandleError::ConfigurationLocked,
            ) && *final(self) == *old(self),
    {
        proof {
            use_type_invariant(&*self);
        }
        if self.counter.highest_ever.is_some() {
            return Err(HandleError::ConfigurationLocked);
        }
        assert(self.freed@.len() == 0) by {
            if self.freed@.len() > 0 {
                assert(self.freed@[0] < self.counter.highest);
            }
        }
        self.release_policy = policy;
        Ok(())
    }

    /// The manager with allocation policy `policy`, or `ConfigurationLocked` if it
    /// has already dispensed a handle.
    pub fn with_alloc_policy(self, policy: AllocPolicy) -> (res: Result<Self, HandleError>)
        ensures
            self@.wf(),
            match res {
                Ok(manager) => !self@.has_dispensed() && manager@.wf() && manager@
                    == self@.after_alloc_policy(policy),
                Err(e) => self@.has_dispensed() && e == HandleError::ConfigurationLocked,
            },
    {
        let mut manager = self;
        match manager.configure_alloc_policy(policy) {
            Ok(()) => Ok(manager),
            Err(e) => Err(e),
        }
    }

    /// The manager with release policy `policy`, or `ConfigurationLocked` if it has
    /// already dispensed a handle.
    pub fn with_release_policy(self, policy: ReleasePolicy) -> (res: Result<Self, HandleError>)
        ensures
            self@.wf(),
            match res {
                Ok(manager) => !self@.has_dispensed() && manager@.wf() && manager@
                    == self@.after_release_policy(policy),
                Err(e) => self@.has_dispensed() && e == HandleError::ConfigurationLocked,
            },
    {
        let mut manager = self;
        match manager.configure_release_policy(policy) {
            Ok(()) => Ok(manager),
            Err(e) => Err(e),
        }
    }

    /// Mints a new handle: returns the counter's value and increments the counter,
    /// unless the counter has reached the largest representable value.
    fn simple_allocate(&mut self) -> (res: Result<usize, HandleError>)
        ensures
            old(self)@.highest < usize::MAX ==> res == Ok::<usize, HandleError>(
                old(self).counter.highest,
            ) && final(self)@ == (ManagerState { highest: old(self)@.highest + 1, ..old(self)@ }),
            old(self)@.highest >= usize::MAX ==> res == Err::<usize, HandleError>(
                HandleError::OutOfHandles,
            ) && *final(self) == *old(self),
    {
        proof {
            use_type_invariant(&*self);
        }
        let result = self.counter.highest;
        if result == usize::MAX {
            Err(HandleError::OutOfHandles)
        } else {
            self.counter = Counter { highest: result + 1, highest_ever: Some(result) };
            Ok(result)
        }
    }

    /// Dispenses a handle. Where releases are tracked and the allocation policy
    /// recycles, this is the smallest free handle, if there is one. In every other
    /// case a new value is minted, and the request fails with `OutOfHandles` once
    /// the counter is exhausted.
    pub fn next(&mut self) -> (res: Result<usize, HandleError>)
        ensures
            old(self)@.wf(),
            final(self)@.wf(),
            final(self)@ == old(self)@.after_next(),
            match res {
                Ok(handle) => old(self)@.next_handle() == Some(handle as nat),
                Err(e) => e == HandleError::OutOfHandles && old(self)@.next_handle() is None,
            },
            old(self)@.recycles() ==> res is Ok && is_lowest(
                old(self)@.freed,
                res.unwrap() as nat,
            ),
    {
        proof {
            use_type_invariant(&*self);
        }
        match self.release_policy {
            ReleasePolicy::DontTrack => self.simple_allocate(),
            ReleasePolicy::Track => {
                match self.alloc_policy {
                    AllocPolicy::NeverRecycle => self.simple_allocate(),
                    AllocPolicy::RecycleLowest => {
                        if self.freed.len() > 0 {
                            proof {
                                lemma_first_is_lowest(self.freed@);
                                lemma_members_remove(self.freed@, 0);
                                assert(is_lowest(self@.freed, self.freed@[0] as nat));
                                assert(self@.lowest_free() == self.freed@[0]);
                            }
                            // The list is taken out while it changes: the manager
                            // stays consistent at every step.
                            let mut freed: Vec<usize> = Vec::new();
                            core::mem::swap(&mut freed, &mut self.freed);
                            let handle = freed.remove(0);
                            self.freed = freed;
                            assert(self@ =~= old(self)@.after_next());
                            Ok(handle)
                        } else {
                            self.simple_allocate()
                        }
                    },
                }
            },
        }
    }

    /// Whether `id` is live. Without tracking, every handle that was ever dispensed
    /// counts as live; with tracking, a dispensed handle is live until it is released.
    pub fn is_used(&self, id: usize) -> (used: bool)
        ensures
            self@.wf(),
            used == self@.is_used(id as nat),
    {
        proof {
            use_type_invariant(self);
        }
        match self.counter.highest_ever {
            None => false,
            Some(top) => {
                match self.release_policy {
                    ReleasePolicy::DontTrack => id <= top,
                    ReleasePolicy::Track => {
                        if id > top {
                            return false;
                        }
                        let mut i: usize = 0;
                        while i < self.freed.len()
                            invariant
                                self@.wf(),
                                self.release_policy is Track,
                                id < self.counter.highest,
                                i <= self.freed@.len(),
                                forall|k: int| 0 <= k < i ==> self.freed@[k] != id,
                            decreases self.freed@.len() - i,
                        {
                            if self.freed[i] == id {
                                proof {
                                    lemma_element_is_member(self.freed@, i as int);
                                }
                                return false;
                            }
                            i += 1;
                        }
                        true
                    },
                }
            },
        }
    }

    /// Gives `handle` back. Without tracking this does nothing and always succeeds.
    /// With tracking it succeeds exactly when the handle is live, and the handle then
    /// joins the free set; a handle that was never dispensed, or that is already
    /// free, is refused with `InvalidRelease` and nothing changes.
    pub fn release(&mut self, handle: usize) -> (res: Result<(), HandleError>)
        ensures
            old(self)@.wf(),
            final(self)@.wf(),
            final(self)@ == old(self)@.after_release(handle as nat),
            old(self)@.accepts_release(handle as nat) ==> res == Ok::<(), HandleError>(()),
            !old(self)@.accepts_release(handle as nat) ==> res == Err::<(), HandleError>(
                HandleError::InvalidRelease,
            ),
            res is Err || old(self)@.release_policy is DontTrack ==> *final(self) == *old(self),
    {
        proof {
            use_type_invariant(&*self);
        }
        match self.release_policy {
            ReleasePolicy::DontTrack => Ok(()),
            ReleasePolicy::Track => {
                if self.is_used(handle) {
                    let mut pos: usize = 0;
                    while pos < self.freed.len() && self.freed[pos] < handle
                        invariant
                            pos <= self.freed@.len(),
                            forall|k: int| 0 <= k < pos ==> self.freed@[k] < handle,
                        decreases self.freed@.len() - pos,
                    {
                        pos += 1;
                    }
                    proof {
                        lemma_members_insert(self.freed@, pos as int, handle);
                    }
                    // The list is taken out while it changes: the manager stays
                    // consistent at every step.
                    let mut freed: Vec<usize> = Vec::new();
                    core::mem::swap(&mut freed, &mut self.freed);
                    freed.insert(pos, handle);
                    self.freed = freed;
                    assert(self@ =~= old(self)@.after_release(handle as nat));
                    Ok(())
                } else {
                    Err(HandleError::InvalidRelease)
                }
            },
        }
    }
}

} // verus!
