//! An append-only slab of optional task wakers.
//!
//! A waiting slot parks every suspended retriever here. Each retriever owns
//! one index into the slab; indices stay stable because removal only writes
//! a tombstone (`None`) and never shifts the remaining entries.

use vstd::prelude::*;

verus! {

/// Declares `core::task::Waker` for the verifier: an opaque handle that
/// resumes a suspended task when signalled.
#[verifier::external_type_specification]
#[verifier::external_body]
pub struct ExWaker(core::task::Waker);

/// Relies on `core::task::Waker::wake`, which consumes the handle and signals
/// the task's scheduler. The effect is outside the map's state, so nothing is
/// promised of it.
pub assume_specification[ core::task::Waker::wake ](w: core::task::Waker);

/// The set of wakers parked on one waiting slot, viewed as the sequence of
/// its positions: `Some` holds a live waker, `None` is the tombstone of a
/// waiter that was dropped.
#[derive(Debug)]
pub struct WakerSet {
    wakers: Vec<Option<core::task::Waker>>,
}

impl View for WakerSet {
    type V = Seq<Option<core::task::Waker>>;

    closed spec fn view(&self) -> Seq<Option<core::task::Waker>> {
        self.wakers@
    }
}

impl WakerSet {
    /// An empty set: no positions at all.
    pub fn new() -> (s: WakerSet)
        ensures
            s@ == Seq::<Option<core::task::Waker>>::empty(),
    {
        WakerSet { wakers: Vec::new() }
    }

    /// The number of positions, tombstones included.
    pub fn len(&self) -> (n: usize)
        ensures
            n == self@.len(),
    {
        self.wakers.len()
    }

    /// Register-or-replace. A waiter whose index is out of range (the
    /// sentinel `usize::MAX`, or any other stale value) is appended and told
    /// its new, stable index; a registered waiter's position is overwritten
    /// with the fresh waker.
    pub fn replace(&mut self, waker: core::task::Waker, idx: &mut usize)
        ensures
            *old(idx) >= old(self)@.len() ==> {
                &&& final(self)@ == old(self)@.push(Some(waker))
                &&& *final(idx) == old(self)@.len()
            },
            *old(idx) < old(self)@.len() ==> {
                &&& final(self)@ == old(self)@.update(*old(idx) as int, Some(waker))
                &&& *final(idx) == *old(idx)
            },
    {
        let len = self.wakers.len();
        if *idx >= len {
            *idx = len;
            self.wakers.push(Some(waker));
        } else {
            self.wakers[*idx] = Some(waker);
        }
    }

    /// Tombstone position `idx`. Positions are never shifted, so every other
    /// waiter's index stays valid.
    pub fn remove(&mut self, idx: usize)
        requires
            idx < old(self)@.len(),
        ensures
            final(self)@ == old(self)@.update(idx as int, None::<core::task::Waker>),
    {
        self.wakers[idx] = None;
    }

    /// Drain the whole set and signal every live waker; tombstones are
    /// skipped. Consumes the set: a slot that was drained is gone.
    pub fn wake(self)
    {
        let mut wakers = self.wakers;
        while wakers.len() > 0
            decreases wakers@.len(),
        {
            let parked = wakers.pop();
            match parked {
                Some(Some(w)) => w.wake(),
                _ => (),
            }
        }
    }
}

} // verus!
