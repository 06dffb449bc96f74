//! Suspendable retrievers.
//!
//! A [`Wait`] (or [`WaitMut`]) is the state of one waiter on one key: the
//! key, and the waiter's position in the slot's waker set (`usize::MAX`
//! while unregistered). It is polled explicitly against the map; an async
//! adapter turns it into a `Future` by polling it with the task's waker and
//! calling [`Wait::abandon`] when the future is dropped unresolved.

use vstd::prelude::*;

use crate::model::is_filled;
use crate::model::is_waiting;
use crate::model::waiting_wakers;
use crate::Slot;
use crate::WaitMap;

verus! {

/// What one poll step reported.
#[derive(Clone, Copy, PartialEq, Eq, Structural, Debug)]
pub enum WaitPoll {
    /// The slot is waiting; the waker is parked and the waiter must be
    /// polled again after a wake.
    Pending,
    /// The key is absent (never present, or cancelled): the waiter resolves
    /// to nothing.
    Absent,
    /// The slot is filled: the waiter resolves, and the value is read
    /// through [`WaitMap::get`] or [`WaitMap::get_mut`].
    Filled,
}

/// A waiter that resolves to read access, made by [`WaitMap::wait`].
pub struct Wait {
    key: String,
    idx: usize,
}

impl Wait {
    /// The key waited on.
    pub closed spec fn key_view(&self) -> Seq<char> {
        self.key@
    }

    /// The waiter's position in the slot's waker set, `usize::MAX` while it
    /// is not registered.
    pub closed spec fn waker_index(&self) -> int {
        self.idx as int
    }

    /// No waker of this waiter is parked anywhere.
    pub open spec fn is_unregistered(&self) -> bool {
        self.waker_index() == usize::MAX as int
    }

    pub(crate) fn new(key: String) -> (w: Wait)
        ensures
            w.key_view() == key@,
            w.is_unregistered(),
    {
        Wait { key, idx: usize::MAX }
    }

    /// One poll step: resolve against a filled or absent slot, or park
    /// `waker` in the waiting slot (register-or-replace at this waiter's
    /// position, so re-polling with a fresh waker is harmless) and stay
    /// pending.
    pub fn poll<V>(&mut self, map: &mut WaitMap<V>, waker: core::task::Waker) -> (r: WaitPoll)
        requires
            old(map).wf(),
        ensures
            final(map).wf(),
            final(self).key_view() == old(self).key_view(),
            match r {
                WaitPoll::Absent => {
                    &&& !old(map)@.contains_key(old(self).key_view())
                    &&& final(map)@ == old(map)@
                    &&& *final(self) == *old(self)
                },
                WaitPoll::Filled => {
                    &&& is_filled(old(map)@, old(self).key_view())
                    &&& final(map)@ == old(map)@
                    &&& final(self).is_unregistered()
                },
                WaitPoll::Pending => {
                    &&& is_waiting(old(map)@, old(self).key_view())
                    &&& ({
                        let k = old(self).key_view();
                        let ws = waiting_wakers(old(map)@[k]);
                        if 0 <= old(self).waker_index() < ws.len() {
                            &&& final(map)@ == old(map)@.insert(
                                k,
                                Slot::Waiting(ws.update(old(self).waker_index(), Some(waker))),
                            )
                            &&& final(self).waker_index() == old(self).waker_index()
                        } else {
                            &&& final(map)@ == old(map)@.insert(
                                k,
                                Slot::Waiting(ws.push(Some(waker))),
                            )
                            &&& final(self).waker_index() == ws.len()
                        }
                    })
                },
            },
    {
        map.poll_slot(&self.key, waker, &mut self.idx)
    }

    /// What dropping the waiter before it resolved does: tombstone its
    /// parked waker, if the slot still waits and still has that position.
    /// Every other waiter's position is untouched, and nothing `get` can see
    /// changes.
    pub fn abandon<V>(self, map: &mut WaitMap<V>)
        requires
            old(map).wf(),
        ensures
            final(map).wf(),
            ({
                let m = old(map)@;
                let k = self.key_view();
                if !self.is_unregistered() && is_waiting(m, k) && self.waker_index()
                    < waiting_wakers(m[k]).len() {
                    final(map)@ == m.insert(
                        k,
                        Slot::Waiting(
                            waiting_wakers(m[k]).update(
                                self.waker_index(),
                                None::<core::task::Waker>,
                            ),
                        ),
                    )
                } else {
                    final(map)@ == m
                }
            }),
    {
        if self.idx != usize::MAX {
            map.remove_parked(&self.key, self.idx);
        }
    }
}

/// A waiter that resolves to write access, made by [`WaitMap::wait_mut`].
/// Same state machine as [`Wait`]; it resolves through
/// [`WaitMap::get_mut`] instead of [`WaitMap::get`].
pub struct WaitMut {
    key: String,
    idx: usize,
}

impl WaitMut {
    /// The key waited on.
    pub closed spec fn key_view(&self) -> Seq<char> {
        self.key@
    }

    /// The waiter's position in the slot's waker set, `usize::MAX` while it
    /// is not registered.
    pub closed spec fn waker_index(&self) -> int {
        self.idx as int
    }

    /// No waker of this waiter is parked anywhere.
    pub open spec fn is_unregistered(&self) -> bool {
        self.waker_index() == usize::MAX as int
    }

    pub(crate) fn new(key: String) -> (w: WaitMut)
        ensures
            w.key_view() == key@,
            w.is_unregistered(),
    {
        WaitMut { key, idx: usize::MAX }
    }

    /// One poll step; the contract is that of [`Wait::poll`].
    pub fn poll<V>(&mut self, map: &mut WaitMap<V>, waker: core::task::Waker) -> (r: WaitPoll)
        requires
            old(map).wf(),
        ensures
            final(map).wf(),
            final(self).key_view() == old(self).key_view(),
            match r {
                WaitPoll::Absent => {
                    &&& !old(map)@.contains_key(old(self).key_view())
                    &&& final(map)@ == old(map)@
                    &&& *final(self) == *old(self)
                },
                WaitPoll::Filled => {
                    &&& is_filled(old(map)@, old(self).key_view())
                    &&& final(map)@ == old(map)@
                    &&& final(self).is_unregistered()
                },
                WaitPoll::Pending => {
                    &&& is_waiting(old(map)@, old(self).key_view())
                    &&& ({
                        let k = old(self).key_view();
                        let ws = waiting_wakers(old(map)@[k]);
                        if 0 <= old(self).waker_index() < ws.len() {
                            &&& final(map)@ == old(map)@.insert(
                                k,
                                Slot::Waiting(ws.update(old(self).waker_index(), Some(waker))),
                            )
                            &&& final(self).waker_index() == old(self).waker_index()
                        } else {
                            &&& final(map)@ == old(map)@.insert(
                                k,
                                Slot::Waiting(ws.push(Some(waker))),
                            )
                            &&& final(self).waker_index() == ws.len()
                        }
                    })
                },
            },
    {
        map.poll_slot(&self.key, waker, &mut self.idx)
    }

    /// Drop-time cleanup; the contract is that of [`Wait::abandon`].
    pub fn abandon<V>(self, map: &mut WaitMap<V>)
        requires
            old(map).wf(),
        ensures
            final(map).wf(),
            ({
                let m = old(map)@;
                let k = self.key_view();
                if !self.is_unregistered() && is_waiting(m, k) && self.waker_index()
                    < waiting_wakers(m[k]).len() {
                    final(map)@ == m.insert(
                        k,
                        Slot::Waiting(
                            waiting_wakers(m[k]).update(
                                self.waker_index(),
                                None::<core::task::Waker>,
                            ),
                        ),
                    )
                } else {
                    final(map)@ == m
                }
            }),
    {
        if self.idx != usize::MAX {
            map.remove_parked(&self.key, self.idx);
        }
    }
}

} // verus!
