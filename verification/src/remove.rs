//! The taking retriever.
//!
//! A [`Remove`], made by [`WaitMap::remove_wait`], waits like a [`Wait`] but
//! resolves by taking the filled pair out of the map. When several removers
//! compete for one key, the slot's removal on first resolution guarantees
//! that exactly one of them obtains the pair: every later one finds the key
//! absent and resolves to nothing.
//!
//! [`Wait`]: crate::wait::Wait

use vstd::prelude::*;

use crate::model::is_filled;
use crate::model::is_waiting;
use crate::model::filled_value;
use crate::model::waiting_wakers;
use crate::Slot;
use crate::WaitMap;

verus! {

/// What one poll step of a remover reported.
pub enum RemovePoll<V> {
    /// The slot is waiting; the waker is parked and the remover must be
    /// polled again after a wake.
    Pending,
    /// Resolved: `Some` carries the pair taken out of the map; `None` means
    /// the key was absent (never present, cancelled, or already taken by a
    /// competing remover).
    Ready(Option<(String, V)>),
}

/// A waiter that resolves by taking the pair out of the map.
pub struct Remove {
    key: String,
    idx: usize,
}

impl Remove {
    /// The key waited on.
    pub closed spec fn key_view(&self) -> Seq<char> {
        self.key@
    }

    /// The remover's position in the slot's waker set, `usize::MAX` while it
    /// is not registered.
    pub closed spec fn waker_index(&self) -> int {
        self.idx as int
    }

    /// No waker of this remover is parked anywhere.
    pub open spec fn is_unregistered(&self) -> bool {
        self.waker_index() == usize::MAX as int
    }

    pub(crate) fn new(key: String) -> (w: Remove)
        ensures
            w.key_view() == key@,
            w.is_unregistered(),
    {
        Remove { key, idx: usize::MAX }
    }

    /// One poll step: an absent key resolves to `Ready(None)`; a filled slot
    /// is removed whole and resolves to `Ready(Some(pair))`; a waiting slot
    /// parks `waker` at this remover's position and stays pending.
    pub fn poll<V>(&mut self, map: &mut WaitMap<V>, waker: core::task::Waker) -> (r: RemovePoll<
        V,
    >)
        requires
            old(map).wf(),
        ensures
            final(map).wf(),
            final(self).key_view() == old(self).key_view(),
            match r {
                RemovePoll::Pending => {
                    &&& is_waiting(old(map)@, old(self).key_view())
                    &&& ({
                        let k = old(self).key_view();
                        let ws = waiting_wakers(old(map)@[k]);
                        if 0 <= old(self).waker_index() < ws.len() {
                            &&& final(map)@ == old(map)@.insert(
                                k,
                                Slot::Waiting(ws.update(old(self).waker_index(), Some(waker))),
                            )
                            &&& final(self).waker_index() == old(self).waker_index()
                        } else {
                            &&& final(map)@ == old(map)@.insert(
                                k,
                                Slot::Waiting(ws.push(Some(waker))),
                            )
                            &&& final(self).waker_index() == ws.len()
                        }
                    })
                },
                RemovePoll::Ready(resolved) => match resolved {
                    None => {
                        &&& !old(map)@.contains_key(old(self).key_view())
                        &&& final(map)@ == old(map)@
                        &&& *final(self) == *old(self)
                    },
                    Some(pair) => {
                        &&& is_filled(old(map)@, old(self).key_view())
                        &&& pair.0@ == old(self).key_view()
                        &&& pair.1 == filled_value(old(map)@[old(self).key_view()])
                        &&& final(map)@ == old(map)@.remove(old(self).key_view())
                        &&& final(self).is_unregistered()
                    },
                },
            },
    {
        match map.poll_take(&self.key, waker, &mut self.idx) {
            None => RemovePoll::Pending,
            Some(resolved) => RemovePoll::Ready(resolved),
        }
    }

    /// Drop-time cleanup; the contract is that of [`Wait::abandon`].
    ///
    /// [`Wait::abandon`]: crate::wait::Wait::abandon
    pub fn abandon<V>(self, map: &mut WaitMap<V>)
        requires
            old(map).wf(),
        ensures
            final(map).wf(),
            ({
                let m = old(map)@;
                let k = self.key_view();
                if !self.is_unregistered() && is_waiting(m, k) && self.waker_index()
                    < waiting_wakers(m[k]).len() {
                    final(map)@ == m.insert(
                        k,
                        Slot::Waiting(
                            waiting_wakers(m[k]).update(
                                self.waker_index(),
                                None::<core::task::Waker>,
                            ),
                        ),
                    )
                } else {
                    final(map)@ == m
                }
            }),
    {
        if self.idx != usize::MAX {
            map.remove_parked(&self.key, self.idx);
        }
    }
}

} // verus!
