//! An associative container with suspendable retrieval.
//!
//! `WaitMap` is a key/value store in which a retriever may *wait* for a key
//! that is not yet present: the map parks the retriever's waker in a
//! placeholder slot, and a later `insert` of that key signals every parked
//! waker. Waits can be cancelled per key or wholesale, in which case the
//! waiters resolve to "absent" instead of staying parked forever.
//!
//! The map itself is a sequential, fully specified core: every operation is
//! a plain method on `&self` or `&mut self`, and the suspendable retrievers
//! (`Wait`, `WaitMut`, `Remove`) are explicit poll-style state machines. An
//! async executor adapter can wrap these methods in `Future` types; the slot
//! state machine, which is the heart of the container, is verified here.

pub mod entry;
pub mod model;
pub mod remove;
pub mod wait;
pub mod waker_set;

pub use entry::Entry;
pub use entry::OccupiedEntry;
pub use entry::VacantEntry;
pub use model::Slot;
pub use model::SlotMap;
pub use remove::Remove;
pub use remove::RemovePoll;
pub use wait::Wait;
pub use wait::WaitMut;
pub use wait::WaitPoll;
pub use waker_set::WakerSet;

use vstd::prelude::*;

use model::after_cancel;
use model::after_cancel_all;
use model::after_insert;
use model::after_wait;
use model::cancel_returns;
use model::filled_keys;
use model::filled_value;
use model::insert_returns;
use model::is_filled;
use model::is_waiting;

verus! {

/// One key's storage cell: either the parked wakers of the retrievers
/// suspended on the key, or the key's value.
pub enum WaitEntry<V> {
    Waiting(WakerSet),
    Filled(V),
}

/// The slot that a stored entry stands for.
pub open spec fn slot_of<V>(e: WaitEntry<V>) -> Slot<V> {
    match e {
        WaitEntry::Waiting(ws) => Slot::Waiting(ws@),
        WaitEntry::Filled(v) => Slot::Filled(v),
    }
}

/// No key occurs twice in the store.
pub open spec fn distinct_keys<V>(s: Seq<(String, WaitEntry<V>)>) -> bool {
    forall|i: int, j: int| 0 <= i < j < s.len() ==> s[i].0@ != s[j].0@
}

/// The map that a store stands for, taken pair by pair.
pub open spec fn slot_map_of<V>(s: Seq<(String, WaitEntry<V>)>) -> SlotMap<V>
    decreases s.len(),
{
    if s.len() == 0 {
        Map::empty()
    } else {
        slot_map_of(s.drop_last()).insert(s.last().0@, slot_of(s.last().1))
    }
}

/// A key is in the map iff some pair of the store holds it.
proof fn lemma_map_of_contains<V>(s: Seq<(String, WaitEntry<V>)>, k: Seq<char>)
    ensures
        slot_map_of(s).contains_key(k) <==> exists|i: int| 0 <= i < s.len() && s[i].0@ == k,
    decreases s.len(),
{
    if s.len() > 0 {
        lemma_map_of_contains(s.drop_last(), k);
        if s.last().0@ == k {
            assert(s[s.len() - 1].0@ == k);
        } else {
            assert(slot_map_of(s).contains_key(k) <==> slot_map_of(s.drop_last()).contains_key(k));
            if exists|i: int| 0 <= i < s.len() && s[i].0@ == k {
                let i = choose|i: int| 0 <= i < s.len() && s[i].0@ == k;
                assert(i < s.len() - 1);
                assert(s.drop_last()[i].0@ == k);
            }
            if exists|i: int| 0 <= i < s.drop_last().len() && s.drop_last()[i].0@ == k {
                let i = choose|i: int| 0 <= i < s.drop_last().len() && s.drop_last()[i].0@ == k;
                assert(s[i].0@ == k);
            }
        }
    }
}

/// With distinct keys, the map sends each stored key to its own entry's slot.
proof fn lemma_map_of_index<V>(s: Seq<(String, WaitEntry<V>)>, i: int)
    requires
        distinct_keys(s),
        0 <= i < s.len(),
    ensures
        slot_map_of(s).contains_key(s[i].0@),
        slot_map_of(s)[s[i].0@] == slot_of(s[i].1),
    decreases s.len(),
{
    if i == s.len() - 1 {
    } else {
        assert(s[i].0@ != s.last().0@);
        assert(s.drop_last()[i] == s[i]);
        lemma_map_of_index(s.drop_last(), i);
    }
}

/// Appending a pair inserts its slot under its key.
proof fn lemma_map_of_push<V>(s: Seq<(String, WaitEntry<V>)>, p: (String, WaitEntry<V>))
    ensures
        slot_map_of(s.push(p)) == slot_map_of(s).insert(p.0@, slot_of(p.1)),
{
    assert(s.push(p).drop_last() =~= s);
    assert(s.push(p).last() == p);
}

/// Removing the pair at `i` removes its key from the map.
proof fn lemma_map_of_remove<V>(s: Seq<(String, WaitEntry<V>)>, i: int)
    requires
        distinct_keys(s),
        0 <= i < s.len(),
    ensures
        slot_map_of(s.remove(i)) == slot_map_of(s).remove(s[i].0@),
        distinct_keys(s.remove(i)),
    decreases s.len(),
{
    assert(distinct_keys(s.remove(i))) by {
        assert forall|p: int, q: int| 0 <= p < q < s.remove(i).len() implies s.remove(i)[p].0@
            != s.remove(i)[q].0@ by {
            let p0 = if p < i { p } else { p + 1 };
            let q0 = if q < i { q } else { q + 1 };
            assert(s.remove(i)[p] == s[p0]);
            assert(s.remove(i)[q] == s[q0]);
        }
    }
    if i == s.len() - 1 {
        assert(s.remove(i) =~= s.drop_last());
        lemma_map_of_contains(s.drop_last(), s[i].0@);
        assert(forall|j: int| 0 <= j < s.drop_last().len() ==> s.drop_last()[j] == s[j]);
        assert(!slot_map_of(s.drop_last()).contains_key(s[i].0@));
        assert(slot_map_of(s.drop_last()) =~= slot_map_of(s).remove(s[i].0@));
    } else {
        lemma_map_of_remove(s.drop_last(), i);
        assert(s.remove(i).drop_last() =~= s.drop_last().remove(i));
        assert(s.remove(i).last() == s.last());
        assert(s[i].0@ != s.last().0@);
        assert(slot_map_of(s.remove(i)) =~= slot_map_of(s).remove(s[i].0@));
    }
}

/// Replacing the pair at `i`, key kept, re-points the key at the new slot.
proof fn lemma_map_of_update<V>(s: Seq<(String, WaitEntry<V>)>, i: int, e: WaitEntry<V>)
    requires
        distinct_keys(s),
        0 <= i < s.len(),
    ensures
        slot_map_of(s.update(i, (s[i].0, e))) == slot_map_of(s).insert(s[i].0@, slot_of(e)),
        distinct_keys(s.update(i, (s[i].0, e))),
    decreases s.len(),
{
    let t = s.update(i, (s[i].0, e));
    assert(distinct_keys(t)) by {
        assert(forall|j: int| 0 <= j < t.len() ==> t[j].0@ == s[j].0@);
    }
    if i == s.len() - 1 {
        assert(t.drop_last() =~= s.drop_last());
        assert(t.last() == (s[i].0, e));
        lemma_map_of_contains(s.drop_last(), s[i].0@);
        assert(forall|j: int| 0 <= j < s.drop_last().len() ==> s.drop_last()[j] == s[j]);
        assert(!slot_map_of(s.drop_last()).contains_key(s[i].0@));
        assert(slot_map_of(t) =~= slot_map_of(s).insert(s[i].0@, slot_of(e)));
    } else {
        lemma_map_of_update(s.drop_last(), i, e);
        assert(t.drop_last() =~= s.drop_last().update(i, (s[i].0, e)));
        assert(t.last() == s.last());
        assert(s[i].0@ != s.last().0@);
        assert(slot_map_of(t) =~= slot_map_of(s).insert(s[i].0@, slot_of(e)));
    }
}

/// The container: a store of key/slot pairs with pairwise distinct keys.
pub struct WaitMap<V> {
    entries: Vec<(String, WaitEntry<V>)>,
}

impl<V> View for WaitMap<V> {
    type V = SlotMap<V>;

    closed spec fn view(&self) -> SlotMap<V> {
        slot_map_of(self.entries@)
    }
}

impl<V> WaitMap<V> {
    /// The store holds each key at most once. Established by `new` and
    /// preserved by every operation.
    pub closed spec fn wf(&self) -> bool {
        distinct_keys(self.entries@)
    }

    /// Make an empty map.
    pub fn new() -> (m: WaitMap<V>)
        ensures
            m.wf(),
            m@ == Map::<Seq<char>, Slot<V>>::empty(),
    {
        WaitMap { entries: Vec::new() }
    }

    /// Where `key`'s pair stands in the store, if anywhere.
    fn position_of(&self, key: &String) -> (r: Option<usize>)
        requires
            self.wf(),
        ensures
            match r {
                Some(i) => {
                    &&& i < self.entries@.len()
                    &&& self.entries@[i as int].0@ == key@
                    &&& self@.contains_key(key@)
                    &&& self@[key@] == slot_of(self.entries@[i as int].1)
                },
                None => !self@.contains_key(key@),
            },
    {
        let n = self.entries.len();
        let mut i: usize = 0;
        while i < n
            invariant
                self.wf(),
                n == self.entries@.len(),
                0 <= i <= n,
                forall|j: int| 0 <= j < i ==> self.entries@[j].0@ != key@,
            decreases n - i,
        {
            let pair = &self.entries[i];
            if pair.0.eq(key) {
                proof {
                    lemma_map_of_index(self.entries@, i as int);
                }
                return Some(i);
            }
            i += 1;
        }
        proof {
            lemma_map_of_contains(self.entries@, key@);
        }
        None
    }

    /// Insert `value` under `key`. Returns the value the key held before, if
    /// it held one. If retrievers were waiting on the key, their slot is
    /// filled in place and every parked waker is signalled, after the store
    /// has been updated.
    pub fn insert(&mut self, key: String, value: V) -> (old_value: Option<V>)
        requires
            old(self).wf(),
        ensures
            final(self).wf(),
            final(self)@ == after_insert(old(self)@, key@, value),
            old_value == insert_returns(old(self)@, key@),
    {
        match self.position_of(&key) {
            Some(i) => {
                proof {
                    lemma_map_of_remove(self.entries@, i as int);
                }
                let ghost pre = self.entries@;
                let (_, old_entry) = self.entries.remove(i);
                proof {
                    lemma_map_of_contains(self.entries@, key@);
                    assert forall|j: int| 0 <= j < self.entries@.len() implies self.entries@[j].0@
                        != key@ by {
                        let j0 = if j < i { j } else { j + 1 };
                        assert(self.entries@[j] == pre[j0]);
                        if j0 != i {
                            assert(pre[j0].0@ != pre[i as int].0@);
                        }
                    }
                    lemma_map_of_push(self.entries@, (key, WaitEntry::Filled(value)));
                }
                let ghost mid = self.entries@;
                self.entries.push((key, WaitEntry::Filled(value)));
                proof {
                    assert(distinct_keys(self.entries@)) by {
                        assert(forall|j: int|
                            0 <= j < mid.len() ==> self.entries@[j] == mid[j]);
                    }
                    assert(final(self)@ =~= after_insert(old(self)@, key@, value));
                }
                match old_entry {
                    WaitEntry::Waiting(wakers) => {
                        wakers.wake();
                        None
                    },
                    WaitEntry::Filled(old_v) => Some(old_v),
                }
            },
            None => {
                proof {
                    lemma_map_of_contains(self.entries@, key@);
                    lemma_map_of_push(self.entries@, (key, WaitEntry::Filled(value)));
                }
                let ghost mid = self.entries@;
                self.entries.push((key, WaitEntry::Filled(value)));
                proof {
                    assert(distinct_keys(self.entries@)) by {
                        assert(forall|j: int|
                            0 <= j < mid.len() ==> self.entries@[j] == mid[j]);
                    }
                }
                None
            },
        }
    }

    /// Look `key` up for reading. Only a filled slot is visible: a waiting
    /// placeholder is reported as absent.
    pub fn get<'a>(&'a self, key: &str) -> (r: Option<Ref<'a, V>>)
        requires
            self.wf(),
        ensures
            match r {
                Some(rf) => {
                    &&& is_filled(self@, key@)
                    &&& rf.spec_key() == key@
                    &&& rf.spec_value() == filled_value(self@[key@])
                },
                None => !is_filled(self@, key@),
            },
    {
        let owned = key.to_owned();
        match self.position_of(&owned) {
            Some(i) => {
                let pair = &self.entries[i];
                match &pair.1 {
                    WaitEntry::Filled(v) => Some(Ref { key: &pair.0, value: v }),
                    WaitEntry::Waiting(_) => None,
                }
            },
            None => None,
        }
    }

    /// Remove `key`'s slot, but only if it is a waiting placeholder; its
    /// parked wakers are all signalled, after the store has been updated,
    /// and those waiters then resolve to absent. A filled slot, or an absent
    /// key, is left untouched. Returns whether a waiting slot was removed.
    pub fn cancel(&mut self, key: &str) -> (cancelled: bool)
        requires
            old(self).wf(),
        ensures
            final(self).wf(),
            final(self)@ == after_cancel(old(self)@, key@),
            cancelled == cancel_returns(old(self)@, key@),
    {
        let owned = key.to_owned();
        match self.position_of(&owned) {
            Some(i) => {
                let waiting = match &self.entries[i].1 {
                    WaitEntry::Waiting(_) => true,
                    WaitEntry::Filled(_) => false,
                };
                if waiting {
                    proof {
                        lemma_map_of_remove(self.entries@, i as int);
                    }
                    let (_, old_entry) = self.entries.remove(i);
                    proof {
                        assert(final(self)@ =~= after_cancel(old(self)@, key@));
                    }
                    match old_entry {
                        WaitEntry::Waiting(wakers) => wakers.wake(),
                        WaitEntry::Filled(_) => (),
                    }
                    true
                } else {
                    false
                }
            },
            None => false,
        }
    }
}

/// Filled entries of a store prefix, counted pair by pair.
spec fn count_filled<V>(s: Seq<(String, WaitEntry<V>)>) -> nat
    decreases s.len(),
{
    if s.len() == 0 {
        0
    } else {
        count_filled(s.drop_last()) + if s.last().1 is Filled {
            1nat
        } else {
            0nat
        }
    }
}

/// With distinct keys, the filled keys of the map are as many as the filled
/// pairs of the store.
proof fn lemma_count_filled<V>(s: Seq<(String, WaitEntry<V>)>)
    requires
        distinct_keys(s),
    ensures
        filled_keys(slot_map_of(s)).finite(),
        filled_keys(slot_map_of(s)).len() == count_filled(s),
    decreases s.len(),
{
    if s.len() == 0 {
        assert(filled_keys(slot_map_of(s)) =~= Set::<Seq<char>>::empty());
    } else {
        let t = s.drop_last();
        assert(forall|j: int| 0 <= j < t.len() ==> t[j] == s[j]);
        lemma_count_filled(t);
        let k = s.last().0@;
        lemma_map_of_contains(t, k);
        assert(!slot_map_of(t).contains_key(k));
        if s.last().1 is Filled {
            assert(filled_keys(slot_map_of(s)) =~= filled_keys(slot_map_of(t)).insert(k));
        } else {
            assert(filled_keys(slot_map_of(s)) =~= filled_keys(slot_map_of(t)));
        }
    }
}

impl<V> WaitMap<V> {
    /// Look `key` up for writing. Only a filled slot is visible. The handle
    /// borrows the map exclusively; the slot's value follows whatever the
    /// caller writes through the handle.
    pub fn get_mut<'a>(&'a mut self, key: &str) -> (r: Option<RefMut<'a, V>>)
        requires
            old(self).wf(),
        ensures
            final(self).wf(),
            match r {
                Some(rm) => {
                    &&& is_filled(old(self)@, key@)
                    &&& rm.key@ == key@
                    &&& *rm.value == filled_value(old(self)@[key@])
                    &&& final(self)@ == old(self)@.insert(key@, Slot::Filled(*final(rm.value)))
                },
                None => {
                    &&& !is_filled(old(self)@, key@)
                    &&& final(self)@ == old(self)@
                },
            },
    {
        let owned = key.to_owned();
        match self.position_of(&owned) {
            Some(i) => {
                proof {
                    lemma_map_of_index(self.entries@, i as int);
                }
                let pair = &mut self.entries[i];
                match &mut pair.1 {
                    WaitEntry::Filled(v) => {
                        proof {
                            lemma_map_of_update(
                                old(self).entries@,
                                i as int,
                                WaitEntry::Filled(*final(v)),
                            );
                        }
                        Some(RefMut { key: &pair.0, value: v })
                    },
                    WaitEntry::Waiting(_) => {
                        proof {
                            lemma_map_of_update(
                                old(self).entries@,
                                i as int,
                                old(self).entries@[i as int].1,
                            );
                            assert(old(self).entries@.update(
                                i as int,
                                old(self).entries@[i as int],
                            ) =~= old(self).entries@);
                        }
                        None
                    },
                }
            },
            None => None,
        }
    }

    /// The number of values the map holds: filled slots only, waiting
    /// placeholders not counted.
    pub fn len(&self) -> (n: usize)
        requires
            self.wf(),
        ensures
            n == filled_keys(self@).len(),
    {
        proof {
            lemma_count_filled(self.entries@);
        }
        let end = self.entries.len();
        let mut n: usize = 0;
        let mut i: usize = 0;
        while i < end
            invariant
                end == self.entries@.len(),
                0 <= i <= end,
                n <= i,
                n == count_filled(self.entries@.take(i as int)),
            decreases end - i,
        {
            proof {
                assert(self.entries@.take(i + 1).drop_last() =~= self.entries@.take(i as int));
                assert(self.entries@.take(i + 1).last() == self.entries@[i as int]);
            }
            match &self.entries[i].1 {
                WaitEntry::Filled(_) => {
                    n += 1;
                },
                WaitEntry::Waiting(_) => (),
            }
            i += 1;
        }
        proof {
            assert(self.entries@.take(end as int) =~= self.entries@);
        }
        n
    }

    /// Remove every waiting placeholder and signal all its parked wakers;
    /// those waiters then resolve to absent. Filled slots are kept untouched.
    pub fn cancel_all(&mut self)
        requires
            old(self).wf(),
        ensures
            final(self).wf(),
            final(self)@ == after_cancel_all(old(self)@),
    {
        let mut rest: Vec<(String, WaitEntry<V>)> = Vec::new();
        core::mem::swap(&mut rest, &mut self.entries);
        let ghost s = rest@;
        proof {
            assert(rest@ =~= s.skip(0));
            assert(s.take(0) =~= Seq::<(String, WaitEntry<V>)>::empty());
            assert(slot_map_of(self.entries@) =~= after_cancel_all(slot_map_of(s.take(0))));
        }
        while rest.len() > 0
            invariant
                distinct_keys(s),
                rest@.len() <= s.len(),
                rest@ == s.skip(s.len() - rest@.len()),
                distinct_keys(self.entries@),
                slot_map_of(self.entries@) == after_cancel_all(
                    slot_map_of(s.take(s.len() - rest@.len())),
                ),
            decreases rest@.len(),
        {
            let ghost done = s.len() - rest@.len();
            let ghost processed = s.take(done);
            let ghost rest_before = rest@;
            let removed = rest.remove(0);
            proof {
                assert(s.skip(done)[0] == s[done]);
                assert(removed == s[done]);
                assert forall|j: int| 0 <= j < rest@.len() implies rest@[j] == s.skip(done + 1)[j] by {
                    assert(rest@[j] == rest_before[j + 1]);
                    assert(rest_before[j + 1] == s.skip(done)[j + 1]);
                    assert(s.skip(done)[j + 1] == s[done + 1 + j]);
                    assert(s.skip(done + 1)[j] == s[done + 1 + j]);
                }
                assert(rest@ =~= s.skip(done + 1));
                assert(s.take(done + 1).drop_last() =~= processed);
                assert(s.take(done + 1).last() == s[done]);
                lemma_map_of_push(processed, removed);
                assert(processed.push(removed) =~= s.take(done + 1));
                lemma_map_of_contains(processed, removed.0@);
                assert(forall|j: int| 0 <= j < processed.len() ==> processed[j] == s[j]);
                assert(!slot_map_of(processed).contains_key(removed.0@));
                if exists|j: int| 0 <= j < self.entries@.len() && self.entries@[j].0@
                    == removed.0@ {
                    let j = choose|j: int|
                        0 <= j < self.entries@.len() && self.entries@[j].0@ == removed.0@;
                    lemma_map_of_index(self.entries@, j);
                    assert(slot_map_of(self.entries@).contains_key(removed.0@));
                    assert(slot_map_of(processed).contains_key(removed.0@));
                    assert(false);
                }
            }
            let (key, entry) = removed;
            match entry {
                WaitEntry::Filled(v) => {
                    let ghost before = self.entries@;
                    proof {
                        lemma_map_of_push(before, (key, WaitEntry::Filled(v)));
                    }
                    self.entries.push((key, WaitEntry::Filled(v)));
                    proof {
                        assert(distinct_keys(self.entries@)) by {
                            assert(forall|j: int|
                                0 <= j < before.len() ==> self.entries@[j] == before[j]);
                        }
                        assert(slot_map_of(self.entries@) =~= after_cancel_all(
                            slot_map_of(s.take(done + 1)),
                        ));
                    }
                },
                WaitEntry::Waiting(wakers) => {
                    proof {
                        assert(slot_map_of(self.entries@) =~= after_cancel_all(
                            slot_map_of(s.take(done + 1)),
                        ));
                    }
                    wakers.wake();
                },
            }
        }
        proof {
            assert(s.take(s.len() - rest@.len()) =~= s);
        }
    }

    /// Begin waiting on `key` for reading: if the key is absent, leave an
    /// empty placeholder so that the returned retriever (and any other
    /// waiter) has a slot to park in; an existing slot is untouched.
    pub fn wait(&mut self, key: &str) -> (w: Wait)
        requires
            old(self).wf(),
        ensures
            final(self).wf(),
            final(self)@ == after_wait(old(self)@, key@),
            w.key_view() == key@,
            w.is_unregistered(),
    {
        let owned = key.to_owned();
        self.place_placeholder(owned);
        Wait::new(key.to_owned())
    }

    /// Begin waiting on `key` for writing. Same slot discipline as [`wait`];
    /// the retriever resolves through [`WaitMap::get_mut`].
    ///
    /// [`wait`]: WaitMap::wait
    pub fn wait_mut(&mut self, key: &str) -> (w: WaitMut)
        requires
            old(self).wf(),
        ensures
            final(self).wf(),
            final(self)@ == after_wait(old(self)@, key@),
            w.key_view() == key@,
            w.is_unregistered(),
    {
        let owned = key.to_owned();
        self.place_placeholder(owned);
        WaitMut::new(key.to_owned())
    }

    /// Begin waiting on `key` for taking: the returned retriever resolves by
    /// removing the filled slot, so that of several competing removers
    /// exactly one obtains the pair. Same slot discipline as [`wait`].
    ///
    /// [`wait`]: WaitMap::wait
    pub fn remove_wait(&mut self, key: &str) -> (w: Remove)
        requires
            old(self).wf(),
        ensures
            final(self).wf(),
            final(self)@ == after_wait(old(self)@, key@),
            w.key_view() == key@,
            w.is_unregistered(),
    {
        let owned = key.to_owned();
        self.place_placeholder(owned);
        Remove::new(key.to_owned())
    }

    /// Get-or-insert of the waiting placeholder that the `wait` family
    /// shares: one absent key gets one slot, however many retrievers wait.
    fn place_placeholder(&mut self, key: String)
        requires
            old(self).wf(),
        ensures
            final(self).wf(),
            final(self)@ == after_wait(old(self)@, key@),
    {
        match self.position_of(&key) {
            Some(_) => (),
            None => {
                let fresh = WaitEntry::Waiting(WakerSet::new());
                proof {
                    lemma_map_of_contains(self.entries@, key@);
                    lemma_map_of_push(self.entries@, (key, fresh));
                }
                let ghost before = self.entries@;
                self.entries.push((key, fresh));
                proof {
                    assert(distinct_keys(self.entries@)) by {
                        assert(forall|j: int|
                            0 <= j < before.len() ==> self.entries@[j] == before[j]);
                    }
                }
            },
        }
    }

    /// Take `key`'s slot out of the store, whatever its state, and hand it
    /// to the caller (the entry API's checkout).
    pub(crate) fn take_slot(&mut self, key: &String) -> (r: Option<WaitEntry<V>>)
        requires
            old(self).wf(),
        ensures
            final(self).wf(),
            match r {
                Some(e) => {
                    &&& old(self)@.contains_key(key@)
                    &&& slot_of(e) == old(self)@[key@]
                    &&& final(self)@ == old(self)@.remove(key@)
                },
                None => {
                    &&& !old(self)@.contains_key(key@)
                    &&& final(self)@ == old(self)@
                },
            },
    {
        match self.position_of(key) {
            Some(i) => {
                proof {
                    lemma_map_of_remove(self.entries@, i as int);
                }
                let (_, e) = self.entries.remove(i);
                Some(e)
            },
            None => None,
        }
    }

    /// Put a checked-out slot back, but only under a key that is still free;
    /// a slot that arrived under the key meanwhile stays, and the caller
    /// gets the rejected checkout back.
    pub(crate) fn put_slot(&mut self, key: String, e: WaitEntry<V>) -> (rejected: Option<
        WaitEntry<V>,
    >)
        requires
            old(self).wf(),
        ensures
            final(self).wf(),
            if old(self)@.contains_key(key@) {
                final(self)@ == old(self)@ && rejected == Some(e)
            } else {
                final(self)@ == old(self)@.insert(key@, slot_of(e)) && rejected == None::<
                    WaitEntry<V>,
                >
            },
    {
        match self.position_of(&key) {
            Some(_) => Some(e),
            None => {
                proof {
                    lemma_map_of_contains(self.entries@, key@);
                    lemma_map_of_push(self.entries@, (key, e));
                }
                let ghost before = self.entries@;
                self.entries.push((key, e));
                proof {
                    assert(distinct_keys(self.entries@)) by {
                        assert(forall|j: int|
                            0 <= j < before.len() ==> self.entries@[j] == before[j]);
                    }
                }
                None
            },
        }
    }

    /// One poll step of a waiter on `key`, with `idx` its registration state
    /// (`usize::MAX`, or any other out-of-range value, meaning unregistered).
    /// Absent resolves the waiter to nothing; a filled slot resolves it to
    /// the value, read through `get`/`get_mut`; a waiting slot parks `waker`
    /// (register-or-replace) and reports pending.
    pub(crate) fn poll_slot(
        &mut self,
        key: &String,
        waker: core::task::Waker,
        idx: &mut usize,
    ) -> (r: WaitPoll)
        requires
            old(self).wf(),
        ensures
            final(self).wf(),
            match r {
                WaitPoll::Absent => {
                    &&& !old(self)@.contains_key(key@)
                    &&& final(self)@ == old(self)@
                    &&& *final(idx) == *old(idx)
                },
                WaitPoll::Filled => {
                    &&& is_filled(old(self)@, key@)
                    &&& final(self)@ == old(self)@
                    &&& *final(idx) == usize::MAX
                },
                WaitPoll::Pending => {
                    &&& is_waiting(old(self)@, key@)
                    &&& ({
                        let ws = model::waiting_wakers(old(self)@[key@]);
                        if *old(idx) < ws.len() {
                            &&& final(self)@ == old(self)@.insert(
                                key@,
                                Slot::Waiting(ws.update(*old(idx) as int, Some(waker))),
                            )
                            &&& *final(idx) == *old(idx)
                        } else {
                            &&& final(self)@ == old(self)@.insert(
                                key@,
                                Slot::Waiting(ws.push(Some(waker))),
                            )
                            &&& *final(idx) == ws.len()
                        }
                    })
                },
            },
    {
        match self.position_of(key) {
            None => WaitPoll::Absent,
            Some(i) => {
                proof {
                    lemma_map_of_index(self.entries@, i as int);
                }
                let pair = &mut self.entries[i];
                let r = match &mut pair.1 {
                    WaitEntry::Filled(_) => {
                        *idx = usize::MAX;
                        WaitPoll::Filled
                    },
                    WaitEntry::Waiting(ws) => {
                        ws.replace(waker, idx);
                        WaitPoll::Pending
                    },
                };
                proof {
                    lemma_map_of_update(old(self).entries@, i as int, self.entries@[i as int].1);
                    if r is Filled {
                        assert(self.entries@ =~= old(self).entries@);
                    }
                }
                r
            },
        }
    }

    /// Drop-time cleanup of a waiter registered at `idx` under `key`:
    /// tombstone its position if the slot still waits and the position still
    /// exists; in every other state (filled, absent, or a stale index) the
    /// index has no meaning any more and nothing is touched.
    pub(crate) fn remove_parked(&mut self, key: &String, idx: usize)
        requires
            old(self).wf(),
        ensures
            final(self).wf(),
            ({
                let m = old(self)@;
                if is_waiting(m, key@) && (idx as int) < model::waiting_wakers(m[key@]).len() {
                    final(self)@ == m.insert(
                        key@,
                        Slot::Waiting(
                            model::waiting_wakers(m[key@]).update(
                                idx as int,
                                None::<core::task::Waker>,
                            ),
                        ),
                    )
                } else {
                    final(self)@ == m
                }
            }),
    {
        match self.position_of(key) {
            None => (),
            Some(i) => {
                proof {
                    lemma_map_of_index(self.entries@, i as int);
                }
                let pair = &mut self.entries[i];
                let mut touched = false;
                match &mut pair.1 {
                    WaitEntry::Filled(_) => (),
                    WaitEntry::Waiting(ws) => {
                        if idx < ws.len() {
                            ws.remove(idx);
                            touched = true;
                        }
                    },
                };
                proof {
                    lemma_map_of_update(old(self).entries@, i as int, self.entries@[i as int].1);
                    if !touched {
                        assert(self.entries@ =~= old(self).entries@);
                    }
                }
            },
        }
    }

    /// One poll step of a remover on `key`: as [`WaitMap::poll_slot`], but a
    /// filled slot is taken out of the map and handed to this remover alone.
    pub(crate) fn poll_take(
        &mut self,
        key: &String,
        waker: core::task::Waker,
        idx: &mut usize,
    ) -> (r: Option<Option<(String, V)>>)
        requires
            old(self).wf(),
        ensures
            final(self).wf(),
            match r {
                None => {
                    &&& is_waiting(old(self)@, key@)
                    &&& ({
                        let ws = model::waiting_wakers(old(self)@[key@]);
                        if *old(idx) < ws.len() {
                            &&& final(self)@ == old(self)@.insert(
                                key@,
                                Slot::Waiting(ws.update(*old(idx) as int, Some(waker))),
                            )
                            &&& *final(idx) == *old(idx)
                        } else {
                            &&& final(self)@ == old(self)@.insert(
                                key@,
                                Slot::Waiting(ws.push(Some(waker))),
                            )
                            &&& *final(idx) == ws.len()
                        }
                    })
                },
                Some(None) => {
                    &&& !old(self)@.contains_key(key@)
                    &&& final(self)@ == old(self)@
                    &&& *final(idx) == *old(idx)
                },
                Some(Some(pair)) => {
                    &&& is_filled(old(self)@, key@)
                    &&& pair.0@ == key@
                    &&& pair.1 == filled_value(old(self)@[key@])
                    &&& final(self)@ == old(self)@.remove(key@)
                    &&& *final(idx) == usize::MAX
                },
            },
    {
        match self.position_of(key) {
            None => Some(None),
            Some(i) => {
                proof {
                    lemma_map_of_index(self.entries@, i as int);
                }
                let filled = match &self.entries[i].1 {
                    WaitEntry::Filled(_) => true,
                    WaitEntry::Waiting(_) => false,
                };
                if filled {
                    proof {
                        lemma_map_of_remove(self.entries@, i as int);
                    }
                    let (k, entry) = self.entries.remove(i);
                    *idx = usize::MAX;
                    match entry {
                        WaitEntry::Filled(v) => Some(Some((k, v))),
                        WaitEntry::Waiting(_) => vstd::pervasive::unreached(),
                    }
                } else {
                    let pair = &mut self.entries[i];
                    match &mut pair.1 {
                        WaitEntry::Filled(_) => (),
                        WaitEntry::Waiting(ws) => {
                            ws.replace(waker, idx);
                        },
                    };
                    proof {
                        lemma_map_of_update(
                            old(self).entries@,
                            i as int,
                            self.entries@[i as int].1,
                        );
                    }
                    None
                }
            },
        }
    }
}

/// A borrowed view of a filled slot: the key and its value.
pub struct Ref<'a, V> {
    key: &'a String,
    value: &'a V,
}

impl<'a, V> Ref<'a, V> {
    /// The key this handle was looked up under.
    pub closed spec fn spec_key(&self) -> Seq<char> {
        self.key@
    }

    /// The value the slot held when the handle was made.
    pub closed spec fn spec_value(&self) -> V {
        *self.value
    }

    /// The key.
    pub fn key(&self) -> (k: &'a String)
        ensures
            k@ == self.spec_key(),
    {
        self.key
    }

    /// The value.
    pub fn value(&self) -> (v: &'a V)
        ensures
            *v == self.spec_value(),
    {
        self.value
    }

    /// Key and value together.
    pub fn pair(&self) -> (p: (&'a String, &'a V))
        ensures
            p.0@ == self.spec_key(),
            *p.1 == self.spec_value(),
    {
        (self.key, self.value)
    }
}

/// An exclusive handle on a filled slot: the key, and the value writable in
/// place. The slot follows whatever the caller last wrote through `value`;
/// see the contract of [`WaitMap::get_mut`].
pub struct RefMut<'a, V> {
    /// The key the handle was looked up under.
    pub key: &'a String,
    /// The slot's value, exclusively borrowed: assign through it to update
    /// the map.
    pub value: &'a mut V,
}

impl<'a, V> RefMut<'a, V> {
    /// The key.
    pub fn key(&self) -> (k: &String)
        ensures
            k@ == self.key@,
    {
        self.key
    }

    /// The value as it stands now.
    pub fn value(&self) -> (v: &V)
        ensures
            *v == *old(self.value),
    {
        &*self.value
    }

    /// Key and value together, read. To write, assign through the `value`
    /// field.
    pub fn pair(&self) -> (p: (&String, &V))
        ensures
            p.0@ == self.key@,
            *p.1 == *old(self.value),
    {
        (self.key, &*self.value)
    }
}

} // verus!
