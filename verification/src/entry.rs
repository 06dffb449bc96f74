//! The entry API: in-place inspection of one key's slot.
//!
//! [`WaitMap::entry`] checks the key's slot out of the map and hands back an
//! owned handle; the handle's operations either seal the slot as filled (the
//! `or_insert` family, [`VacantEntry::insert`]), consume it (`remove`), or
//! put it back as it was ([`Entry::restore`]). A checked-out slot is absent
//! from the map until the handle is closed, so close it promptly and on
//! every path.
//!
//! One twist mirrors the map's placeholder trick: a waiting slot surfaces
//! not as occupied but as a *vacant* entry that remembers its parked wakers.
//! Sealing such an entry performs the waiting-to-filled transition and
//! signals every parked waker.

use vstd::prelude::*;

use crate::model::filled_value;
use crate::model::is_filled;
use crate::model::is_waiting;
use crate::model::waiting_wakers;
use crate::RefMut;
use crate::Slot;
use crate::SlotMap;
use crate::WaitEntry;
use crate::WaitMap;
use crate::WakerSet;

verus! {

/// What one key's slot held when it was checked out.
pub enum Entry<V> {
    /// The slot was filled; the handle owns the value.
    Occupied(OccupiedEntry<V>),
    /// The key was absent, or held only a waiting placeholder.
    Vacant(VacantEntry<V>),
}

/// A checked-out filled slot.
pub struct OccupiedEntry<V> {
    key: String,
    value: V,
}

/// A checked-out free slot: either nothing stood under the key, or a waiting
/// placeholder whose parked wakers the handle carries until the slot is
/// sealed or put back.
pub struct VacantEntry<V> {
    key: String,
    wakers: Option<WakerSet>,
    _marker: core::marker::PhantomData<V>,
}

/// What closing a handle without sealing leaves behind: the slot it took
/// goes back if the key is still free; a slot that arrived under the key
/// meanwhile stays.
pub open spec fn after_restore<V>(m: SlotMap<V>, k: Seq<char>, took: Slot<V>) -> SlotMap<V> {
    if m.contains_key(k) {
        m
    } else {
        m.insert(k, took)
    }
}

impl<V> OccupiedEntry<V> {
    /// The key the slot was checked out under.
    pub closed spec fn spec_key(&self) -> Seq<char> {
        self.key@
    }

    /// The value the handle holds.
    pub closed spec fn spec_value(&self) -> V {
        self.value
    }

    /// The key.
    pub fn key(&self) -> (k: &String)
        ensures
            k@ == self.spec_key(),
    {
        &self.key
    }

    /// The value, read.
    pub fn get(&self) -> (v: &V)
        ensures
            *v == self.spec_value(),
    {
        &self.value
    }

    /// The value, writable in place.
    pub fn get_mut(&mut self) -> (v: &mut V)
        ensures
            *v == old(self).spec_value(),
            final(self).spec_key() == old(self).spec_key(),
            final(self).spec_value() == *final(v),
    {
        &mut self.value
    }

    /// Replace the held value, returning the previous one.
    pub fn insert(&mut self, value: V) -> (previous: V)
        ensures
            previous == old(self).spec_value(),
            final(self).spec_key() == old(self).spec_key(),
            final(self).spec_value() == value,
    {
        let mut value = value;
        core::mem::swap(&mut value, &mut self.value);
        value
    }

    /// Consume the handle, keeping only the value: together with the
    /// checkout this removes the pair from the map.
    pub fn remove(self) -> (v: V)
        ensures
            v == self.spec_value(),
    {
        self.value
    }

    /// Consume the handle, keeping key and value.
    pub fn remove_entry(self) -> (pair: (String, V))
        ensures
            pair.0@ == self.spec_key(),
            pair.1 == self.spec_value(),
    {
        (self.key, self.value)
    }

    /// Seal the slot with `value` instead, and get key and previous value
    /// back.
    pub fn replace_entry<'a>(self, value: V, map: &'a mut WaitMap<V>) -> (pair: (String, V))
        requires
            old(map).wf(),
        ensures
            final(map).wf(),
            pair.0@ == self.spec_key(),
            pair.1 == self.spec_value(),
            final(map)@ == old(map)@.insert(self.spec_key(), Slot::Filled(value)),
    {
        let key = self.key.clone();
        let _ = map.insert(self.key, value);
        (key, self.value)
    }

    /// Seal the slot with the held value and turn the handle into an
    /// exclusive reference to it.
    pub fn into_ref<'a>(self, map: &'a mut WaitMap<V>) -> (r: RefMut<'a, V>)
        requires
            old(map).wf(),
        ensures
            final(map).wf(),
            r.key@ == self.spec_key(),
            *r.value == self.spec_value(),
            final(map)@ == old(map)@.insert(self.spec_key(), Slot::Filled(*final(r.value))),
    {
        seal(self.key, self.value, None, map)
    }
}

impl<V> VacantEntry<V> {
    /// The key the slot was checked out under.
    pub closed spec fn spec_key(&self) -> Seq<char> {
        self.key@
    }

    /// The parked wakers the handle carries: `Some` iff the key held a
    /// waiting placeholder.
    pub closed spec fn spec_parked(&self) -> Option<Seq<Option<core::task::Waker>>> {
        match self.wakers {
            Some(ws) => Some(ws@),
            None => None,
        }
    }

    /// The key.
    pub fn key(&self) -> (k: &String)
        ensures
            k@ == self.spec_key(),
    {
        &self.key
    }

    /// Seal the slot as filled with `value`. If the slot was a waiting
    /// placeholder, this is its waiting-to-filled transition: every parked
    /// waker is signalled, after the map has been updated.
    pub fn insert<'a>(self, value: V, map: &'a mut WaitMap<V>) -> (r: RefMut<'a, V>)
        requires
            old(map).wf(),
        ensures
            final(map).wf(),
            r.key@ == self.spec_key(),
            *r.value == value,
            final(map)@ == old(map)@.insert(self.spec_key(), Slot::Filled(*final(r.value))),
    {
        seal(self.key, value, self.wakers, map)
    }

    /// Put the checked-out slot back without sealing it. If it carried
    /// parked wakers and the key is still free, they go back as the waiting
    /// placeholder they came from; if the key was taken meanwhile, they are
    /// signalled so that their waiters re-poll against the new slot.
    fn put_back(self, map: &mut WaitMap<V>)
        requires
            old(map).wf(),
        ensures
            final(map).wf(),
            final(map)@ == match self.spec_parked() {
                Some(ws) => after_restore(old(map)@, self.spec_key(), Slot::Waiting(ws)),
                None => old(map)@,
            },
    {
        match self.wakers {
            None => (),
            Some(ws) => {
                match map.put_slot(self.key, WaitEntry::Waiting(ws)) {
                    None => (),
                    Some(rejected) => match rejected {
                        WaitEntry::Waiting(ws2) => ws2.wake(),
                        WaitEntry::Filled(_) => (),
                    },
                }
            },
        }
    }
}

impl<V> Entry<V> {
    /// The key the slot was checked out under.
    pub open spec fn spec_key(&self) -> Seq<char> {
        match self {
            Entry::Occupied(o) => o.spec_key(),
            Entry::Vacant(v) => v.spec_key(),
        }
    }

    /// The slot this handle took out of the map, if it took one.
    pub open spec fn took_slot(&self) -> Option<Slot<V>> {
        match self {
            Entry::Occupied(o) => Some(Slot::Filled(o.spec_value())),
            Entry::Vacant(v) => match v.spec_parked() {
                Some(ws) => Some(Slot::Waiting(ws)),
                None => None,
            },
        }
    }

    /// The key.
    pub fn key(&self) -> (k: &String)
        ensures
            k@ == self.spec_key(),
    {
        match self {
            Entry::Occupied(o) => o.key(),
            Entry::Vacant(v) => v.key(),
        }
    }

    /// Apply `f` to the held value if the slot was occupied; a vacant entry
    /// passes through untouched.
    pub fn and_modify<F: FnOnce(V) -> V>(self, f: F) -> (r: Entry<V>)
        requires
            self matches Entry::Occupied(o) ==> call_requires(f, (o.spec_value(),)),
        ensures
            r.spec_key() == self.spec_key(),
            match self {
                Entry::Occupied(o) => r matches Entry::Occupied(o2) && call_ensures(
                    f,
                    (o.spec_value(),),
                    o2.spec_value(),
                ),
                Entry::Vacant(v) => r == self,
            },
    {
        match self {
            Entry::Occupied(o) => {
                let OccupiedEntry { key, value } = o;
                Entry::Occupied(OccupiedEntry { key, value: f(value) })
            },
            Entry::Vacant(v) => Entry::Vacant(v),
        }
    }

    /// Seal the slot: keep the held value if occupied, store `default`
    /// otherwise, waking any parked waiters; either way, hand back an
    /// exclusive reference to the sealed value.
    pub fn or_insert<'a>(self, default: V, map: &'a mut WaitMap<V>) -> (r: RefMut<'a, V>)
        requires
            old(map).wf(),
        ensures
            final(map).wf(),
            r.key@ == self.spec_key(),
            match self {
                Entry::Occupied(o) => *r.value == o.spec_value(),
                Entry::Vacant(_) => *r.value == default,
            },
            final(map)@ == old(map)@.insert(self.spec_key(), Slot::Filled(*final(r.value))),
    {
        match self {
            Entry::Occupied(o) => seal(o.key, o.value, None, map),
            Entry::Vacant(v) => seal(v.key, default, v.wakers, map),
        }
    }

    /// As [`Entry::or_insert`], with the default computed only when needed.
    pub fn or_insert_with<'a, F: FnOnce() -> V>(self, f: F, map: &'a mut WaitMap<V>) -> (r:
        RefMut<'a, V>)
        requires
            old(map).wf(),
            self matches Entry::Vacant(_) ==> call_requires(f, ()),
        ensures
            final(map).wf(),
            r.key@ == self.spec_key(),
            match self {
                Entry::Occupied(o) => *r.value == o.spec_value(),
                Entry::Vacant(_) => call_ensures(f, (), *r.value),
            },
            final(map)@ == old(map)@.insert(self.spec_key(), Slot::Filled(*final(r.value))),
    {
        match self {
            Entry::Occupied(o) => seal(o.key, o.value, None, map),
            Entry::Vacant(v) => {
                let value = f();
                seal(v.key, value, v.wakers, map)
            },
        }
    }

    /// As [`Entry::or_insert`], with the type's default value.
    pub fn or_default<'a>(self, map: &'a mut WaitMap<V>) -> (r: RefMut<'a, V>) where
        V: core::default::Default,

        requires
            old(map).wf(),
        ensures
            final(map).wf(),
            r.key@ == self.spec_key(),
            match self {
                Entry::Occupied(o) => *r.value == o.spec_value(),
                Entry::Vacant(_) => call_ensures(V::default, (), *r.value),
            },
            final(map)@ == old(map)@.insert(self.spec_key(), Slot::Filled(*final(r.value))),
    {
        match self {
            Entry::Occupied(o) => seal(o.key, o.value, None, map),
            Entry::Vacant(v) => {
                let value = V::default();
                seal(v.key, value, v.wakers, map)
            },
        }
    }

    /// As [`Entry::or_insert_with`] with a fallible default: on `Err` nothing
    /// is inserted, the error is handed through, and the checked-out slot is
    /// put back, waiting waiters still suspended.
    pub fn or_try_insert_with<'a, E, F: FnOnce() -> Result<V, E>>(
        self,
        f: F,
        map: &'a mut WaitMap<V>,
    ) -> (r: Result<RefMut<'a, V>, E>)
        requires
            old(map).wf(),
            self matches Entry::Vacant(_) ==> call_requires(f, ()),
        ensures
            final(map).wf(),
            match r {
                Ok(rm) => {
                    &&& rm.key@ == self.spec_key()
                    &&& match self {
                        Entry::Occupied(o) => *rm.value == o.spec_value(),
                        Entry::Vacant(_) => call_ensures(f, (), Ok::<V, E>(*rm.value)),
                    }
                    &&& final(map)@ == old(map)@.insert(
                        self.spec_key(),
                        Slot::Filled(*final(rm.value)),
                    )
                },
                Err(e) => {
                    &&& self matches Entry::Vacant(_)
                    &&& call_ensures(f, (), Err::<V, E>(e))
                    &&& final(map)@ == match self.took_slot() {
                        Some(took) => after_restore(old(map)@, self.spec_key(), took),
                        None => old(map)@,
                    }
                },
            },
    {
        match self {
            Entry::Occupied(o) => Ok(seal(o.key, o.value, None, map)),
            Entry::Vacant(v) => match f() {
                Ok(value) => Ok(seal(v.key, value, v.wakers, map)),
                Err(e) => {
                    v.put_back(map);
                    Err(e)
                },
            },
        }
    }

    /// Close the handle without sealing anything: the slot it took goes back
    /// if the key is still free. If the key was taken meanwhile, the map
    /// keeps the newer slot; parked wakers the handle carried are then
    /// signalled so that their waiters re-poll against it.
    pub fn restore(self, map: &mut WaitMap<V>)
        requires
            old(map).wf(),
        ensures
            final(map).wf(),
            final(map)@ == match self.took_slot() {
                Some(took) => after_restore(old(map)@, self.spec_key(), took),
                None => old(map)@,
            },
    {
        match self {
            Entry::Occupied(o) => {
                let _ = map.put_slot(o.key, WaitEntry::Filled(o.value));
            },
            Entry::Vacant(v) => v.put_back(map),
        }
    }
}

/// Seal one slot: store `value` under `key`, signal the parked wakers that
/// the slot carried (after the map has been updated), and hand back an
/// exclusive reference to the stored value.
fn seal<'a, V>(key: String, value: V, parked: Option<WakerSet>, map: &'a mut WaitMap<V>) -> (r:
    RefMut<'a, V>)
    requires
        old(map).wf(),
    ensures
        final(map).wf(),
        r.key@ == key@,
        *r.value == value,
        final(map)@ == old(map)@.insert(key@, Slot::Filled(*final(r.value))),
{
    let lookup = key.clone();
    let _ = map.insert(key, value);
    match parked {
        Some(ws) => ws.wake(),
        None => (),
    }
    match map.get_mut(lookup.as_str()) {
        Some(r) => r,
        None => vstd::pervasive::unreached(),
    }
}

impl<V> WaitMap<V> {
    /// Check `key`'s slot out of the map. While the handle is open the key
    /// reads as absent; every way of closing the handle says what it leaves
    /// behind. A waiting placeholder surfaces as a *vacant* entry carrying
    /// its parked wakers: sealing it is the waiting-to-filled transition.
    pub fn entry(&mut self, key: String) -> (e: Entry<V>)
        requires
            old(self).wf(),
        ensures
            final(self).wf(),
            final(self)@ == old(self)@.remove(key@),
            e.spec_key() == key@,
            match e {
                Entry::Occupied(o) => {
                    &&& is_filled(old(self)@, key@)
                    &&& o.spec_value() == filled_value(old(self)@[key@])
                },
                Entry::Vacant(v) => {
                    &&& !is_filled(old(self)@, key@)
                    &&& v.spec_parked() == (if is_waiting(old(self)@, key@) {
                        Some(waiting_wakers(old(self)@[key@]))
                    } else {
                        None::<Seq<Option<core::task::Waker>>>
                    })
                },
            },
    {
        match self.take_slot(&key) {
            Some(e) => match e {
                WaitEntry::Filled(value) => Entry::Occupied(OccupiedEntry { key, value }),
                WaitEntry::Waiting(ws) => Entry::Vacant(
                    VacantEntry { key, wakers: Some(ws), _marker: core::marker::PhantomData },
                ),
            },
            None => {
                proof {
                    assert(old(self)@.remove(key@) =~= old(self)@);
                }
                Entry::Vacant(VacantEntry { key, wakers: None, _marker: core::marker::PhantomData })
            },
        }
    }
}

} // verus!
