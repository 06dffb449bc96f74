//! The mathematical model of the map.
//!
//! Contracts describe a `WaitMap` as a finite map from key strings to
//! [`Slot`]s. A slot is either `Waiting`, holding the sequence of parked
//! wakers of the retrievers suspended on the key, or `Filled`, holding the
//! key's value; a key outside the map's domain is absent. The functions here
//! say how each public operation transforms that map, and the lemmas state
//! the laws that the operations obey.

use vstd::prelude::*;

verus! {

/// The state of one key's slot, as the contracts see it.
pub enum Slot<V> {
    /// The key is a placeholder: no value yet, and these are the parked
    /// wakers (`None` marks the tombstone of a dropped waiter).
    Waiting(Seq<Option<core::task::Waker>>),
    /// The key holds a value.
    Filled(V),
}

/// The whole map: key strings to slots. Absence from the domain means the
/// key is not present and nobody waits for it.
pub type SlotMap<V> = Map<Seq<char>, Slot<V>>;

/// The value of a filled slot.
pub open spec fn filled_value<V>(s: Slot<V>) -> V
    recommends
        s is Filled,
{
    s->Filled_0
}

/// The parked wakers of a waiting slot.
pub open spec fn waiting_wakers<V>(s: Slot<V>) -> Seq<Option<core::task::Waker>>
    recommends
        s is Waiting,
{
    s->Waiting_0
}

/// `k` maps to a value that `get` can see.
pub open spec fn is_filled<V>(m: SlotMap<V>, k: Seq<char>) -> bool {
    m.contains_key(k) && m[k] is Filled
}

/// `k` is a placeholder with parked waiters.
pub open spec fn is_waiting<V>(m: SlotMap<V>, k: Seq<char>) -> bool {
    m.contains_key(k) && m[k] is Waiting
}

/// The keys that `get` can see.
pub open spec fn filled_keys<V>(m: SlotMap<V>) -> Set<Seq<char>> {
    m.dom().filter(|k: Seq<char>| m[k] is Filled)
}

/// What `insert(k, v)` leaves behind: the slot is filled with `v`, whatever
/// stood there before.
pub open spec fn after_insert<V>(m: SlotMap<V>, k: Seq<char>, v: V) -> SlotMap<V> {
    m.insert(k, Slot::Filled(v))
}

/// What `insert(k, v)` returns: the old value if the slot was filled,
/// `None` if the key was absent or only waited for.
pub open spec fn insert_returns<V>(m: SlotMap<V>, k: Seq<char>) -> Option<V> {
    if is_filled(m, k) {
        Some(filled_value(m[k]))
    } else {
        None
    }
}

/// What `cancel(k)` leaves behind: a waiting slot is removed, anything else
/// is untouched.
pub open spec fn after_cancel<V>(m: SlotMap<V>, k: Seq<char>) -> SlotMap<V> {
    if is_waiting(m, k) {
        m.remove(k)
    } else {
        m
    }
}

/// What `cancel(k)` returns: whether a waiting slot was removed.
pub open spec fn cancel_returns<V>(m: SlotMap<V>, k: Seq<char>) -> bool {
    is_waiting(m, k)
}

/// What `cancel_all()` leaves behind: exactly the filled slots.
pub open spec fn after_cancel_all<V>(m: SlotMap<V>) -> SlotMap<V> {
    m.restrict(filled_keys(m))
}

/// What `wait(k)` (and `wait_mut`, `remove_wait`) leaves behind: an absent
/// key becomes an empty placeholder; an existing slot is untouched.
pub open spec fn after_wait<V>(m: SlotMap<V>, k: Seq<char>) -> SlotMap<V> {
    if m.contains_key(k) {
        m
    } else {
        m.insert(k, Slot::Waiting(Seq::empty()))
    }
}

/// How a poll of a waiter on `k` must resolve against map `m`:
/// `Some(Some(v))` resolves to the value, `Some(None)` resolves to absent,
/// `None` stays pending (the slot is waiting).
pub open spec fn resolution<V>(m: SlotMap<V>, k: Seq<char>) -> Option<Option<V>> {
    if !m.contains_key(k) {
        Some(None)
    } else if m[k] is Filled {
        Some(Some(filled_value(m[k])))
    } else {
        None
    }
}

/// Beginning a wait is idempotent in the map: however many retrievers start
/// waiting on one key, the first creates the placeholder and the rest share
/// it.
pub proof fn lemma_wait_idempotent<V>(m: SlotMap<V>, k: Seq<char>)
    ensures
        after_wait(after_wait(m, k), k) == after_wait(m, k),
{
}

/// Beginning a wait changes nothing that `get` can see, on any key.
pub proof fn lemma_wait_invisible<V>(m: SlotMap<V>, k: Seq<char>, q: Seq<char>)
    ensures
        is_filled(after_wait(m, k), q) <==> is_filled(m, q),
        is_filled(m, q) ==> after_wait(m, k)[q] == m[q],
{
}

/// Inserting under a key twice: the second insert returns the value the
/// first one stored.
pub proof fn lemma_insert_twice_returns<V>(m: SlotMap<V>, k: Seq<char>, v: V)
    ensures
        insert_returns(after_insert(m, k, v), k) == Some(v),
{
}

/// Cancelling everything is idempotent: a second sweep finds only filled
/// slots and removes nothing.
pub proof fn lemma_cancel_all_idempotent<V>(m: SlotMap<V>)
    ensures
        after_cancel_all(after_cancel_all(m)) == after_cancel_all(m),
{
    assert(after_cancel_all(after_cancel_all(m)) =~= after_cancel_all(m));
}

/// Cancelling a filled key is a no-op and reports that nothing was removed.
pub proof fn lemma_cancel_filled_noop<V>(m: SlotMap<V>, k: Seq<char>)
    requires
        is_filled(m, k),
    ensures
        after_cancel(m, k) == m,
        !cancel_returns(m, k),
{
}

/// After cancelling everything, a key holds a value iff it was filled just
/// before, and then it holds the same value; every other key is gone.
pub proof fn lemma_cancel_all_keeps_filled<V>(m: SlotMap<V>, k: Seq<char>)
    ensures
        is_filled(after_cancel_all(m), k) <==> is_filled(m, k),
        is_filled(m, k) ==> after_cancel_all(m)[k] == m[k],
        after_cancel_all(m).contains_key(k) <==> is_filled(m, k),
{
}

/// After an insert, every waiter on the key resolves, and to exactly the
/// inserted value.
pub proof fn lemma_insert_resolves_waiters<V>(m: SlotMap<V>, k: Seq<char>, v: V)
    ensures
        resolution(after_insert(m, k, v), k) == Some(Some(v)),
{
}

/// After a cancellation that removed the waiting slot, every waiter on the
/// key resolves to absent.
pub proof fn lemma_cancel_resolves_none<V>(m: SlotMap<V>, k: Seq<char>)
    requires
        is_waiting(m, k),
    ensures
        resolution(after_cancel(m, k), k) == Some(None::<V>),
{
}

/// After cancelling everything, every waiter on every key resolves: to
/// absent if its slot was waiting, to the value if its slot was filled.
pub proof fn lemma_cancel_all_resolves<V>(m: SlotMap<V>, k: Seq<char>)
    ensures
        is_waiting(m, k) ==> resolution(after_cancel_all(m), k) == Some(None::<V>),
        is_filled(m, k) ==> resolution(after_cancel_all(m), k) == Some(
            Some(filled_value(m[k])),
        ),
{
}

/// Two maps that differ at most in the parked wakers of their waiting slots:
/// same keys, waiting where the other waits, and equal filled values.
pub open spec fn same_visible<V>(m1: SlotMap<V>, m2: SlotMap<V>) -> bool {
    &&& m1.dom() == m2.dom()
    &&& forall|k: Seq<char>| #[trigger]
        m1.contains_key(k) ==> {
            &&& (m1[k] is Filled <==> m2[k] is Filled)
            &&& (m1[k] is Filled ==> m1[k] == m2[k])
        }
}

/// Rewriting a waiting slot's waker sequence (as registering a waker or
/// tombstoning a dropped waiter's position does) leaves the map the same in
/// everything visible: dropping a waiter cannot be told, by any reader or
/// any other waiter, from the waiter never having existed.
pub proof fn lemma_rewrite_wakers_visible<V>(
    m: SlotMap<V>,
    k: Seq<char>,
    ws: Seq<Option<core::task::Waker>>,
)
    requires
        is_waiting(m, k),
    ensures
        same_visible(m, m.insert(k, Slot::Waiting(ws))),
{
    assert(m.dom() =~= m.insert(k, Slot::Waiting(ws)).dom());
}

/// Nothing the public operations return can tell two visibly-equal maps
/// apart: reads, insert and cancel results, and every waiter's resolution
/// agree.
pub proof fn lemma_same_visible_reads<V>(m1: SlotMap<V>, m2: SlotMap<V>, k: Seq<char>)
    requires
        same_visible(m1, m2),
    ensures
        is_filled(m1, k) <==> is_filled(m2, k),
        is_filled(m1, k) ==> m1[k] == m2[k],
        resolution(m1, k) == resolution(m2, k),
        insert_returns(m1, k) == insert_returns(m2, k),
        cancel_returns(m1, k) == cancel_returns(m2, k),
        filled_keys(m1) == filled_keys(m2),
{
    assert(m1.contains_key(k) <==> m2.contains_key(k));
    assert(filled_keys(m1) =~= filled_keys(m2)) by {
        assert(forall|q: Seq<char>| #[trigger]
            filled_keys(m1).contains(q) ==> filled_keys(m2).contains(q)) by {
            assert(forall|q: Seq<char>|
                filled_keys(m1).contains(q) ==> #[trigger] m1.contains_key(q));
        }
        assert(forall|q: Seq<char>| #[trigger]
            filled_keys(m2).contains(q) ==> filled_keys(m1).contains(q)) by {
            assert(forall|q: Seq<char>|
                filled_keys(m2).contains(q) ==> #[trigger] m2.contains_key(q)
                    && m1.contains_key(q));
        }
    }
}

/// One mutating operation of the `insert` / `cancel` / `cancel_all` family
/// (`get` only reads, so it has no place here).
pub enum Action<V> {
    Insert(Seq<char>, V),
    Cancel(Seq<char>),
    CancelAll,
}

/// The map after one operation.
pub open spec fn apply_action<V>(m: SlotMap<V>, a: Action<V>) -> SlotMap<V> {
    match a {
        Action::Insert(k, v) => after_insert(m, k, v),
        Action::Cancel(k) => after_cancel(m, k),
        Action::CancelAll => after_cancel_all(m),
    }
}

/// The map after a whole sequence of operations, first to last.
pub open spec fn apply_actions<V>(m: SlotMap<V>, s: Seq<Action<V>>) -> SlotMap<V>
    decreases s.len(),
{
    if s.len() == 0 {
        m
    } else {
        apply_actions(apply_action(m, s[0]), s.skip(1))
    }
}

/// The operation stores a value under `k`.
pub open spec fn inserts_key<V>(a: Action<V>, k: Seq<char>) -> bool {
    a matches Action::Insert(k2, _) && k2 == k
}

/// Through any sequence of inserts, cancellations and sweeps, `get(k)` finds
/// a value exactly when some insert of `k` occurred or `k` was filled at the
/// start: only an insert creates a value, and no form of cancellation
/// removes one.
pub proof fn lemma_filled_after_actions<V>(m: SlotMap<V>, s: Seq<Action<V>>, k: Seq<char>)
    ensures
        is_filled(apply_actions(m, s), k) <==> ((exists|i: int|
            0 <= i < s.len() && inserts_key(s[i], k)) || is_filled(m, k)),
    decreases s.len(),
{
    if s.len() > 0 {
        let m1 = apply_action(m, s[0]);
        lemma_filled_after_actions(m1, s.skip(1), k);
        assert(is_filled(m1, k) <==> (inserts_key(s[0], k) || is_filled(m, k))) by {
            match s[0] {
                Action::Insert(k2, v) => {
                    if k2 == k {
                    } else {
                        assert(is_filled(m1, k) <==> is_filled(m, k));
                    }
                },
                Action::Cancel(k2) => {
                    assert(is_filled(m1, k) <==> is_filled(m, k));
                },
                Action::CancelAll => {
                    lemma_cancel_all_keeps_filled(m, k);
                },
            }
        }
        if exists|i: int| 0 <= i < s.len() && inserts_key(s[i], k) {
            let i = choose|i: int| 0 <= i < s.len() && inserts_key(s[i], k);
            if i > 0 {
                assert(s.skip(1)[i - 1] == s[i]);
                assert(inserts_key(s.skip(1)[i - 1], k));
            }
        }
        if exists|i: int| 0 <= i < s.skip(1).len() && inserts_key(s.skip(1)[i], k) {
            let i = choose|i: int| 0 <= i < s.skip(1).len() && inserts_key(s.skip(1)[i], k);
            assert(s.skip(1)[i] == s[i + 1]);
            assert(inserts_key(s[i + 1], k));
        }
    }
}

} // verus!
