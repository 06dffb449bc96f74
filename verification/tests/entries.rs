use std::sync::atomic::AtomicBool;
use std::sync::atomic::Ordering;
use std::sync::Arc;
use std::task::Wake;
use std::task::Waker;

use waitmap::Entry;
use waitmap::WaitMap;
use waitmap::WaitPoll;
use waitmap::WakerSet;

struct Flag(AtomicBool);

impl Wake for Flag {
    fn wake(self: Arc<Self>) {
        self.0.store(true, Ordering::SeqCst);
    }
}

fn test_waker() -> (Waker, Arc<Flag>) {
    let flag = Arc::new(Flag(AtomicBool::new(false)));
    (Waker::from(flag.clone()), flag)
}

#[test]
fn entry_or_insert_on_vacant_key() {
    let mut m: WaitMap<i32> = WaitMap::new();
    let e = m.entry(String::from("k"));
    assert_eq!(e.key(), "k");
    let slot = e.or_insert(4, &mut m);
    assert_eq!(slot.key(), "k");
    assert_eq!(slot.value(), &4);
    assert_eq!(m.get("k").unwrap().value(), &4);
}

#[test]
fn entry_or_insert_keeps_existing_value() {
    let mut m = WaitMap::new();
    m.insert(String::from("k"), 1);
    let e = m.entry(String::from("k"));
    let slot = e.or_insert(4, &mut m);
    assert_eq!(slot.value(), &1);
    assert_eq!(m.get("k").unwrap().value(), &1);
}

#[test]
fn entry_and_modify_touches_occupied_only() {
    let mut m = WaitMap::new();
    m.insert(String::from("k"), 10);
    let e = m.entry(String::from("k")).and_modify(|v| v + 1);
    let _ = e.or_insert(0, &mut m);
    assert_eq!(m.get("k").unwrap().value(), &11);

    let e = m.entry(String::from("fresh")).and_modify(|v: i32| v + 1);
    let _ = e.or_insert(0, &mut m);
    assert_eq!(m.get("fresh").unwrap().value(), &0);
}

#[test]
fn entry_or_insert_with_runs_on_vacant_only() {
    let mut m = WaitMap::new();
    let slot = m.entry(String::from("a")).or_insert_with(|| 5, &mut m);
    assert_eq!(slot.value(), &5);
    let slot = m.entry(String::from("a")).or_insert_with(|| 9, &mut m);
    assert_eq!(slot.value(), &5);
}

#[test]
fn entry_or_default_uses_the_default_value() {
    let mut m: WaitMap<i32> = WaitMap::new();
    let slot = m.entry(String::from("zero")).or_default(&mut m);
    assert_eq!(slot.value(), &0);
    m.insert(String::from("one"), 1);
    let slot = m.entry(String::from("one")).or_default(&mut m);
    assert_eq!(slot.value(), &1);
}

#[test]
fn entry_insert_through_waiting_slot_wakes_waiters() {
    let mut m: WaitMap<i32> = WaitMap::new();
    let mut waiter = m.wait("k");
    let (waker, woken) = test_waker();
    assert!(matches!(waiter.poll(&mut m, waker), WaitPoll::Pending));

    match m.entry(String::from("k")) {
        Entry::Occupied(_) => panic!("a waiting slot must surface as vacant"),
        Entry::Vacant(v) => {
            let slot = v.insert(7, &mut m);
            assert_eq!(slot.value(), &7);
        },
    }
    assert!(woken.0.load(Ordering::SeqCst));
    let (waker, _) = test_waker();
    assert!(matches!(waiter.poll(&mut m, waker), WaitPoll::Filled));
    assert_eq!(m.get("k").unwrap().value(), &7);
}

#[test]
fn entry_or_try_insert_with_error_keeps_waiters_suspended() {
    let mut m: WaitMap<i32> = WaitMap::new();
    let mut waiter = m.wait("k");
    let (waker, woken) = test_waker();
    assert!(matches!(waiter.poll(&mut m, waker), WaitPoll::Pending));

    let e = m.entry(String::from("k"));
    let result = e.or_try_insert_with(|| Err::<i32, &str>("refused"), &mut m);
    match result {
        Ok(_) => panic!("the fallible default failed, so nothing may be inserted"),
        Err(message) => assert_eq!(message, "refused"),
    }
    assert!(!woken.0.load(Ordering::SeqCst));
    assert!(m.get("k").is_none());

    m.insert(String::from("k"), 3);
    assert!(woken.0.load(Ordering::SeqCst));
    let (waker, _) = test_waker();
    assert!(matches!(waiter.poll(&mut m, waker), WaitPoll::Filled));
    assert_eq!(m.get("k").unwrap().value(), &3);
}

#[test]
fn entry_or_try_insert_with_ok_stores_the_value() {
    let mut m: WaitMap<i32> = WaitMap::new();
    let e = m.entry(String::from("k"));
    let slot = e.or_try_insert_with(|| Ok::<i32, &str>(6), &mut m).unwrap();
    assert_eq!(slot.value(), &6);
    assert_eq!(m.get("k").unwrap().value(), &6);
}

#[test]
fn occupied_entry_reads_writes_and_removes() {
    let mut m = WaitMap::new();
    m.insert(String::from("k"), 1);
    match m.entry(String::from("k")) {
        Entry::Vacant(_) => panic!("the key was just filled"),
        Entry::Occupied(mut o) => {
            assert_eq!(o.key(), "k");
            assert_eq!(o.get(), &1);
            *o.get_mut() = 2;
            let previous = o.insert(3);
            assert_eq!(previous, 2);
            let (key, value) = o.remove_entry();
            assert_eq!((key, value), (String::from("k"), 3));
        },
    }
    assert!(m.get("k").is_none());
    assert_eq!(m.len(), 0);
}

#[test]
fn occupied_entry_remove_yields_the_value() {
    let mut m = WaitMap::new();
    m.insert(String::from("k"), 8);
    match m.entry(String::from("k")) {
        Entry::Vacant(_) => panic!("the key was just filled"),
        Entry::Occupied(o) => assert_eq!(o.remove(), 8),
    }
    assert!(m.get("k").is_none());
}

#[test]
fn occupied_entry_replace_entry_swaps_the_value() {
    let mut m = WaitMap::new();
    m.insert(String::from("k"), 1);
    match m.entry(String::from("k")) {
        Entry::Vacant(_) => panic!("the key was just filled"),
        Entry::Occupied(o) => {
            let (key, old) = o.replace_entry(2, &mut m);
            assert_eq!((key, old), (String::from("k"), 1));
        },
    }
    assert_eq!(m.get("k").unwrap().value(), &2);
}

#[test]
fn occupied_entry_into_ref_seals_the_slot() {
    let mut m = WaitMap::new();
    m.insert(String::from("k"), 5);
    match m.entry(String::from("k")) {
        Entry::Vacant(_) => panic!("the key was just filled"),
        Entry::Occupied(o) => {
            let slot = o.into_ref(&mut m);
            assert_eq!(slot.value(), &5);
            *slot.value = 6;
        },
    }
    assert_eq!(m.get("k").unwrap().value(), &6);
}

#[test]
fn entry_restore_puts_the_slot_back() {
    let mut m = WaitMap::new();
    m.insert(String::from("k"), 4);
    let e = m.entry(String::from("k"));
    assert!(m.get("k").is_none());
    e.restore(&mut m);
    assert_eq!(m.get("k").unwrap().value(), &4);

    let mut waiter = m.wait("w");
    let (waker, woken) = test_waker();
    assert!(matches!(waiter.poll(&mut m, waker), WaitPoll::Pending));
    let e = m.entry(String::from("w"));
    e.restore(&mut m);
    assert!(!woken.0.load(Ordering::SeqCst));
    m.insert(String::from("w"), 1);
    assert!(woken.0.load(Ordering::SeqCst));
}

#[test]
fn waker_set_replace_remove_and_wake() {
    let mut set = WakerSet::new();
    assert_eq!(set.len(), 0);

    let (first, first_woken) = test_waker();
    let mut first_idx = usize::MAX;
    set.replace(first, &mut first_idx);
    assert_eq!(first_idx, 0);
    assert_eq!(set.len(), 1);

    let (second, second_woken) = test_waker();
    let mut second_idx = usize::MAX;
    set.replace(second, &mut second_idx);
    assert_eq!(second_idx, 1);
    assert_eq!(set.len(), 2);

    let (replacement, replacement_woken) = test_waker();
    set.replace(replacement, &mut first_idx);
    assert_eq!(first_idx, 0);
    assert_eq!(set.len(), 2);

    set.remove(second_idx);
    assert_eq!(set.len(), 2);

    set.wake();
    assert!(!first_woken.0.load(Ordering::SeqCst));
    assert!(replacement_woken.0.load(Ordering::SeqCst));
    assert!(!second_woken.0.load(Ordering::SeqCst));
}
