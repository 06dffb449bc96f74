use std::sync::atomic::AtomicBool;
use std::sync::atomic::Ordering;
use std::sync::Arc;
use std::task::Wake;
use std::task::Waker;

use waitmap::RemovePoll;
use waitmap::WaitMap;
use waitmap::WaitPoll;

struct Flag(AtomicBool);

impl Wake for Flag {
    fn wake(self: Arc<Self>) {
        self.0.store(true, Ordering::SeqCst);
    }
}

fn test_waker() -> (Waker, Arc<Flag>) {
    let flag = Arc::new(Flag(AtomicBool::new(false)));
    (Waker::from(flag.clone()), flag)
}

#[test]
fn get_insert_get_round() {
    let mut m = WaitMap::new();
    assert!(m.get("x").is_none());
    m.insert(String::from("x"), 0);
    assert_eq!(m.get("x").unwrap().value(), &0);
    assert!(m.get("y").is_none());
}

#[test]
fn insert_twice_returns_first_value() {
    let mut m = WaitMap::new();
    assert_eq!(m.insert(String::from("k"), 1), None);
    assert_eq!(m.insert(String::from("k"), 2), Some(1));
    assert_eq!(m.get("k").unwrap().value(), &2);
}

#[test]
fn waiter_observes_later_insert() {
    let mut m: WaitMap<i32> = WaitMap::new();
    let mut waiter = m.wait("Rosa");
    let (waker, _) = test_waker();
    assert!(matches!(waiter.poll(&mut m, waker), WaitPoll::Pending));
    m.insert(String::from("Rosa"), 0);
    let (waker, _) = test_waker();
    assert!(matches!(waiter.poll(&mut m, waker), WaitPoll::Filled));
    assert_eq!(m.get("Rosa").unwrap().value(), &0);
}

#[test]
fn cancelled_waiter_observes_none() {
    let mut m: WaitMap<i32> = WaitMap::new();
    let mut waiter = m.wait("Volt");
    assert!(m.cancel("Volt"));
    let (waker, _) = test_waker();
    assert!(matches!(waiter.poll(&mut m, waker), WaitPoll::Absent));
}

#[test]
fn three_waiters_one_writer() {
    let mut m: WaitMap<i32> = WaitMap::new();
    let mut a = m.wait("k");
    let mut b = m.wait("k");
    let mut c = m.wait("k");
    let (waker, _) = test_waker();
    assert!(matches!(a.poll(&mut m, waker), WaitPoll::Pending));
    let (waker, _) = test_waker();
    assert!(matches!(b.poll(&mut m, waker), WaitPoll::Pending));
    let (waker, _) = test_waker();
    assert!(matches!(c.poll(&mut m, waker), WaitPoll::Pending));

    m.insert(String::from("k"), 7);

    let (waker, _) = test_waker();
    assert!(matches!(a.poll(&mut m, waker), WaitPoll::Filled));
    assert_eq!(m.get("k").unwrap().value(), &7);
    let (waker, _) = test_waker();
    assert!(matches!(b.poll(&mut m, waker), WaitPoll::Filled));
    assert_eq!(m.get("k").unwrap().value(), &7);
    let (waker, _) = test_waker();
    assert!(matches!(c.poll(&mut m, waker), WaitPoll::Filled));
    assert_eq!(m.get("k").unwrap().value(), &7);
}

#[test]
fn cancel_all_resolves_unpolled_waiter() {
    let mut m: WaitMap<i32> = WaitMap::new();
    let mut f = m.wait("z");
    m.cancel_all();
    let (waker, _) = test_waker();
    assert!(matches!(f.poll(&mut m, waker), WaitPoll::Absent));
    assert_eq!(m.len(), 0);
}

#[test]
fn cancel_all_keeps_filled_slots() {
    let mut m = WaitMap::new();
    m.insert(String::from("a"), 1);
    let mut f = m.wait("b");
    assert_eq!(m.len(), 1);
    m.cancel_all();
    let (waker, _) = test_waker();
    assert!(matches!(f.poll(&mut m, waker), WaitPoll::Absent));
    assert_eq!(m.len(), 1);
    assert_eq!(m.get("a").unwrap().value(), &1);
}

#[test]
fn cancel_reports_what_it_removed() {
    let mut m = WaitMap::new();
    assert!(!m.cancel("nobody"));
    m.insert(String::from("full"), 5);
    assert!(!m.cancel("full"));
    assert_eq!(m.get("full").unwrap().value(), &5);
    let _ = m.wait("parked");
    assert!(m.cancel("parked"));
    assert!(!m.cancel("parked"));
}

#[test]
fn get_mut_writes_into_the_slot() {
    let mut m = WaitMap::new();
    m.insert(String::from("a"), 1);
    {
        let slot = m.get_mut("a").unwrap();
        assert_eq!(slot.key(), "a");
        assert_eq!(slot.value(), &1);
        *slot.value = 5;
    }
    assert_eq!(m.get("a").unwrap().value(), &5);
    assert!(m.get_mut("missing").is_none());
}

#[test]
fn waiting_slot_is_invisible_to_get() {
    let mut m: WaitMap<i32> = WaitMap::new();
    let _ = m.wait("ghost");
    assert!(m.get("ghost").is_none());
    assert!(m.get_mut("ghost").is_none());
    assert_eq!(m.len(), 0);
}

#[test]
fn wait_on_filled_key_resolves_at_once() {
    let mut m = WaitMap::new();
    m.insert(String::from("k"), 3);
    let mut w = m.wait("k");
    let (waker, woken) = test_waker();
    assert!(matches!(w.poll(&mut m, waker), WaitPoll::Filled));
    assert!(!woken.0.load(Ordering::SeqCst));
    assert_eq!(m.get("k").unwrap().value(), &3);
}

#[test]
fn repoll_replaces_the_parked_waker() {
    let mut m: WaitMap<i32> = WaitMap::new();
    let mut w = m.wait("k");
    let (first, first_woken) = test_waker();
    assert!(matches!(w.poll(&mut m, first), WaitPoll::Pending));
    let (second, second_woken) = test_waker();
    assert!(matches!(w.poll(&mut m, second), WaitPoll::Pending));
    m.insert(String::from("k"), 1);
    assert!(!first_woken.0.load(Ordering::SeqCst));
    assert!(second_woken.0.load(Ordering::SeqCst));
}

#[test]
fn abandoned_waiter_is_never_woken() {
    let mut m: WaitMap<i32> = WaitMap::new();
    let mut dropped = m.wait("k");
    let mut kept = m.wait("k");
    let (waker, dropped_woken) = test_waker();
    assert!(matches!(dropped.poll(&mut m, waker), WaitPoll::Pending));
    let (waker, kept_woken) = test_waker();
    assert!(matches!(kept.poll(&mut m, waker), WaitPoll::Pending));

    dropped.abandon(&mut m);
    m.insert(String::from("k"), 9);
    assert!(!dropped_woken.0.load(Ordering::SeqCst));
    assert!(kept_woken.0.load(Ordering::SeqCst));

    let (waker, _) = test_waker();
    assert!(matches!(kept.poll(&mut m, waker), WaitPoll::Filled));
    assert_eq!(m.get("k").unwrap().value(), &9);
}

#[test]
fn abandon_without_registration_is_a_noop() {
    let mut m: WaitMap<i32> = WaitMap::new();
    let w = m.wait("k");
    w.abandon(&mut m);
    let mut other = m.wait("k");
    let (waker, _) = test_waker();
    assert!(matches!(other.poll(&mut m, waker), WaitPoll::Pending));
    m.insert(String::from("k"), 2);
    let (waker, _) = test_waker();
    assert!(matches!(other.poll(&mut m, waker), WaitPoll::Filled));
}

#[test]
fn remover_on_absent_key_waits_then_cancel_resolves_none() {
    let mut m: WaitMap<i32> = WaitMap::new();
    let mut r = m.remove_wait("k");
    let (waker, _) = test_waker();
    assert!(matches!(r.poll(&mut m, waker), RemovePoll::Pending));
    assert!(m.cancel("k"));
    let (waker, _) = test_waker();
    assert!(matches!(r.poll(&mut m, waker), RemovePoll::Ready(None)));
}

#[test]
fn len_counts_filled_slots_only() {
    let mut m = WaitMap::new();
    assert_eq!(m.len(), 0);
    m.insert(String::from("a"), 1);
    m.insert(String::from("b"), 2);
    assert_eq!(m.len(), 2);
    let _ = m.wait("c");
    assert_eq!(m.len(), 2);
    m.insert(String::from("a"), 3);
    assert_eq!(m.len(), 2);
    m.cancel_all();
    assert_eq!(m.len(), 2);
}
