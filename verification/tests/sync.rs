use phoenix::sync::{take_ticket, take_ticket_once, Atomic64Bit, Mutex, Once, Semaphore};
use std::sync::atomic::Ordering;

#[test]
fn mutex_locks_once_until_unlocked() {
    let mutex = Mutex::new(42u32);
    let guard = mutex.try_lock().ok().unwrap();
    assert_eq!(*guard.value(), 42);
    assert!(mutex.try_lock().is_err());
    guard.unlock();
    let guard = mutex.try_lock().ok().unwrap();
    assert_eq!(*guard.value(), 42);
    guard.unlock();
}

#[test]
fn semaphore_admits_at_most_its_visitors() {
    let sem = Semaphore::new("shared", 2);
    let a = sem.try_access().ok().unwrap();
    let b = sem.try_access().ok().unwrap();
    assert_eq!(*a.value(), "shared");
    assert!(sem.try_access().is_err());
    assert_eq!(sem.try_access_weak().err(), Some(0));
    b.release();
    let c = sem.try_access().ok().unwrap();
    assert_eq!(*c.value(), "shared");
    a.release();
    c.release();
}

#[test]
fn semaphore_without_visitors_refuses() {
    let sem = Semaphore::new(7u8, 0);
    assert!(sem.try_access().is_err());
    assert_eq!(sem.try_access_weak().err(), Some(0));
}

#[test]
fn taking_tickets() {
    assert_eq!(take_ticket(3), Some(2));
    assert_eq!(take_ticket(1), Some(0));
    assert_eq!(take_ticket(0), None);
}

#[test]
fn atomic_64_bit_operations() {
    let a = Atomic64Bit::new(5u64);
    assert_eq!(a.load(Ordering::SeqCst), 5);
    assert_eq!(a.compare_exchange(5, 7, Ordering::SeqCst, Ordering::SeqCst), Ok(5));
    assert_eq!(a.compare_exchange(5, 9, Ordering::SeqCst, Ordering::SeqCst), Err(7));
    assert_eq!(a.swap(3, Ordering::SeqCst), 7);
    assert_eq!(a.fetch_or(4, Ordering::SeqCst), 3);
    a.store(0x10, Ordering::SeqCst);
    assert_eq!(a.load(Ordering::SeqCst), 0x10);
    loop {
        if a.compare_exchange_weak(0x10, 0x20, Ordering::SeqCst, Ordering::SeqCst).is_ok() {
            break;
        }
    }
    assert_eq!(a.into_inner(), 0x20);
}

#[test]
fn once_keeps_the_first_value() {
    let mut once = Once::new();
    assert_eq!(once.try_get(), None);
    assert_eq!(*once.call_once(3u32), 3);
    assert_eq!(*once.call_once(4u32), 3);
    assert_eq!(once.try_get(), Some(&3));
}

#[test]
fn atomic_fetch_update() {
    let a: Atomic64Bit<u64> = Atomic64Bit::new(5);
    let step = |x: u64| if x < 6 { Some(x + 1) } else { None };
    assert_eq!(a.fetch_update(Ordering::AcqRel, Ordering::Acquire, step), Ok(5));
    assert_eq!(a.load(Ordering::Acquire), 6);
    assert_eq!(a.fetch_update(Ordering::AcqRel, Ordering::Acquire, step), Err(6));
    assert_eq!(a.load(Ordering::Acquire), 6);
}

#[test]
fn once_force_get_after_set() {
    let mut once: Once<u32> = Once::new();
    once.call_once(9);
    assert_eq!(*once.force_get(), 9);
    let raw: Atomic64Bit<u64> = Atomic64Bit::new_raw(0x55);
    assert_eq!(raw.load(Ordering::Acquire), 0x55);
}

#[test]
fn one_try_at_a_ticket() {
    // With no ticket left nothing is exchanged.
    assert_eq!(take_ticket_once(0, |_current: usize, _new: usize| -> Result<usize, usize> { panic!("no exchange") }), Err(0));
    // Otherwise the count is replaced by one less, and the exchange's answer is returned.
    assert_eq!(take_ticket_once(3, |current: usize, new: usize| {
        assert_eq!((current, new), (3, 2));
        Ok(current)
    }), Ok(3));
    assert_eq!(take_ticket_once(3, |_current: usize, _new: usize| Err(1)), Err(1));
}

#[test]
fn weak_access_takes_and_gives_back_tickets() {
    let s = Semaphore::new(7u32, 1);
    // A weak attempt may fail spuriously, so retry until one succeeds.
    let guard = loop {
        match s.try_access_weak() {
            Ok(g) => break g,
            Err(left) => assert_eq!(left, 1),
        }
    };
    assert_eq!(*guard.value(), 7);
    assert_eq!(s.try_access_weak().err(), Some(0));
    guard.release();
    assert!(s.try_access().is_ok());
}
