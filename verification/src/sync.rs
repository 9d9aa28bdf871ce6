//! Synchronization primitives: an atomically accessed 64-bit value, a mutex without blocking, a
//! semaphore and a value that is initialized once.

use vstd::prelude::*;
use core::marker::PhantomData;
use core::sync::atomic::{AtomicBool, AtomicU64, AtomicUsize, Ordering};

verus! {

/// A value that can be converted both to and from a `u64`, such as a set of flags.
pub trait Bits64: Sized {
    /// The bits that represent `self`.
    spec fn bits_of(self) -> u64;

    /// The value that the bits `bits` represent.
    spec fn value_of(bits: u64) -> Self;

    /// Returns the bits that represent `self`.
    fn to_bits(self) -> (r: u64)
        ensures
            r == self.bits_of();

    /// Returns the value that the bits `bits` represent.
    fn from_bits(bits: u64) -> (r: Self)
        ensures
            r == Self::value_of(bits),
            r.bits_of() == bits;
}

impl Bits64 for u64 {
    open spec fn bits_of(self) -> u64 {
        self
    }

    open spec fn value_of(bits: u64) -> u64 {
        bits
    }

    fn to_bits(self) -> (r: u64) {
        self
    }

    fn from_bits(bits: u64) -> (r: u64) {
        bits
    }
}

/// Whether `o` may order a load, or the failure of a compare-exchange: std panics on `Release`
/// and `AcqRel` there.
pub open spec fn load_ordering(o: Ordering) -> bool {
    o != Ordering::Release && o != Ordering::AcqRel
}

/// Whether `o` may order a store: std panics on `Acquire` and `AcqRel` there.
pub open spec fn store_ordering(o: Ordering) -> bool {
    o != Ordering::Acquire && o != Ordering::AcqRel
}

/// Calls `AtomicU64::into_inner`, which consumes the atomic and returns the value it held. What
/// that value is depends on the stores made to the atomic, which are not tracked here, so nothing is
/// stated of it.
#[verifier::external_body]
fn u64_into_inner(a: AtomicU64) -> (r: u64) {
    a.into_inner()
}

/// Calls `AtomicU64::compare_exchange`. As std documents, the value is replaced only if it equals
/// `current`, and the result holds the previous value: in `Ok` (then equal to `current`) if the
/// replacement was made, else in `Err` (then different from `current`).
#[verifier::external_body]
fn u64_compare_exchange(a: &AtomicU64, current: u64, new: u64, success: Ordering, failure: Ordering) -> (r: Result<u64, u64>)
    requires
        load_ordering(failure),
    ensures
        r is Ok ==> r->Ok_0 == current,
        r is Err ==> r->Err_0 != current,
{
    a.compare_exchange(current, new, success, failure)
}

/// Calls `AtomicU64::compare_exchange_weak`. As std documents, the result holds the previous value,
/// in `Ok` (then equal to `current`) if the replacement was made; unlike `compare_exchange` it may
/// fail even when the value equals `current`, so nothing is stated of an `Err`.
#[verifier::external_body]
fn u64_compare_exchange_weak(a: &AtomicU64, current: u64, new: u64, success: Ordering, failure: Ordering) -> (r: Result<u64, u64>)
    requires
        load_ordering(failure),
    ensures
        r is Ok ==> r->Ok_0 == current,
{
    a.compare_exchange_weak(current, new, success, failure)
}

/// Calls `AtomicBool::compare_exchange`. As std documents, the flag is replaced only if it equals
/// `current`; the previous value is returned in `Ok` (equal to `current`) on success, else in `Err`
/// (different from `current`).
#[verifier::external_body]
fn bool_compare_exchange(a: &AtomicBool, current: bool, new: bool, success: Ordering, failure: Ordering) -> (r: Result<bool, bool>)
    requires
        load_ordering(failure),
    ensures
        r is Ok ==> r->Ok_0 == current,
        r is Err ==> r->Err_0 != current,
{
    a.compare_exchange(current, new, success, failure)
}

/// Calls `AtomicUsize::compare_exchange`. As std documents, the value is replaced only if it
/// equals `current`; the previous value is returned in `Ok` (equal to `current`) on success, else in
/// `Err` (different from `current`).
#[verifier::external_body]
pub(crate) fn usize_compare_exchange(a: &AtomicUsize, current: usize, new: usize, success: Ordering, failure: Ordering) -> (r: Result<usize, usize>)
    requires
        load_ordering(failure),
    ensures
        r is Ok ==> r->Ok_0 == current,
        r is Err ==> r->Err_0 != current,
{
    a.compare_exchange(current, new, success, failure)
}

/// Calls `AtomicUsize::compare_exchange_weak`. As std documents, the previous value is returned in
/// `Ok` (equal to `current`) if the replacement was made; the call may fail spuriously, so nothing
/// is stated of an `Err`.
#[verifier::external_body]
fn usize_compare_exchange_weak(a: &AtomicUsize, current: usize, new: usize, success: Ordering, failure: Ordering) -> (r: Result<usize, usize>)
    requires
        load_ordering(failure),
    ensures
        r is Ok ==> r->Ok_0 == current,
{
    a.compare_exchange_weak(current, new, success, failure)
}

/// Calls `AtomicU64::fetch_update`, which loads the value and calls `g` on it, storing what `g`
/// returns if it is `Some` and the value has not changed meanwhile (else it loads again and
/// repeats). As std documents, the result is `Ok` with the value from which `g` returned `Some`
/// and the update was made, or `Err` with the value for which `g` returned `None`.
#[verifier::external_body]
fn u64_fetch_update<G: Fn(u64) -> Option<u64>>(a: &AtomicU64, set_order: Ordering, fetch_order: Ordering, g: G)
    -> (r: Result<u64, u64>)
    requires
        load_ordering(fetch_order),
        forall|x: u64| call_requires(g, (x,)),
    ensures
        r is Ok ==> exists|v: u64| #[trigger] call_ensures(g, (r->Ok_0,), Some(v)),
        r is Err ==> call_ensures(g, (r->Err_0,), None::<u64>),
{
    a.fetch_update(set_order, fetch_order, g)
}

// Whether `f` may be called on the value the bits `x` represent.
spec fn accepts_bits<T: Bits64, F: Fn(T) -> Option<T>>(f: &F, x: u64) -> bool {
    call_requires(*f, (T::value_of(x),))
}

// Whether `f` may return `Some` for the value the bits `x` represent.
spec fn gives_some_for_bits<T: Bits64, F: Fn(T) -> Option<T>>(f: &F, x: u64) -> bool {
    exists|v: T| #[trigger] call_ensures(*f, (T::value_of(x),), Some(v))
}

// Whether `f` may return `None` for the value the bits `x` represent.
spec fn gives_none_for_bits<T: Bits64, F: Fn(T) -> Option<T>>(f: &F, x: u64) -> bool {
    call_ensures(*f, (T::value_of(x),), None::<T>)
}

// Applies `f` to the value the bits `x` represent and returns the bits of its result.
fn apply_to_bits<T: Bits64, F: Fn(T) -> Option<T>>(f: &F, x: u64) -> (r: Option<u64>)
    requires
        call_requires(*f, (T::value_of(x),)),
    ensures
        r is Some ==> exists|v: T| #[trigger] call_ensures(*f, (T::value_of(x),), Some(v)),
        r is None ==> call_ensures(*f, (T::value_of(x),), None::<T>),
{
    match f(T::from_bits(x)) {
        Some(v) => Some(v.to_bits()),
        None => None,
    }
}

/// A value that can be converted both to and from a `u64`, stored atomically.
#[derive(Debug)]
pub struct Atomic64Bit<T: Bits64> {
    internal: AtomicU64,
    _phantom: PhantomData<T>,
}

impl<T: Bits64> Atomic64Bit<T> {
    /// Makes a new `Atomic64Bit` from the given non-atomic value.
    pub fn new(v: T) -> (r: Self) {
        Atomic64Bit { internal: AtomicU64::new(v.to_bits()), _phantom: PhantomData }
    }

    /// Makes a new `Atomic64Bit` holding the raw bits `v`, which must represent a value of `T`.
    pub fn new_raw(v: u64) -> (r: Self) {
        Atomic64Bit { internal: AtomicU64::new(v), _phantom: PhantomData }
    }

    /// Converts the given owned atomic value into a non-atomic value.
    pub fn into_inner(self) -> (r: T) {
        T::from_bits(u64_into_inner(self.internal))
    }

    /// Atomically loads the current value.
    pub fn load(&self, order: Ordering) -> (r: T)
        requires
            load_ordering(order),
    {
        T::from_bits(self.internal.load(order))
    }

    /// Atomically stores the given value.
    pub fn store(&self, val: T, order: Ordering)
        requires
            store_ordering(order),
    {
        self.internal.store(val.to_bits(), order)
    }

    /// Atomically swaps the given value with the current value, returning the previous value.
    pub fn swap(&self, val: T, order: Ordering) -> (r: T) {
        T::from_bits(self.internal.swap(val.to_bits(), order))
    }

    /// Replaces the value with `new` if it is currently `current`. Returns the previous value, in
    /// `Ok` if the replacement was made.
    pub fn compare_exchange(&self, current: T, new: T, success: Ordering, failure: Ordering) -> (r: Result<T, T>)
        requires
            load_ordering(failure),
        ensures
            r is Ok ==> r->Ok_0.bits_of() == current.bits_of(),
            r is Err ==> r->Err_0.bits_of() != current.bits_of(),
    {
        match u64_compare_exchange(&self.internal, current.to_bits(), new.to_bits(), success, failure) {
            Ok(x) => Ok(T::from_bits(x)),
            Err(x) => Err(T::from_bits(x)),
        }
    }

    /// Like `compare_exchange`, but allowed to fail spuriously.
    pub fn compare_exchange_weak(&self, current: T, new: T, success: Ordering, failure: Ordering) -> (r: Result<T, T>)
        requires
            load_ordering(failure),
        ensures
            r is Ok ==> r->Ok_0.bits_of() == current.bits_of(),
    {
        match u64_compare_exchange_weak(&self.internal, current.to_bits(), new.to_bits(), success, failure) {
            Ok(x) => Ok(T::from_bits(x)),
            Err(x) => Err(T::from_bits(x)),
        }
    }

    /// Repeatedly calls `f` on the current value and tries to store what it returns, until that
    /// succeeds or `f` returns `None`. Returns the value from which the update was made, in `Ok`,
    /// or the value for which `f` returned `None`, in `Err`.
    pub fn fetch_update<F: Fn(T) -> Option<T>>(&self, set_order: Ordering, fetch_order: Ordering, f: F)
        -> (r: Result<T, T>)
        requires
            load_ordering(fetch_order),
            forall|x: T| call_requires(f, (x,)),
        ensures
            r is Ok ==> exists|v: T| #[trigger] call_ensures(f, (r->Ok_0,), Some(v)),
            r is Err ==> call_ensures(f, (r->Err_0,), None::<T>),
    {
        let fr = &f;
        let g = move |x: u64| -> (o: Option<u64>)
            requires
                accepts_bits::<T, F>(fr, x),
            ensures
                o is Some ==> gives_some_for_bits::<T, F>(fr, x),
                o is None ==> gives_none_for_bits::<T, F>(fr, x),
        {
            apply_to_bits(fr, x)
        };
        match u64_fetch_update(&self.internal, set_order, fetch_order, g) {
            Ok(x) => {
                let res = T::from_bits(x);
                proof {
                    let v = choose|v: u64| #[trigger] call_ensures(g, (x,), Some(v));
                    assert(call_ensures(g, (x,), Some(v)));
                    assert(gives_some_for_bits::<T, F>(fr, x));
                    let w = choose|w: T| #[trigger] call_ensures(*fr, (T::value_of(x),), Some(w));
                    assert(call_ensures(f, (res,), Some(w)));
                    assert(exists|v: T| #[trigger] call_ensures(f, (res,), Some(v)));
                }
                let r: Result<T, T> = Ok(res);
                assert(r->Ok_0 == res);
                r
            },
            Err(x) => Err(T::from_bits(x)),
        }
    }

    /// Atomically replaces the value with its bitwise OR with `val`, returning the previous value.
    pub fn fetch_or(&self, val: T, order: Ordering) -> (r: T) {
        T::from_bits(self.internal.fetch_or(val.to_bits(), order))
    }
}

/// A lock around a value that requires mutual exclusion, without any provision for blocking.
#[derive(Debug)]
pub struct Mutex<T> {
    value: T,
    locked: AtomicBool,
}

/// A guard for a locked `Mutex`, which gives access to the value and unlocks the mutex.
pub struct MutexGuard<'a, T> {
    mutex: &'a Mutex<T>,
}

impl<T> Mutex<T> {
    /// The value the mutex guards.
    pub closed spec fn inner(&self) -> T {
        self.value
    }

    /// Constructs a new, unlocked mutex around the given value.
    pub fn new(value: T) -> (m: Mutex<T>)
        ensures
            m.inner() == value,
    {
        Mutex { value, locked: AtomicBool::new(false) }
    }

    /// Attempts to lock the mutex. Returns a guard if it was unlocked, else `Err(())`.
    pub fn try_lock(&self) -> (r: Result<MutexGuard<'_, T>, ()>)
        ensures
            r is Ok ==> r->Ok_0.mutex_of() == *self,
    {
        match bool_compare_exchange(&self.locked, false, true, Ordering::AcqRel, Ordering::Acquire) {
            Ok(_) => Ok(MutexGuard { mutex: self }),
            Err(_) => Err(()),
        }
    }
}

impl<'a, T> MutexGuard<'a, T> {
    /// The mutex this guard has locked.
    pub closed spec fn mutex_of(&self) -> Mutex<T> {
        *self.mutex
    }

    /// Returns the guarded value.
    pub fn value(&self) -> (r: &T)
        ensures
            *r == self.mutex_of().inner(),
    {
        &self.mutex.value
    }

    /// Unlocks the mutex.
    pub fn unlock(self) {
        self.mutex.locked.store(false, Ordering::Release);
    }
}

/// A value that only a limited number of visitors may access at a time.
pub struct Semaphore<T> {
    value: T,
    tickets: AtomicUsize,
}

/// A guard for an access to a `Semaphore`, which gives shared access to the value and gives the
/// ticket back.
pub struct SemaphoreGuard<'a, T> {
    semaphore: &'a Semaphore<T>,
}

/// The number of tickets left after one is taken from `tickets`, or `None` if there is none.
pub fn take_ticket(tickets: usize) -> (r: Option<usize>)
    ensures
        tickets > 0 ==> r == Some((tickets - 1) as usize),
        tickets == 0 ==> r is None,
{
    if tickets > 0 { Some(tickets - 1) } else { None }
}

/// One attempt at taking a ticket, given the count `tickets` that was read: with no ticket left
/// the answer is `Err(0)` and nothing is exchanged; otherwise `exchange` is asked to replace the
/// count `tickets` with `tickets - 1`, and its answer (`Ok` with the count it replaced, or `Err`
/// with the count it found instead) is returned.
pub fn take_ticket_once<F: FnOnce(usize, usize) -> Result<usize, usize>>(tickets: usize, exchange: F)
    -> (r: Result<usize, usize>)
    requires
        tickets > 0 ==> exchange.requires((tickets, (tickets - 1) as usize)),
    ensures
        tickets == 0 ==> r == Err::<usize, usize>(0),
        tickets > 0 ==> exchange.ensures((tickets, (tickets - 1) as usize), r),
{
    if tickets > 0 {
        exchange(tickets, tickets - 1)
    } else {
        Err(0)
    }
}

/// Calls `AtomicUsize::fetch_update` with `take_ticket`: repeatedly loads the count and tries to
/// store the count with one ticket taken, until that succeeds or there is no ticket. As std
/// documents, the result is `Ok` with the count the update was made from, or `Err` with the count
/// for which `take_ticket` returned `None`.
#[verifier::external_body]
fn fetch_take_ticket(tickets: &AtomicUsize, set_order: Ordering, fetch_order: Ordering) -> (r: Result<usize, usize>)
    requires
        load_ordering(fetch_order),
    ensures
        r is Ok ==> r->Ok_0 > 0,
        r is Err ==> r->Err_0 == 0,
{
    tickets.fetch_update(set_order, fetch_order, |t| take_ticket(t))
}

impl<T> Semaphore<T> {
    /// The value the semaphore guards.
    pub closed spec fn inner(&self) -> T {
        self.value
    }

    /// Constructs a new semaphore around the given value that admits `max_visitors` at a time.
    pub fn new(value: T, max_visitors: usize) -> (s: Semaphore<T>)
        ensures
            s.inner() == value,
    {
        Semaphore { value, tickets: AtomicUsize::new(max_visitors) }
    }

    /// Attempts to access the value, retrying as long as the number of visitors has not reached
    /// the maximum. Returns a guard if successful, else `Err(())`.
    pub fn try_access(&self) -> (r: Result<SemaphoreGuard<'_, T>, ()>)
        ensures
            r is Ok ==> r->Ok_0.semaphore_of() == *self,
    {
        match fetch_take_ticket(&self.tickets, Ordering::AcqRel, Ordering::Acquire) {
            Ok(_) => Ok(SemaphoreGuard { semaphore: self }),
            Err(_) => Err(()),
        }
    }

    /// Attempts to access the value, trying only once. This can fail spuriously. Returns a guard
    /// if successful, else `Err(x)`, where `x` is how many more visitors could fit when it was
    /// checked.
    pub fn try_access_weak(&self) -> (r: Result<SemaphoreGuard<'_, T>, usize>)
        ensures
            r is Ok ==> r->Ok_0.semaphore_of() == *self,
    {
        let tickets = self.tickets.load(Ordering::Acquire);
        let exchange = |current: usize, new: usize|
            usize_compare_exchange_weak(&self.tickets, current, new, Ordering::AcqRel, Ordering::Acquire);
        match take_ticket_once(tickets, exchange) {
            Ok(_) => Ok(SemaphoreGuard { semaphore: self }),
            Err(x) => Err(x),
        }
    }
}

impl<'a, T> SemaphoreGuard<'a, T> {
    /// The semaphore this guard accesses.
    pub closed spec fn semaphore_of(&self) -> Semaphore<T> {
        *self.semaphore
    }

    /// Returns the guarded value.
    pub fn value(&self) -> (r: &T)
        ensures
            *r == self.semaphore_of().inner(),
    {
        &self.semaphore.value
    }

    /// Gives the ticket back.
    pub fn release(self) {
        self.semaphore.tickets.fetch_add(1, Ordering::AcqRel);
    }
}

/// A piece of data whose value is set only once.
#[derive(Debug)]
pub struct Once<T> {
    value: Option<T>,
}

impl<T> Once<T> {
    /// The value, once it has been set.
    pub closed spec fn get_spec(&self) -> Option<T> {
        self.value
    }

    /// Creates a new `Once` value, not yet initialized.
    pub fn new() -> (o: Once<T>)
        ensures
            o.get_spec() is None,
    {
        Once { value: None }
    }

    /// Initializes the value with `value` unless it already has one; returns the value.
    pub fn call_once(&mut self, value: T) -> (r: &T)
        ensures
            old(self).get_spec() is Some ==> final(self).get_spec() == old(self).get_spec(),
            old(self).get_spec() is None ==> final(self).get_spec() == Some(value),
            *r == final(self).get_spec().unwrap(),
    {
        if self.value.is_none() {
            self.value = Some(value);
        }
        self.value.as_ref().unwrap()
    }

    /// Returns the value, which must have been set.
    pub fn force_get(&self) -> (r: &T)
        requires
            self.get_spec() is Some,
        ensures
            *r == self.get_spec().unwrap(),
    {
        self.value.as_ref().unwrap()
    }

    /// Returns the value iff it has been set.
    pub fn try_get(&self) -> (r: Option<&T>)
        ensures
            r is Some <==> self.get_spec() is Some,
            r is Some ==> *r.unwrap() == self.get_spec().unwrap(),
    {
        match &self.value {
            Some(v) => Some(v),
            None => None,
        }
    }
}

} // verus!
