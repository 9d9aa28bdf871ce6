//! Physical pointers and the conversions between them and virtual pointers.
//!
//! A physical pointer can be used for memory-mapped I/O, since peripheral devices have no way of
//! knowing their virtual addresses and are often mapped to unchangeable physical addresses. Here a
//! pointer of either kind is represented by the address it holds; `ConstPtr` and `MutPtr` stand for
//! the two kinds of virtual pointer.

use vstd::prelude::*;
use core::marker::PhantomData;
use vstd::std_specs::cmp::{PartialEqSpec, PartialOrdSpec};

verus! {

/// Groups together the virtual pointer types.
pub trait VirtPtrTrait<T>: Sized {
    /// The address this pointer holds.
    spec fn addr(&self) -> usize;

    /// Returns a null pointer.
    fn null() -> (r: Self)
        ensures
            r.addr() == 0;

    /// Returns `true` if this pointer is null.
    fn is_null(&self) -> (r: bool)
        ensures
            r == (self.addr() == 0);

    /// Casts this pointer to a `usize` representing the start address.
    fn as_usize(&self) -> (r: usize)
        ensures
            r == self.addr();

    /// Makes a pointer that holds the address `addr`.
    fn from_usize(addr: usize) -> (r: Self)
        ensures
            r.addr() == addr;
}

/// A virtual pointer through which the pointee is only read.
#[derive(Debug, Hash)]
pub struct ConstPtr<T> {
    addr: usize,
    _pointee: PhantomData<T>,
}

/// A virtual pointer through which the pointee may be written.
#[derive(Debug, Hash)]
pub struct MutPtr<T> {
    addr: usize,
    _pointee: PhantomData<T>,
}

impl<T> VirtPtrTrait<T> for ConstPtr<T> {
    closed spec fn addr(&self) -> usize {
        self.addr
    }

    fn null() -> (r: Self) {
        ConstPtr { addr: 0, _pointee: PhantomData }
    }

    fn is_null(&self) -> (r: bool) {
        self.addr == 0
    }

    fn as_usize(&self) -> (r: usize) {
        self.addr
    }

    fn from_usize(addr: usize) -> (r: Self) {
        ConstPtr { addr, _pointee: PhantomData }
    }
}

impl<T> VirtPtrTrait<T> for MutPtr<T> {
    closed spec fn addr(&self) -> usize {
        self.addr
    }

    fn null() -> (r: Self) {
        MutPtr { addr: 0, _pointee: PhantomData }
    }

    fn is_null(&self) -> (r: bool) {
        self.addr == 0
    }

    fn as_usize(&self) -> (r: usize) {
        self.addr
    }

    fn from_usize(addr: usize) -> (r: Self) {
        MutPtr { addr, _pointee: PhantomData }
    }
}

/// Groups together the physical pointer types.
pub trait PhysPtrTrait<T, U: VirtPtrTrait<T>>: Sized {
    /// The address of the physical pointer.
    spec fn phys_addr(&self) -> usize;

    /// Returns a null pointer.
    fn null() -> (r: Self)
        ensures
            r.phys_addr() == 0;

    /// Returns `true` if this pointer is null.
    fn is_null(&self) -> (r: bool)
        ensures
            r == (self.phys_addr() == 0),
    {
        self.raw().is_null()
    }

    /// Returns the raw pointer that holds the same address.
    fn raw(&self) -> (r: U)
        ensures
            r.addr() == self.phys_addr();

    /// Makes a physical pointer from the raw pointer that holds its address.
    fn from_raw(raw: U) -> (r: Self)
        ensures
            r.phys_addr() == raw.addr();
}

/// A pointer to a physical memory address. In order for a physical pointer to be used, it must
/// first be converted to a virtual pointer.
#[derive(Debug, Hash)]
pub struct PhysPtr<T, U: VirtPtrTrait<T>>(U, PhantomData<T>);

impl<T> Clone for ConstPtr<T> {
    fn clone(&self) -> (r: Self)
        ensures
            r.addr() == self.addr(),
    {
        ConstPtr { addr: self.addr, _pointee: PhantomData }
    }
}

impl<T> Copy for ConstPtr<T> {
}

impl<T> Clone for MutPtr<T> {
    fn clone(&self) -> (r: Self)
        ensures
            r.addr() == self.addr(),
    {
        MutPtr { addr: self.addr, _pointee: PhantomData }
    }
}

impl<T> Copy for MutPtr<T> {
}

impl<T, U: VirtPtrTrait<T>> Clone for PhysPtr<T, U> {
    fn clone(&self) -> (r: Self)
        ensures
            r.phys_addr() == self.phys_addr(),
    {
        PhysPtr(U::from_usize(self.0.as_usize()), PhantomData)
    }
}

impl<T, U: VirtPtrTrait<T> + Copy> Copy for PhysPtr<T, U> {
}

// Physical pointers are equal when they hold the same address.
impl<T, U: VirtPtrTrait<T>> PartialEq for PhysPtr<T, U> {
    fn eq(&self, other: &Self) -> (r: bool) {
        self.0.as_usize() == other.0.as_usize()
    }
}

impl<T, U: VirtPtrTrait<T>> vstd::std_specs::cmp::PartialEqSpecImpl for PhysPtr<T, U> {
    open spec fn obeys_eq_spec() -> bool {
        true
    }

    open spec fn eq_spec(&self, other: &Self) -> bool {
        self.phys_addr() == other.phys_addr()
    }
}

impl<T, U: VirtPtrTrait<T>> Eq for PhysPtr<T, U> {
}

// Physical pointers are ordered by the addresses they hold.
impl<T, U: VirtPtrTrait<T>> PartialOrd for PhysPtr<T, U> {
    fn partial_cmp(&self, other: &Self) -> (r: Option<core::cmp::Ordering>) {
        let a = self.0.as_usize();
        let b = other.0.as_usize();
        if a < b {
            Some(core::cmp::Ordering::Less)
        } else if a == b {
            Some(core::cmp::Ordering::Equal)
        } else {
            Some(core::cmp::Ordering::Greater)
        }
    }
}

/// Two physical pointers are equal exactly when they hold the same address, and one is less than
/// the other exactly when its address is lower.
pub proof fn lemma_phys_ptr_eq_and_order_follow_addresses<T, U: VirtPtrTrait<T>>(p: PhysPtr<T, U>, q: PhysPtr<T, U>)
    ensures
        p.eq_spec(&q) == (p.phys_addr() == q.phys_addr()),
        (p.partial_cmp_spec(&q) == Some(core::cmp::Ordering::Less)) == (p.phys_addr() < q.phys_addr()),
        (p.partial_cmp_spec(&q) == Some(core::cmp::Ordering::Greater)) == (p.phys_addr() > q.phys_addr()),
{
}

impl<T, U: VirtPtrTrait<T>> vstd::std_specs::cmp::PartialOrdSpecImpl for PhysPtr<T, U> {
    open spec fn obeys_partial_cmp_spec() -> bool {
        true
    }

    open spec fn partial_cmp_spec(&self, other: &Self) -> Option<core::cmp::Ordering> {
        if self.phys_addr() < other.phys_addr() {
            Some(core::cmp::Ordering::Less)
        } else if self.phys_addr() == other.phys_addr() {
            Some(core::cmp::Ordering::Equal)
        } else {
            Some(core::cmp::Ordering::Greater)
        }
    }
}

impl<T, U: VirtPtrTrait<T>> PhysPtrTrait<T, U> for PhysPtr<T, U> {
    closed spec fn phys_addr(&self) -> usize {
        self.0.addr()
    }

    fn null() -> (r: Self) {
        PhysPtr(U::null(), PhantomData)
    }

    fn raw(&self) -> (r: U) {
        U::from_usize(self.0.as_usize())
    }

    fn from_raw(raw: U) -> (r: Self) {
        PhysPtr(raw, PhantomData)
    }
}

/// The address `count` elements of `size` bytes past `addr`, where that fits in the address
/// space.
pub open spec fn offset_addr(addr: usize, count: usize, size: nat) -> int {
    addr + count * size
}

impl<T> PhysPtr<T, ConstPtr<T>> {
    /// Converts the given physical address to a physical pointer.
    pub fn from_addr_phys(addr: usize) -> (r: Self)
        ensures
            r.phys_addr() == addr,
    {
        PhysPtr(ConstPtr::from_usize(addr), PhantomData)
    }

    /// Converts this physical pointer to a physical address.
    pub fn as_addr_phys(&self) -> (r: usize)
        ensures
            r == self.phys_addr(),
    {
        self.0.as_usize()
    }

    /// Converts the given virtual pointer to a physical pointer.
    pub fn from_virt(virt: ConstPtr<T>) -> (r: Self)
        ensures
            r.phys_addr() == virt.addr(),
    {
        PhysPtr(virt, PhantomData)
    }

    /// Converts this physical pointer to a virtual pointer, or `None` if it is null.
    pub fn as_virt(&self) -> (r: Option<ConstPtr<T>>)
        ensures
            self.phys_addr() == 0 ==> r is None,
            self.phys_addr() != 0 ==> r is Some && r->Some_0.addr() == self.phys_addr(),
    {
        if self.is_null() {
            None
        } else {
            Some(self.raw())
        }
    }

    /// Converts this physical pointer to a virtual pointer without checking for null.
    pub fn as_virt_unchecked(&self) -> (r: ConstPtr<T>)
        ensures
            r.addr() == self.phys_addr(),
    {
        self.raw()
    }

    /// Returns a pointer to the datum `count * size_of::<T>()` bytes beyond this pointer, in
    /// physical memory.
    pub fn add(&self, count: usize) -> (r: Self)
        requires
            offset_addr(self.phys_addr(), count, vstd::layout::size_of::<T>()) <= usize::MAX,
        ensures
            r.phys_addr() == offset_addr(self.phys_addr(), count, vstd::layout::size_of::<T>()),
    {
        let addr = offset_phys(self.as_addr_phys(), count, core::mem::size_of::<T>());
        Self::from_addr_phys(addr)
    }
}

impl<T> PhysPtr<T, MutPtr<T>> {
    /// Converts the given physical address to a physical pointer.
    pub fn from_addr_phys(addr: usize) -> (r: Self)
        ensures
            r.phys_addr() == addr,
    {
        PhysPtr(MutPtr::from_usize(addr), PhantomData)
    }

    /// Converts this physical pointer to a physical address.
    pub fn as_addr_phys(&self) -> (r: usize)
        ensures
            r == self.phys_addr(),
    {
        self.0.as_usize()
    }

    /// Converts the given virtual pointer to a physical pointer.
    pub fn from_virt(virt: MutPtr<T>) -> (r: Self)
        ensures
            r.phys_addr() == virt.addr(),
    {
        PhysPtr(virt, PhantomData)
    }

    /// Converts this physical pointer to a virtual pointer, or `None` if it is null.
    pub fn as_virt(&self) -> (r: Option<MutPtr<T>>)
        ensures
            self.phys_addr() == 0 ==> r is None,
            self.phys_addr() != 0 ==> r is Some && r->Some_0.addr() == self.phys_addr(),
    {
        if self.is_null() {
            None
        } else {
            Some(self.raw())
        }
    }

    /// Converts this physical pointer to a virtual pointer without checking for null.
    pub fn as_virt_unchecked(&self) -> (r: MutPtr<T>)
        ensures
            r.addr() == self.phys_addr(),
    {
        self.raw()
    }

    /// Returns a pointer to the datum `count * size_of::<T>()` bytes beyond this pointer, in
    /// physical memory.
    pub fn add(&self, count: usize) -> (r: Self)
        requires
            offset_addr(self.phys_addr(), count, vstd::layout::size_of::<T>()) <= usize::MAX,
        ensures
            r.phys_addr() == offset_addr(self.phys_addr(), count, vstd::layout::size_of::<T>()),
    {
        let addr = offset_phys(self.as_addr_phys(), count, core::mem::size_of::<T>());
        Self::from_addr_phys(addr)
    }

    /// Returns a copy of this pointer.
    pub fn copy(&self) -> (r: Self)
        ensures
            r.phys_addr() == self.phys_addr(),
    {
        Self::from_addr_phys(self.as_addr_phys())
    }

    /// Returns the same address as a pointer through which the pointee is only read.
    pub fn to_const(&self) -> (r: PhysPtr<T, ConstPtr<T>>)
        ensures
            r.phys_addr() == self.phys_addr(),
    {
        PhysPtr::<T, ConstPtr<T>>::from_addr_phys(self.as_addr_phys())
    }
}

// The address `count` elements of `size` bytes past `addr`.
fn offset_phys(addr: usize, count: usize, size: usize) -> (r: usize)
    requires
        addr + count * size <= usize::MAX,
    ensures
        r == addr + count * size,
{
    assert(0 <= count * size <= usize::MAX) by (nonlinear_arith)
        requires addr + count * size <= usize::MAX, addr >= 0, count >= 0, size >= 0;
    addr + count * size
}

} // verus!
