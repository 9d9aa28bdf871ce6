//! Blocks of physical memory: lower-level versions of `Box<[T]>` whose only abstraction is the
//! conversion between element indices and physical addresses.

use vstd::prelude::*;
use core::mem::MaybeUninit;
use crate::phys_ptr::{offset_addr, MutPtr, PhysPtr, PhysPtrTrait, VirtPtrTrait};
use crate::slab::Allocation;

verus! {

broadcast use vstd::layout::layout_of_maybe_uninit;

/// Where the memory of a block was allocated, so that it can be given back.
#[derive(Debug)]
pub enum BlockAllocation {
    /// Directly on the heap, in the block with the given base address.
    Heap(usize),
    /// In a slab of a slab allocator.
    Slab(Allocation),
}

/// Whether `size` elements of type `T` starting at physical address `base` lie within the address
/// space.
pub open spec fn fits_in_address_space<T>(base: usize, size: usize) -> bool {
    base + size * vstd::layout::size_of::<T>() <= usize::MAX + 1
}

/// Represents a block of mutable physical memory.
#[derive(Debug)]
pub struct BlockMut<T> {
    base: PhysPtr<T, MutPtr<T>>,
    size: usize,
    allocation: Option<BlockAllocation>,
}

/// A block of physical memory that is specifically for memory-mapped I/O rather than RAM.
#[derive(Debug)]
pub struct Mmio<T> {
    base: PhysPtr<T, MutPtr<T>>,
    size: usize,
    allocation: Option<BlockAllocation>,
}

impl<T> BlockMut<T> {
    /// The physical address of the first element.
    pub closed spec fn base_addr(&self) -> usize {
        self.base.phys_addr()
    }

    /// The number of elements in the block.
    pub closed spec fn size_spec(&self) -> usize {
        self.size
    }

    /// Where the block's memory came from, if anywhere.
    pub closed spec fn allocation_spec(&self) -> Option<BlockAllocation> {
        self.allocation
    }

    #[verifier::type_invariant]
    spec fn inv(&self) -> bool {
        fits_in_address_space::<T>(self.base.phys_addr(), self.size)
    }

    /// Makes a block with the given base address and number of elements.
    pub fn new(base: PhysPtr<T, MutPtr<T>>, size: usize, allocation: Option<BlockAllocation>) -> (r: Self)
        requires
            fits_in_address_space::<T>(base.phys_addr(), size),
        ensures
            r.base_addr() == base.phys_addr(),
            r.size_spec() == size,
            r.allocation_spec() == allocation,
    {
        BlockMut { base, size, allocation }
    }

    /// Returns the base address of the block.
    pub fn base(&self) -> (r: PhysPtr<T, MutPtr<T>>)
        ensures
            r.phys_addr() == self.base_addr(),
    {
        self.base.copy()
    }

    /// Returns where the block's memory came from, if anywhere.
    pub fn allocation(&self) -> (r: &Option<BlockAllocation>)
        ensures
            *r == self.allocation_spec(),
    {
        &self.allocation
    }

    /// Returns the number of `T`-sized elements within the block.
    pub fn size(&self) -> (r: usize)
        ensures
            r == self.size_spec(),
    {
        self.size
    }

    /// Returns a virtual pointer to the element at the given index.
    pub fn index(&self, index: usize) -> (r: MutPtr<T>)
        requires
            index < self.size_spec(),
        ensures
            r.addr() == offset_addr(self.base_addr(), index, vstd::layout::size_of::<T>()),
    {
        self.get_ptr_phys(index).as_virt_unchecked()
    }

    /// Returns a physical pointer to the element at the given index.
    pub fn get_ptr_phys(&self, index: usize) -> (r: PhysPtr<T, MutPtr<T>>)
        requires
            index < self.size_spec(),
        ensures
            r.phys_addr() == offset_addr(self.base_addr(), index, vstd::layout::size_of::<T>()),
    {
        proof {
            use_type_invariant(self);
            lemma_index_fits(self.base.phys_addr(), index, self.size, vstd::layout::size_of::<T>());
        }
        self.base.add(index)
    }

    /// Reinterprets the block as one of `U` elements covering the same bytes (rounded down to a
    /// whole number of elements).
    pub fn transmute<U>(self) -> (r: BlockMut<U>)
        requires
            vstd::layout::size_of::<U>() > 0,
            self.size_spec() * vstd::layout::size_of::<T>() <= usize::MAX,
        ensures
            r.base_addr() == self.base_addr(),
            r.size_spec() == (self.size_spec() * vstd::layout::size_of::<T>()) / (vstd::layout::size_of::<U>() as int),
            r.allocation_spec() == self.allocation_spec(),
    {
        proof {
            use_type_invariant(&self);
        }
        let size_t = core::mem::size_of::<T>();
        let size_u = core::mem::size_of::<U>();
        let base = self.base.as_addr_phys();
        let size = scale_count(self.size, size_t, size_u, base);
        BlockMut { base: PhysPtr::<U, MutPtr<U>>::from_addr_phys(base), size, allocation: self.allocation }
    }
}

impl<T> BlockMut<MaybeUninit<T>> {
    /// Assumes everything in the block is initialized, in a similar manner to
    /// `MaybeUninit::assume_init`.
    pub fn assume_init(self) -> (r: BlockMut<T>)
        ensures
            r.base_addr() == self.base_addr(),
            r.size_spec() == self.size_spec(),
            r.allocation_spec() == self.allocation_spec(),
    {
        proof {
            use_type_invariant(&self);
        }
        BlockMut {
            base: PhysPtr::<T, MutPtr<T>>::from_addr_phys(self.base.as_addr_phys()),
            size: self.size,
            allocation: self.allocation,
        }
    }
}

impl<T> Mmio<T> {
    /// The physical address of the first element.
    pub closed spec fn base_addr(&self) -> usize {
        self.base.phys_addr()
    }

    /// The number of elements in the block.
    pub closed spec fn size_spec(&self) -> usize {
        self.size
    }

    /// Where the block's memory came from, if anywhere.
    pub closed spec fn allocation_spec(&self) -> Option<BlockAllocation> {
        self.allocation
    }

    #[verifier::type_invariant]
    spec fn inv(&self) -> bool {
        fits_in_address_space::<T>(self.base.phys_addr(), self.size)
    }

    /// Makes a block with the given base address and number of elements.
    pub fn new(base: PhysPtr<T, MutPtr<T>>, size: usize, allocation: Option<BlockAllocation>) -> (r: Self)
        requires
            fits_in_address_space::<T>(base.phys_addr(), size),
        ensures
            r.base_addr() == base.phys_addr(),
            r.size_spec() == size,
            r.allocation_spec() == allocation,
    {
        Mmio { base, size, allocation }
    }

    /// Returns the base address of the block.
    pub fn base(&self) -> (r: PhysPtr<T, MutPtr<T>>)
        ensures
            r.phys_addr() == self.base_addr(),
    {
        self.base.copy()
    }

    /// Returns where the block's memory came from, if anywhere.
    pub fn allocation(&self) -> (r: &Option<BlockAllocation>)
        ensures
            *r == self.allocation_spec(),
    {
        &self.allocation
    }

    /// Returns the number of `T`-sized elements within the block.
    pub fn size(&self) -> (r: usize)
        ensures
            r == self.size_spec(),
    {
        self.size
    }

    /// Returns a virtual pointer to the element at the given index.
    pub fn index(&self, index: usize) -> (r: MutPtr<T>)
        requires
            index < self.size_spec(),
        ensures
            r.addr() == offset_addr(self.base_addr(), index, vstd::layout::size_of::<T>()),
    {
        self.get_ptr_phys(index).as_virt_unchecked()
    }

    /// Returns a physical pointer to the element at the given index.
    pub fn get_ptr_phys(&self, index: usize) -> (r: PhysPtr<T, MutPtr<T>>)
        requires
            index < self.size_spec(),
        ensures
            r.phys_addr() == offset_addr(self.base_addr(), index, vstd::layout::size_of::<T>()),
    {
        proof {
            use_type_invariant(self);
            lemma_index_fits(self.base.phys_addr(), index, self.size, vstd::layout::size_of::<T>());
        }
        self.base.add(index)
    }

    /// Reinterprets the block as one of `U` elements covering the same bytes (rounded down to a
    /// whole number of elements).
    pub fn transmute<U>(self) -> (r: Mmio<U>)
        requires
            vstd::layout::size_of::<U>() > 0,
            self.size_spec() * vstd::layout::size_of::<T>() <= usize::MAX,
        ensures
            r.base_addr() == self.base_addr(),
            r.size_spec() == (self.size_spec() * vstd::layout::size_of::<T>()) / (vstd::layout::size_of::<U>() as int),
            r.allocation_spec() == self.allocation_spec(),
    {
        proof {
            use_type_invariant(&self);
        }
        let size_t = core::mem::size_of::<T>();
        let size_u = core::mem::size_of::<U>();
        let base = self.base.as_addr_phys();
        let size = scale_count(self.size, size_t, size_u, base);
        Mmio { base: PhysPtr::<U, MutPtr<U>>::from_addr_phys(base), size, allocation: self.allocation }
    }
}

// An element before the end of a block lies within the address space.
proof fn lemma_index_fits(base: usize, index: usize, size: usize, elem: nat)
    requires
        index < size,
        base + size * elem <= usize::MAX + 1,
    ensures
        offset_addr(base, index, elem) <= usize::MAX,
{
    assert(base + index * elem + elem <= base + size * elem) by (nonlinear_arith)
        requires index < size, elem >= 0;
    if elem == 0 {
        assert(index * elem == 0) by (nonlinear_arith) requires elem == 0;
    }
}

// The number of whole `size_u`-byte elements in `count` elements of `size_t` bytes, where those
// elements start at `base` and lie within the address space.
fn scale_count(count: usize, size_t: usize, size_u: usize, base: usize) -> (r: usize)
    requires
        size_u > 0,
        count * size_t <= usize::MAX,
        base + count * size_t <= usize::MAX + 1,
    ensures
        r == (count * size_t) / (size_u as int),
        base + r * size_u <= usize::MAX + 1,
{
    let bytes = count * size_t;
    let r = bytes / size_u;
    assert(r * size_u <= bytes) by (nonlinear_arith)
        requires r == bytes / size_u, size_u > 0, bytes >= 0;
    r
}

} // verus!
