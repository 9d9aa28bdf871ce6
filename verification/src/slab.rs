//! Slab allocators, which allocate fixed-size slabs of an arena in constant time. The free slabs
//! are kept in a ring of slots: allocation takes the slab in the slot after the last one taken,
//! and freeing puts a slab into the slot after the last one filled.

use vstd::prelude::*;
use crate::block::{BlockAllocation, BlockMut};
use crate::phys_ptr::{MutPtr, PhysPtr, PhysPtrTrait};

verus! {

/// The marker for a slot whose slab has been handed out.
pub const USED_SLAB: usize = usize::MAX;

/// Whether `n` is a power of two.
pub open spec fn is_power_of_two(n: usize) -> bool {
    n > 0 && n & ((n - 1) as usize) == 0
}

/// A record of one slab handed out by a slab allocator, to be given back with
/// `SlabAllocator::free`.
#[derive(Debug)]
pub struct Allocation {
    base: usize,
}

impl Allocation {
    /// The base address of the slab.
    pub closed spec fn base_spec(&self) -> usize {
        self.base
    }

    /// Returns the base address of the slab.
    pub fn base(&self) -> (r: usize)
        ensures
            r == self.base_spec(),
    {
        self.base
    }
}

/// An error that can be returned when trying to allocate a slab.
#[derive(Debug, Clone, Copy, PartialEq, Eq, Structural)]
pub enum SlabAllocError {
    /// The allocator is all out of slabs.
    Empty,
    /// Another thread holds this allocator's lock.
    Locked,
}

/// A slab allocator. Allocation and deallocation take constant time, although allocation is not
/// guaranteed to succeed.
#[derive(Debug)]
pub struct SlabAllocator {
    arena: BlockMut<u8>,
    slabs: Vec<usize>,
    slab_size: usize,
    first_free_slab_idx: usize,
    first_used_slab_idx: usize,
}

/// What an allocation from the allocator `before` does: it takes the slab in the next slot to
/// allocate from, leaving that slot used and moving on to the following slot; if the slot is
/// already used, it fails with `SlabAllocError::Empty` and changes nothing.
pub open spec fn alloc_outcome(before: SlabAllocator, after: SlabAllocator, r: Result<BlockMut<u8>, SlabAllocError>) -> bool {
    &&& after.wf()
    &&& after.arena_base() == before.arena_base()
    &&& after.arena_size() == before.arena_size()
    &&& after.slab_size_spec() == before.slab_size_spec()
    &&& after.next_free_slot() == before.next_free_slot()
    &&& {
        let idx = before.next_alloc_slot();
        let base = before.slots()[idx];
        if base == USED_SLAB {
            &&& r == Err::<BlockMut<u8>, SlabAllocError>(SlabAllocError::Empty)
            &&& after.slots() == before.slots()
            &&& after.next_alloc_slot() == idx
        } else {
            &&& r is Ok
            &&& r->Ok_0.base_addr() == base
            &&& r->Ok_0.size_spec() == before.slab_size_spec()
            &&& r->Ok_0.allocation_spec() matches Some(BlockAllocation::Slab(a)) && a.base_spec() == base
            &&& before.owns_slab_spec(base)
            &&& after.slots() == before.slots().update(idx, USED_SLAB)
            &&& after.next_alloc_slot() == (idx + 1) % (before.slots().len() as int)
        }
    }
}

/// Whether `base` is the base address of one of the `slab_size`-byte slabs in the arena of
/// `arena_size` bytes at `arena_base`.
pub open spec fn is_slab_of(arena_base: usize, arena_size: usize, slab_size: usize, base: usize) -> bool {
    &&& arena_base <= base < arena_base + arena_size
    &&& (base - arena_base) % (slab_size as int) == 0
}

impl SlabAllocator {
    /// The physical address of the arena.
    pub closed spec fn arena_base(&self) -> usize {
        self.arena.base_addr()
    }

    /// The size of the arena in bytes.
    pub closed spec fn arena_size(&self) -> usize {
        self.arena.size_spec()
    }

    /// The size of each slab in bytes.
    pub closed spec fn slab_size_spec(&self) -> usize {
        self.slab_size
    }

    /// The ring of slots: each holds the base address of a free slab, or `USED_SLAB`.
    pub closed spec fn slots(&self) -> Seq<usize> {
        self.slabs@
    }

    /// The slot the next allocation takes its slab from.
    pub closed spec fn next_alloc_slot(&self) -> int {
        self.first_free_slab_idx as int
    }

    /// The slot the next freed slab goes into.
    pub closed spec fn next_free_slot(&self) -> int {
        self.first_used_slab_idx as int
    }

    /// Whether `base` is the base address of one of this allocator's slabs.
    pub open spec fn owns_slab_spec(&self, base: usize) -> bool {
        is_slab_of(self.arena_base(), self.arena_size(), self.slab_size_spec(), base)
    }

    /// The allocator's invariant: the arena is a power-of-two number of slabs that lies within the
    /// address space, both cursors point at slots, and every slot holds either `USED_SLAB` or the
    /// base address of one of the allocator's slabs.
    pub open spec fn wf(&self) -> bool {
        &&& self.slab_size_spec() > 0
        &&& is_power_of_two(self.slots().len() as usize)
        &&& self.slots().len() <= usize::MAX
        &&& self.arena_size() == self.slab_size_spec() * self.slots().len()
        &&& self.arena_base() + self.arena_size() <= usize::MAX
        &&& 0 <= self.next_alloc_slot() < self.slots().len()
        &&& 0 <= self.next_free_slot() < self.slots().len()
        &&& forall|i: int| 0 <= i < self.slots().len() ==>
                (#[trigger] self.slots()[i] == USED_SLAB || self.owns_slab_spec(self.slots()[i]))
    }

    /// Makes a new slab allocator by dividing the given arena into `slabs_count` slabs of
    /// `slab_size` bytes each. All the slabs start out free, in order of address.
    pub fn new(arena: BlockMut<u8>, slabs_count: usize, slab_size: usize) -> (r: Self)
        requires
            slab_size > 0,
            arena.size_spec() == slab_size * slabs_count,
            is_power_of_two(slabs_count),
            arena.base_addr() + arena.size_spec() <= usize::MAX,
        ensures
            r.wf(),
            r.arena_base() == arena.base_addr(),
            r.arena_size() == arena.size_spec(),
            r.slab_size_spec() == slab_size,
            r.slots().len() == slabs_count,
            forall|i: int| 0 <= i < slabs_count ==> #[trigger] r.slots()[i] == arena.base_addr() + i * slab_size,
            r.next_alloc_slot() == 0,
            r.next_free_slot() == 0,
    {
        let arena_base = arena.base().as_addr_phys();
        let arena_size = arena.size();
        let mut slabs: Vec<usize> = Vec::new();
        let mut i: usize = 0;
        while i < slabs_count
            invariant
                i <= slabs_count,
                slabs@.len() == i,
                slab_size > 0,
                arena_size == slab_size * slabs_count,
                arena_base + arena_size <= usize::MAX,
                forall|j: int| 0 <= j < i ==> #[trigger] slabs@[j] == arena_base + j * slab_size,
            decreases slabs_count - i,
        {
            assert(i * slab_size < slabs_count * slab_size) by (nonlinear_arith)
                requires i < slabs_count, slab_size > 0;
            assert(slab_size * slabs_count == slabs_count * slab_size) by (nonlinear_arith);
            slabs.push(arena_base + i * slab_size);
            i += 1;
        }
        let r = SlabAllocator { arena, slabs, slab_size, first_free_slab_idx: 0, first_used_slab_idx: 0 };
        proof {
            assert forall|j: int| 0 <= j < r.slots().len() implies
                (#[trigger] r.slots()[j] == USED_SLAB || r.owns_slab_spec(r.slots()[j])) by {
                lemma_slab_in_arena(arena_base, slab_size, slabs_count, j);
            }
        }
        r
    }

    /// Determines whether this slab allocator owns a slab with the given base address.
    pub fn owns_slab(&self, base: usize) -> (r: bool)
        requires
            self.wf(),
        ensures
            r == self.owns_slab_spec(base),
    {
        let arena_base = self.arena.base().as_addr_phys();
        base >= arena_base && base < arena_base + self.arena.size()
            && (base - arena_base) % self.slab_size == 0
    }

    /// Tries to allocate a slab. Takes the slab in the next slot to allocate from and moves on to
    /// the following slot; fails with `SlabAllocError::Empty`, leaving everything as it was, if
    /// that slot's slab is in use.
    pub fn try_alloc(&mut self) -> (r: Result<BlockMut<u8>, SlabAllocError>)
        requires
            old(self).wf(),
        ensures
            alloc_outcome(*old(self), *final(self), r),
    {
        let idx = self.first_free_slab_idx;
        let base = self.slabs[idx];
        self.slabs.set(idx, USED_SLAB);
        if base == USED_SLAB {
            assert(self.slabs@ == old(self).slabs@);
            return Err(SlabAllocError::Empty);
        }
        self.first_free_slab_idx = (idx + 1) % self.slabs.len();
        proof {
            lemma_slab_fits(self.arena_base(), self.arena_size(), self.slab_size, self.slabs@.len(), base);
        }
        Ok(BlockMut::new(
            PhysPtr::<u8, MutPtr<u8>>::from_addr_phys(base),
            self.slab_size,
            Some(BlockAllocation::Slab(Allocation { base })),
        ))
    }

    /// Frees a slab that was previously allocated: puts its base address into the next slot to
    /// free into and moves on to the following slot. The slab must belong to this allocator, and
    /// that slot must be in use (it always is unless a slab is freed twice).
    pub fn free(&mut self, base: usize)
        requires
            old(self).wf(),
            old(self).owns_slab_spec(base),
            old(self).slots()[old(self).next_free_slot()] == USED_SLAB,
        ensures
            final(self).wf(),
            final(self).arena_base() == old(self).arena_base(),
            final(self).arena_size() == old(self).arena_size(),
            final(self).slab_size_spec() == old(self).slab_size_spec(),
            final(self).next_alloc_slot() == old(self).next_alloc_slot(),
            final(self).slots() == old(self).slots().update(old(self).next_free_slot(), base),
            final(self).next_free_slot()
                == (old(self).next_free_slot() + 1) % (old(self).slots().len() as int),
    {
        let idx = self.first_used_slab_idx;
        self.slabs.set(idx, base);
        self.first_used_slab_idx = (idx + 1) % self.slabs.len();
    }
}

// After the first `k` of `n` allocations from a fresh allocator, the first `k` slots are used, the
// next allocation takes slot `k`, and each allocation so far handed out the slab of its slot.
proof fn lemma_alloc_prefix(states: Seq<SlabAllocator>, results: Seq<Result<BlockMut<u8>, SlabAllocError>>, k: int)
    requires
        states.len() == states[0].slots().len() + 2,
        results.len() == states[0].slots().len() + 1,
        states[0].wf(),
        states[0].next_alloc_slot() == 0,
        forall|i: int| 0 <= i < states[0].slots().len() ==> #[trigger] states[0].slots()[i]
            == states[0].arena_base() + i * states[0].slab_size_spec(),
        forall|j: int| #![trigger results[j]] 0 <= j < results.len() ==> alloc_outcome(states[j], states[j + 1], results[j]),
        0 <= k <= states[0].slots().len(),
    ensures
        states[k].wf(),
        states[k].arena_base() == states[0].arena_base(),
        states[k].arena_size() == states[0].arena_size(),
        states[k].slab_size_spec() == states[0].slab_size_spec(),
        states[k].slots().len() == states[0].slots().len(),
        states[k].next_alloc_slot() == k % (states[0].slots().len() as int),
        forall|i: int| 0 <= i < states[0].slots().len() ==> #[trigger] states[k].slots()[i]
            == if i < k { USED_SLAB } else { (states[0].arena_base() + i * states[0].slab_size_spec()) as usize },
        forall|j: int| 0 <= j < k ==> (#[trigger] results[j]) is Ok
            && results[j]->Ok_0.base_addr() == states[0].arena_base() + j * states[0].slab_size_spec()
            && results[j]->Ok_0.size_spec() == states[0].slab_size_spec(),
    decreases k,
{
    let n = states[0].slots().len() as int;
    let base = states[0].arena_base();
    let size = states[0].slab_size_spec();
    if k == 0 {
        assert(0int % n == 0) by (nonlinear_arith) requires n > 0;
    } else {
        lemma_alloc_prefix(states, results, k - 1);
        let s = states[k - 1];
        assert(alloc_outcome(states[k - 1], states[k], results[k - 1]));
        assert((k - 1) % n == k - 1) by (nonlinear_arith) requires 0 <= k - 1 < n;
        assert(base + (k - 1) * size < base + states[0].arena_size()) by (nonlinear_arith)
            requires k - 1 < n, states[0].arena_size() == size * n, size > 0, k >= 1;
        assert(s.slots()[k - 1] == base + (k - 1) * size);
        assert(states[k].slots() =~= Seq::new(n as nat, |i: int|
            if i < k { USED_SLAB } else { (base + i * size) as usize }));
    }
}

/// A fresh allocator of `n` slabs hands out its slabs in order of address to `n` successive
/// allocations, and the allocation after them finds it empty.
pub proof fn lemma_fresh_allocator_hands_out_slabs_in_order(
    states: Seq<SlabAllocator>,
    results: Seq<Result<BlockMut<u8>, SlabAllocError>>,
)
    requires
        states.len() == states[0].slots().len() + 2,
        results.len() == states[0].slots().len() + 1,
        states[0].wf(),
        states[0].next_alloc_slot() == 0,
        forall|i: int| 0 <= i < states[0].slots().len() ==> #[trigger] states[0].slots()[i]
            == states[0].arena_base() + i * states[0].slab_size_spec(),
        forall|j: int| #![trigger results[j]] 0 <= j < results.len() ==> alloc_outcome(states[j], states[j + 1], results[j]),
    ensures
        forall|k: int| 0 <= k < states[0].slots().len() ==> (#[trigger] results[k]) is Ok
            && results[k]->Ok_0.base_addr() == states[0].arena_base() + k * states[0].slab_size_spec()
            && results[k]->Ok_0.size_spec() == states[0].slab_size_spec(),
        results[states[0].slots().len() as int] == Err::<BlockMut<u8>, SlabAllocError>(SlabAllocError::Empty),
{
    let n = states[0].slots().len() as int;
    lemma_alloc_prefix(states, results, n);
    assert(n % n == 0) by (nonlinear_arith) requires n > 0;
    assert(states[n].slots()[0] == USED_SLAB);
    assert(alloc_outcome(states[n], states[n + 1], results[n]));
}

/// The base addresses of the free slabs that the slots `s` hold.
pub open spec fn free_slabs(s: Seq<usize>) -> Set<usize> {
    Set::new(|x: usize| x != USED_SLAB && s.contains(x))
}

/// Allocating a slab and then freeing the slab that was handed out leaves the allocator with the
/// same free slabs as before: the slab is taken out of its slot and put back into the next slot to
/// free into.
pub proof fn lemma_alloc_then_free_keeps_free_slabs(
    before: SlabAllocator,
    allocated: SlabAllocator,
    freed: SlabAllocator,
)
    requires
        before.wf(),
        before.slots()[before.next_alloc_slot()] != USED_SLAB,
        allocated.slots() == before.slots().update(before.next_alloc_slot(), USED_SLAB),
        allocated.next_free_slot() == before.next_free_slot(),
        allocated.slots()[allocated.next_free_slot()] == USED_SLAB,
        freed.slots() == allocated.slots().update(allocated.next_free_slot(),
            before.slots()[before.next_alloc_slot()]),
    ensures
        free_slabs(freed.slots()) == free_slabs(before.slots()),
        free_slabs(freed.slots()).contains(before.slots()[before.next_alloc_slot()]),
{
    let s = before.slots();
    let a = before.next_alloc_slot();
    let f = before.next_free_slot();
    let x = s[a];
    let m = s.update(a, USED_SLAB);
    let t = m.update(f, x);
    assert(t[f] == x);
    assert forall|y: usize| #[trigger] free_slabs(t).contains(y) implies free_slabs(s).contains(y) by {
        let i = choose|i: int| 0 <= i < t.len() && t[i] == y;
        if i == f {
            assert(s[a] == y);
        } else {
            assert(m[i] == y);
            assert(i != a);
            assert(s[i] == y);
        }
    }
    assert forall|y: usize| #[trigger] free_slabs(s).contains(y) implies free_slabs(t).contains(y) by {
        let i = choose|i: int| 0 <= i < s.len() && s[i] == y;
        if i == a || i == f {
            if i == a {
                assert(t[f] == y);
            } else {
                assert(m[f] == USED_SLAB);
                assert(s[f] == USED_SLAB || f == a);
                assert(t[f] == x);
                assert(y == x || y == USED_SLAB);
            }
        } else {
            assert(t[i] == y);
        }
    }
    assert(free_slabs(t) =~= free_slabs(s));
}

// The `j`th slab of an arena lies within it.
proof fn lemma_slab_in_arena(arena_base: usize, slab_size: usize, count: usize, j: int)
    requires
        0 <= j < count,
        slab_size > 0,
    ensures
        is_slab_of(arena_base, (slab_size * count) as usize, slab_size, (arena_base + j * slab_size) as usize)
            || arena_base + slab_size * count > usize::MAX,
{
    if arena_base + slab_size * count <= usize::MAX {
        assert(j * slab_size < slab_size * count) by (nonlinear_arith)
            requires 0 <= j < count, slab_size > 0;
        assert(j * slab_size >= 0) by (nonlinear_arith) requires j >= 0, slab_size > 0;
        vstd::arithmetic::div_mod::lemma_mod_multiples_basic(j, slab_size as int);
        assert((j * slab_size) % (slab_size as int) == 0) by (nonlinear_arith)
            requires (j * slab_size) % (slab_size as int) == 0;
    }
}

// A slab of the arena lies within the address space.
proof fn lemma_slab_fits(arena_base: usize, arena_size: usize, slab_size: usize, count: nat, base: usize)
    requires
        is_slab_of(arena_base, arena_size, slab_size, base),
        slab_size > 0,
        arena_size == slab_size * count,
        arena_base + arena_size <= usize::MAX,
    ensures
        base + slab_size * vstd::layout::size_of::<u8>() <= usize::MAX + 1,
{
    broadcast use vstd::layout::layout_of_primitives;
    let off: int = base - arena_base;
    let k: int = off / (slab_size as int);
    assert(off == k * slab_size) by (nonlinear_arith)
        requires off % (slab_size as int) == 0, slab_size > 0, k == off / (slab_size as int), off >= 0;
    assert(k < count) by (nonlinear_arith)
        requires off == k * slab_size, arena_size == slab_size * count, off < arena_size, slab_size > 0;
    assert(off + slab_size <= arena_size) by (nonlinear_arith)
        requires off == k * slab_size, arena_size == slab_size * count, k < count, slab_size > 0;
}

} // verus!
