//! The kernel's interface to physical memory: page-sized allocations come from slab allocators
//! when one has a free slab (a new slab allocator is made when none has), and everything else
//! comes directly from the heap.

use vstd::prelude::*;
use core::mem::MaybeUninit;
use crate::block::{fits_in_address_space, BlockAllocation, BlockMut, Mmio};
use crate::heap::{allocate_spec, best_base_spec, first_with_base, AllocError, Heap};
use crate::memory_map::MemoryMap;
use crate::phys_ptr::{MutPtr, PhysPtr};
use crate::slab::{is_power_of_two, SlabAllocator, USED_SLAB};

verus! {

broadcast use vstd::layout::layout_of_maybe_uninit;

/// The most slabs a slab allocator is made with.
pub const MAX_SLABS_PER_ALLOCATOR: usize = 256;

/// An interface to the heap and the slab allocators.
#[derive(Debug)]
pub struct AllMemAlloc {
    heap: Heap,
    map: MemoryMap,
    slabs: Vec<SlabAllocator>,
    page_size: usize,
}

/// Whether every slab allocator in `s` is valid and has slabs of `page_size` bytes.
pub open spec fn all_slabs_wf(s: Seq<SlabAllocator>, page_size: usize) -> bool {
    forall|i: int| 0 <= i < s.len() ==> #[trigger] s[i].wf() && s[i].slab_size_spec() == page_size
}

// Replacing a valid slab allocator by another valid one keeps them all valid.
proof fn lemma_slabs_replace(s: Seq<SlabAllocator>, page_size: usize, i: int, x: SlabAllocator)
    requires
        all_slabs_wf(s, page_size),
        0 <= i < s.len(),
        x.wf(),
        x.slab_size_spec() == page_size,
    ensures
        all_slabs_wf(s.remove(i).insert(i, x), page_size),
        s.remove(i).insert(i, x) == s.update(i, x),
{
    assert(s.remove(i).insert(i, x) =~= s.update(i, x));
    assert forall|j: int| 0 <= j < s.len() implies #[trigger] s.update(i, x)[j].wf()
        && s.update(i, x)[j].slab_size_spec() == page_size by {
        if j != i {
            assert(s[j].wf());
        }
    }
}

// Putting a valid slab allocator first keeps them all valid.
proof fn lemma_slabs_prepend(s: Seq<SlabAllocator>, page_size: usize, x: SlabAllocator)
    requires
        all_slabs_wf(s, page_size),
        x.wf(),
        x.slab_size_spec() == page_size,
    ensures
        all_slabs_wf(s.insert(0, x), page_size),
        s.insert(0, x).skip(1) == s,
{
    assert(s.insert(0, x).skip(1) =~= s);
    assert forall|j: int| 0 <= j < s.len() + 1 implies #[trigger] s.insert(0, x)[j].wf()
        && s.insert(0, x)[j].slab_size_spec() == page_size by {
        if j > 0 {
            assert(s.insert(0, x)[j] == s[j - 1]);
        }
    }
}

/// Whether `r` is what the heap gives for a request of `size` bytes aligned on `align`, taking its
/// blocks from `before` to `after`: the best-fitting base in the present RAM of `regions`, if the
/// block fits there and in the address space.
pub open spec fn heap_malloc_result<T>(
    regions: Seq<crate::memory_map::Region>,
    before: Seq<crate::heap::HeapBlock>,
    after: Seq<crate::heap::HeapBlock>,
    size: usize,
    align: usize,
    r: Result<BlockMut<MaybeUninit<T>>, AllocError>,
) -> bool {
    match best_base_spec(regions, before, size, align, size) {
        Some(b) => if b + size > usize::MAX {
            r is Err && after == before
        } else {
            match allocate_spec(before, b, size) {
                Some(blocks) => r is Ok && r->Ok_0.base_addr() == b && after == blocks,
                None => r is Err && after == before,
            }
        },
        None => r is Err && after == before,
    }
}

/// What the heap gives for a request of `size` bytes aligned on `align` when it holds `blocks`:
/// the base of the best-fitting free space in the present RAM of `regions` and the blocks after
/// reserving it there, or `None` if no such block fits there and in the address space.
pub open spec fn heap_malloc_spec(
    regions: Seq<crate::memory_map::Region>,
    blocks: Seq<crate::heap::HeapBlock>,
    size: usize,
    align: usize,
) -> Option<(usize, Seq<crate::heap::HeapBlock>)> {
    match best_base_spec(regions, blocks, size, align, size) {
        Some(b) => if b + size > usize::MAX {
            None
        } else {
            match allocate_spec(blocks, b, size) {
                Some(after) => Some((b, after)),
                None => None,
            }
        },
        None => None,
    }
}

/// What the heap gives for a request of `size` bytes aligned on `align` below `1 << max_bits`
/// (anywhere if `max_bits` is at least the number of bits in a `usize`), when the map's regions
/// are `regions` (covering addresses below `max_address`) and the heap holds `blocks`: the best
/// fit in the present RAM that lies below the limit, if the block found ends within it.
pub open spec fn heap_malloc_low_spec(
    regions: Seq<crate::memory_map::Region>,
    max_address: usize,
    blocks: Seq<crate::heap::HeapBlock>,
    size: usize,
    align: usize,
    max_bits: usize,
) -> Option<(usize, Seq<crate::heap::HeapBlock>)> {
    if max_bits >= usize::BITS {
        heap_malloc_spec(regions, blocks, size, align)
    } else {
        let limit = (1usize << max_bits) as usize;
        let low = crate::memory_map::remove_region_spec(regions, max_address, limit,
            crate::heap::wrap_sub(0, limit));
        match heap_malloc_spec(low, blocks, size, align) {
            Some((b, after)) => if b + size > limit { None } else { Some((b, after)) },
            None => None,
        }
    }
}

/// The arena of a new slab allocator: for `count`, `count / 2`, ... down to one slab of
/// `page_size` bytes, the first number of slabs whose page-aligned arena the heap can give, with
/// the arena's base and the heap's blocks after reserving it; `None` if not even one page can be
/// had.
pub open spec fn new_slab_arena(
    regions: Seq<crate::memory_map::Region>,
    blocks: Seq<crate::heap::HeapBlock>,
    page_size: usize,
    count: usize,
) -> Option<(usize, usize, Seq<crate::heap::HeapBlock>)>
    decreases count,
{
    if count == 0 {
        None
    } else {
        match heap_malloc_spec(regions, blocks, (count * page_size) as usize, page_size) {
            Some((base, after)) => Some((count, base, after)),
            None => if count == 1 {
                None
            } else {
                new_slab_arena(regions, blocks, page_size, count / 2)
            },
        }
    }
}

/// Whether the slab allocator `a` has a free slab in the next slot it allocates from.
pub open spec fn slab_has_free(a: SlabAllocator) -> bool {
    a.slots()[a.next_alloc_slot()] != USED_SLAB
}

/// Whether one of the slab allocators `s` has a free slab.
pub open spec fn has_free_slab(s: Seq<SlabAllocator>) -> bool {
    exists|i: int| 0 <= i < s.len() && #[trigger] slab_has_free(s[i])
}

/// The first of the slab allocators `s` that has a free slab, if one does.
pub open spec fn first_free_slab(s: Seq<SlabAllocator>) -> int {
    choose|i: int| 0 <= i < s.len() && #[trigger] slab_has_free(s[i])
        && forall|k: int| 0 <= k < i ==> !slab_has_free(s[k])
}

/// Whether two slab allocators are in the same state: the same arena, slab size, slots and
/// cursors.
pub open spec fn same_slab_state(a: SlabAllocator, b: SlabAllocator) -> bool {
    &&& a.arena_base() == b.arena_base()
    &&& a.arena_size() == b.arena_size()
    &&& a.slab_size_spec() == b.slab_size_spec()
    &&& a.slots() == b.slots()
    &&& a.next_alloc_slot() == b.next_alloc_slot()
    &&& a.next_free_slot() == b.next_free_slot()
}

/// Whether one of the slab allocators `s` owns the slab at `addr`.
pub open spec fn owned_by_slab(s: Seq<SlabAllocator>, addr: usize) -> bool {
    exists|i: int| 0 <= i < s.len() && #[trigger] s[i].owns_slab_spec(addr)
}

/// The first of the slab allocators `s` that owns the slab at `addr`, if one does.
pub open spec fn first_owner(s: Seq<SlabAllocator>, addr: usize) -> int {
    choose|i: int| 0 <= i < s.len() && #[trigger] s[i].owns_slab_spec(addr)
        && forall|k: int| 0 <= k < i ==> !s[k].owns_slab_spec(addr)
}

/// Whether a slab allocation serves a request of `size` bytes aligned on `align`: it is exactly
/// one page, page-aligned.
pub open spec fn is_page_request(size: usize, align: usize, page_size: usize) -> bool {
    size == page_size && align == page_size
}

impl AllMemAlloc {
    /// The heap.
    pub closed spec fn heap_spec(&self) -> &Heap {
        &self.heap
    }

    /// The physical memory map the heap allocates from.
    pub closed spec fn map_spec(&self) -> &MemoryMap {
        &self.map
    }

    /// The slab allocators, in the order they are tried.
    pub closed spec fn slabs_spec(&self) -> Seq<SlabAllocator> {
        self.slabs@
    }

    /// The size of a page.
    pub closed spec fn page_size_spec(&self) -> usize {
        self.page_size
    }

    /// Whether the heap, the map and every slab allocator are valid, and the page size is a power
    /// of two small enough for a slab allocator of the most slabs.
    pub open spec fn wf(&self) -> bool {
        &&& self.heap_spec().wf()
        &&& self.map_spec().wf()
        &&& all_slabs_wf(self.slabs_spec(), self.page_size_spec())
        &&& is_power_of_two(self.page_size_spec())
        &&& self.page_size_spec() * MAX_SLABS_PER_ALLOCATOR <= usize::MAX
    }

    /// Makes the allocator for the given memory map and page size, with an empty heap and no slab
    /// allocators.
    pub fn new(map: MemoryMap, page_size: usize) -> (r: AllMemAlloc)
        requires
            map.wf(),
            is_power_of_two(page_size),
            page_size * MAX_SLABS_PER_ALLOCATOR <= usize::MAX,
        ensures
            r.wf(),
            r.heap_spec()@ == Seq::<crate::heap::HeapBlock>::empty(),
            r.map_spec()@ == map@,
            r.slabs_spec().len() == 0,
            r.page_size_spec() == page_size,
    {
        AllMemAlloc { heap: Heap::new(), map, slabs: Vec::new(), page_size }
    }

    /// Reserves `size` bytes of memory-mapped I/O space at physical address `base`. Fails if that
    /// memory overlaps a block already allocated or runs past the end of the address space.
    pub fn mmio_mut<T>(&mut self, base: usize, size: usize) -> (r: Result<Mmio<T>, AllocError>)
        requires
            old(self).wf(),
            base % (vstd::layout::align_of::<T>() as usize) == 0,
            size >= vstd::layout::size_of::<T>(),
            vstd::layout::size_of::<T>() > 0,
        ensures
            final(self).wf(),
            final(self).slabs_spec() == old(self).slabs_spec(),
            final(self).map_spec()@ == old(self).map_spec()@,
            r is Ok ==> r->Ok_0.base_addr() == base
                && r->Ok_0.size_spec() == size as int / vstd::layout::size_of::<T>() as int,
            base + size <= usize::MAX ==> match allocate_spec(old(self).heap_spec()@, base, size) {
                Some(b) => r is Ok && final(self).heap_spec()@ == b,
                None => r is Err && final(self).heap_spec()@ == old(self).heap_spec()@,
            },
            base + size > usize::MAX ==> r is Err,
    {
        let elem = core::mem::size_of::<T>();
        let res = self.heap.reserve_mmio_with_map(base, size, &self.map);
        res?;
        let count = size / elem;
        assert(count * elem <= size) by (nonlinear_arith) requires elem > 0, count == size / elem;
        Ok(Mmio::new(PhysPtr::<T, MutPtr<T>>::from_addr_phys(base), count, Some(BlockAllocation::Heap(base))))
    }

    // Makes a slab allocator for as many pages as the heap can give (at most
    // `MAX_SLABS_PER_ALLOCATOR`, halving the number on each failure), and puts it first in the
    // list of slab allocators.
    fn add_slab_allocator(&mut self) -> (r: Result<(), AllocError>)
        requires
            old(self).wf(),
        ensures
            final(self).wf(),
            final(self).map_spec()@ == old(self).map_spec()@,
            final(self).page_size_spec() == old(self).page_size_spec(),
            match new_slab_arena(old(self).map_spec()@, old(self).heap_spec()@, old(self).page_size_spec(),
                MAX_SLABS_PER_ALLOCATOR) {
                Some((count, base, after)) => {
                    let new = final(self).slabs_spec()[0];
                    &&& r is Ok
                    &&& final(self).slabs_spec().len() == old(self).slabs_spec().len() + 1
                    &&& final(self).slabs_spec().skip(1) == old(self).slabs_spec()
                    &&& final(self).heap_spec()@ == after
                    &&& new.arena_base() == base
                    &&& new.slots().len() == count
                    &&& new.next_alloc_slot() == 0
                    &&& new.slots()[0] == base
                    &&& new.slots()[0] != USED_SLAB
                },
                None => r is Err && final(self).slabs_spec() == old(self).slabs_spec()
                    && final(self).heap_spec()@ == old(self).heap_spec()@,
            },
    {
        let page_size = self.page_size;
        let mut slabs_count = MAX_SLABS_PER_ALLOCATOR;
        assert(is_power_of_two(256usize)) by (bit_vector);
        loop
            invariant
                self.wf(),
                self.map@ == old(self).map@,
                self.slabs@ == old(self).slabs@,
                self.heap@ == old(self).heap@,
                self.page_size == page_size,
                page_size == old(self).page_size,
                is_power_of_two(slabs_count),
                slabs_count <= MAX_SLABS_PER_ALLOCATOR,
                new_slab_arena(old(self).map@, old(self).heap@, page_size, MAX_SLABS_PER_ALLOCATOR)
                    == new_slab_arena(old(self).map@, old(self).heap@, page_size, slabs_count),
            decreases slabs_count,
        {
            assert(slabs_count * page_size <= page_size * MAX_SLABS_PER_ALLOCATOR) by (nonlinear_arith)
                requires slabs_count <= MAX_SLABS_PER_ALLOCATOR, page_size >= 0;
            assert(slabs_count * page_size > 0) by (nonlinear_arith)
                requires slabs_count > 0, page_size > 0;
            let arena_size = slabs_count * page_size;
            match self.heap.malloc_with_map(arena_size, page_size, &self.map) {
                Ok(base) => {
                    let arena = BlockMut::new(PhysPtr::<u8, MutPtr<u8>>::from_addr_phys(base), arena_size,
                        Some(BlockAllocation::Heap(base)));
                    let allocator = SlabAllocator::new(arena, slabs_count, page_size);
                    proof {
                        assert(allocator.slots()[0] != USED_SLAB) by {
                            assert(allocator.slots()[0] == base + 0 * page_size);
                        }
                        lemma_slabs_prepend(self.slabs@, page_size, allocator);
                    }
                    self.slabs.insert(0, allocator);
                    return Ok(());
                },
                Err(_) => {
                    if slabs_count == 1 {
                        return Err(AllocError);
                    }
                    proof {
                        lemma_halve_power_of_two(slabs_count);
                    }
                    assert(slabs_count / 2 < slabs_count);
                    slabs_count = slabs_count / 2;
                },
            }
        }
    }

    /// Finds and reserves `size` bytes of physical memory aligned on an `align`-byte boundary, as a
    /// block of `size / size_of::<T>()` elements. A request for exactly one page, page-aligned, is
    /// served by the first slab allocator that has a free slab, or by a new slab allocator if none
    /// has. Any other request of at least one byte is served by the heap; a request of zero bytes
    /// gets an empty block at `align`.
    pub fn malloc<T>(&mut self, size: usize, align: usize) -> (r: Result<BlockMut<MaybeUninit<T>>, AllocError>)
        requires
            old(self).wf(),
            align > 0,
            align % (vstd::layout::align_of::<T>() as usize) == 0,
            size >= vstd::layout::size_of::<T>(),
            vstd::layout::size_of::<T>() > 0,
        ensures
            final(self).wf(),
            final(self).map_spec()@ == old(self).map_spec()@,
            r is Ok ==> r->Ok_0.size_spec() == size as int / vstd::layout::size_of::<T>() as int,
            !is_page_request(size, align, old(self).page_size_spec()) ==> final(self).slabs_spec() == old(self).slabs_spec(),
            !is_page_request(size, align, old(self).page_size_spec()) && size > 0 ==>
                heap_malloc_result(old(self).map_spec()@, old(self).heap_spec()@, final(self).heap_spec()@, size, align, r),
            !is_page_request(size, align, old(self).page_size_spec()) && size == 0 ==>
                r is Ok && r->Ok_0.base_addr() == align && final(self).heap_spec()@ == old(self).heap_spec()@,
            is_page_request(size, align, old(self).page_size_spec()) && !has_free_slab(old(self).slabs_spec()) ==>
                // A new slab allocator gives the first slab of its arena, or, if none could be
                // made, the heap serves the request.
                match new_slab_arena(old(self).map_spec()@, old(self).heap_spec()@, old(self).page_size_spec(),
                    MAX_SLABS_PER_ALLOCATOR) {
                    Some((count, base, after)) => {
                        let new = final(self).slabs_spec()[0];
                        &&& final(self).slabs_spec().len() == old(self).slabs_spec().len() + 1
                        &&& final(self).heap_spec()@ == after
                        &&& r is Ok
                        &&& r->Ok_0.base_addr() == base
                        &&& new.arena_base() == base
                        &&& new.slots().len() == count
                        &&& new.slots()[0] == USED_SLAB
                        &&& new.next_alloc_slot() == 1int % (count as int)
                        &&& new.slab_size_spec() == old(self).page_size_spec()
                        &&& forall|j: int| 0 <= j < old(self).slabs_spec().len()
                            ==> same_slab_state(#[trigger] final(self).slabs_spec()[j + 1], old(self).slabs_spec()[j])
                    },
                    None => {
                        &&& final(self).slabs_spec().len() == old(self).slabs_spec().len()
                        &&& forall|j: int| 0 <= j < old(self).slabs_spec().len()
                            ==> same_slab_state(#[trigger] final(self).slabs_spec()[j], old(self).slabs_spec()[j])
                        &&& heap_malloc_result(old(self).map_spec()@, old(self).heap_spec()@, final(self).heap_spec()@,
                            size, align, r)
                    },
                },
            is_page_request(size, align, old(self).page_size_spec()) && has_free_slab(old(self).slabs_spec()) ==> {
                let k = first_free_slab(old(self).slabs_spec());
                let before = old(self).slabs_spec()[k];
                let after = final(self).slabs_spec()[k];
                &&& 0 <= k < old(self).slabs_spec().len()
                &&& r is Ok
                &&& r->Ok_0.base_addr() == before.slots()[before.next_alloc_slot()]
                &&& r->Ok_0.allocation_spec() matches Some(BlockAllocation::Slab(a))
                    && a.base_spec() == before.slots()[before.next_alloc_slot()]
                &&& final(self).heap_spec()@ == old(self).heap_spec()@
                &&& final(self).slabs_spec().len() == old(self).slabs_spec().len()
                &&& after.slots() == before.slots().update(before.next_alloc_slot(), USED_SLAB)
                &&& after.next_alloc_slot() == (before.next_alloc_slot() + 1) % (before.slots().len() as int)
                &&& forall|j: int| 0 <= j < old(self).slabs_spec().len() && j != k
                    ==> same_slab_state(#[trigger] final(self).slabs_spec()[j], old(self).slabs_spec()[j])
            },
    {
        let elem = core::mem::size_of::<T>();
        let page_size = self.page_size;
        if size == page_size && align == page_size {
            // Try the slab allocators first.
            let mut i: usize = 0;
            while i < self.slabs.len()
                invariant
                    self.wf(),
                    self.map@ == old(self).map@,
                    self.page_size == page_size,
                    page_size == old(self).page_size,
                    size == page_size,
                    align == page_size,
                    elem == vstd::layout::size_of::<T>(),
                    elem > 0,
                    size >= elem,
                    self.heap@ == old(self).heap@,
                    self.slabs@.len() == old(self).slabs@.len(),
                    i <= self.slabs@.len(),
                    forall|j: int| 0 <= j < self.slabs@.len()
                        ==> same_slab_state(#[trigger] self.slabs@[j], old(self).slabs@[j]),
                    forall|j: int| 0 <= j < i ==> !slab_has_free(#[trigger] self.slabs@[j]),
                decreases self.slabs@.len() - i,
            {
                let ghost before = self.slabs@;
                let mut slab = self.slabs.remove(i);
                assert(slab == before[i as int]);
                assert(before[i as int].wf());
                let attempt = slab.try_alloc();
                proof {
                    lemma_slabs_replace(before, self.page_size, i as int, slab);
                }
                self.slabs.insert(i, slab);
                if let Ok(block) = attempt {
                    proof {
                        let o = old(self).slabs@;
                        assert(slab_has_free(o[i as int]));
                        assert(has_free_slab(o));
                        assert forall|j: int| 0 <= j < i implies !slab_has_free(#[trigger] o[j]) by {
                            assert(same_slab_state(before[j], o[j]));
                        }
                        let k = first_free_slab(o);
                        if k < i {
                            assert(same_slab_state(before[k], o[k]));
                        } else if k > i {
                            assert(!slab_has_free(o[i as int]));
                        }
                        assert forall|j: int| 0 <= j < o.len() && j != i implies
                            same_slab_state(#[trigger] self.slabs@[j], o[j]) by {
                            assert(self.slabs@[j] == before[j]);
                        }
                    }
                    return Ok(self.page_block::<T>(block));
                }
                proof {
                    assert forall|j: int| 0 <= j < self.slabs@.len() implies
                        same_slab_state(#[trigger] self.slabs@[j], old(self).slabs@[j]) by {
                        if j != i {
                            assert(self.slabs@[j] == before[j]);
                        }
                    }
                    assert forall|j: int| 0 <= j < i + 1 implies !slab_has_free(#[trigger] self.slabs@[j]) by {
                        if j != i {
                            assert(self.slabs@[j] == before[j]);
                        }
                    }
                }
                i += 1;
            }
            proof {
                let o = old(self).slabs@;
                assert forall|j: int| 0 <= j < o.len() implies !slab_has_free(#[trigger] o[j]) by {
                    assert(same_slab_state(self.slabs@[j], o[j]));
                }
            }
            // None of the slab allocators has a free slab, so make a new one.
            if self.add_slab_allocator().is_ok() {
                let ghost before = self.slabs@;
                let mut slab = self.slabs.remove(0);
                assert(slab == before[0]);
                assert(before[0].wf());
                let attempt = slab.try_alloc();
                proof {
                    lemma_slabs_replace(before, self.page_size, 0, slab);
                }
                self.slabs.insert(0, slab);
                match attempt {
                    Ok(block) => return Ok(self.page_block::<T>(block)),
                    Err(e) => return Err(AllocError),
                }
            }
        }

        // As a last resort, allocate directly from the heap.
        if size == 0 {
            return Ok(BlockMut::new(PhysPtr::<MaybeUninit<T>, MutPtr<MaybeUninit<T>>>::from_addr_phys(align), 0, None));
        }
        let base = self.heap.malloc_with_map(size, align, &self.map)?;
        let count = size / elem;
        assert(count * elem <= size) by (nonlinear_arith) requires elem > 0, count == size / elem;
        Ok(BlockMut::new(PhysPtr::<MaybeUninit<T>, MutPtr<MaybeUninit<T>>>::from_addr_phys(base), count,
            Some(BlockAllocation::Heap(base))))
    }

    // Turns a page-sized slab into a block of `T` elements.
    fn page_block<T>(&self, block: BlockMut<u8>) -> (r: BlockMut<MaybeUninit<T>>)
        requires
            vstd::layout::size_of::<T>() > 0,
            block.size_spec() == self.page_size_spec(),
            self.page_size_spec() * MAX_SLABS_PER_ALLOCATOR <= usize::MAX,
        ensures
            r.size_spec() == self.page_size_spec() as int / vstd::layout::size_of::<T>() as int,
            r.base_addr() == block.base_addr(),
            r.allocation_spec() == block.allocation_spec(),
    {
        broadcast use vstd::layout::layout_of_primitives;
        assert(block.size_spec() * vstd::layout::size_of::<u8>() <= usize::MAX);
        block.transmute::<MaybeUninit<T>>()
    }

    /// Like `malloc`, but only uses memory below `1 << max_bits` (any memory if `max_bits` is at
    /// least the number of bits in a `usize`). Fails at once if `align` is above that limit.
    pub fn malloc_low<T>(&mut self, size: usize, align: usize, max_bits: usize)
        -> (r: Result<BlockMut<MaybeUninit<T>>, AllocError>)
        requires
            old(self).wf(),
            align > 0,
            align % (vstd::layout::align_of::<T>() as usize) == 0,
            size >= vstd::layout::size_of::<T>(),
            vstd::layout::size_of::<T>() > 0,
        ensures
            final(self).wf(),
            final(self).map_spec()@ == old(self).map_spec()@,
            final(self).slabs_spec() == old(self).slabs_spec(),
            max_bits < usize::BITS && align > (1usize << max_bits) ==> r is Err
                && final(self).heap_spec()@ == old(self).heap_spec()@,
            r is Ok ==> r->Ok_0.size_spec() == size as int / vstd::layout::size_of::<T>() as int,
            !(max_bits < usize::BITS && align > (1usize << max_bits)) && size == 0 ==>
                r is Ok && r->Ok_0.base_addr() == align && final(self).heap_spec()@ == old(self).heap_spec()@,
            !(max_bits < usize::BITS && align > (1usize << max_bits)) && size > 0 ==>
                match heap_malloc_low_spec(old(self).map_spec()@, old(self).map_spec().max_address_spec(),
                    old(self).heap_spec()@, size, align, max_bits) {
                    Some((b, after)) => r is Ok && r->Ok_0.base_addr() == b
                        && r->Ok_0.allocation_spec() == Some(BlockAllocation::Heap(b))
                        && final(self).heap_spec()@ == after,
                    None => r is Err && final(self).heap_spec()@ == old(self).heap_spec()@,
                },
    {
        let elem = core::mem::size_of::<T>();
        if max_bits < usize::BITS as usize && align > (1usize << max_bits) {
            // Nothing but null could have this alignment.
            return Err(AllocError);
        }
        if size == 0 {
            return Ok(BlockMut::new(PhysPtr::<MaybeUninit<T>, MutPtr<MaybeUninit<T>>>::from_addr_phys(align), 0, None));
        }
        let base = self.heap.malloc_low(size, align, max_bits, &self.map)?;
        let count = size / elem;
        assert(count * elem <= size) by (nonlinear_arith) requires elem > 0, count == size / elem;
        Ok(BlockMut::new(PhysPtr::<MaybeUninit<T>, MutPtr<MaybeUninit<T>>>::from_addr_phys(base), count,
            Some(BlockAllocation::Heap(base))))
    }

    /// Whether the block at `addr` can be freed: the first slab allocator that owns it is due to
    /// take a slab back, or, if none owns it, the heap has a block there.
    pub open spec fn can_free(&self, addr: usize) -> bool {
        if owned_by_slab(self.slabs_spec(), addr) {
            let i = first_owner(self.slabs_spec(), addr);
            self.slabs_spec()[i].slots()[self.slabs_spec()[i].next_free_slot()] == USED_SLAB
        } else {
            exists|j: int| 0 <= j < self.heap_spec()@.len() && #[trigger] self.heap_spec()@[j].base == addr
        }
    }

    /// Frees the block at physical address `addr`: gives it back to the first slab allocator that
    /// owns it, or else to the heap.
    pub fn free(&mut self, addr: usize)
        requires
            old(self).wf(),
            old(self).can_free(addr),
        ensures
            final(self).wf(),
            final(self).map_spec()@ == old(self).map_spec()@,
            final(self).page_size_spec() == old(self).page_size_spec(),
            final(self).slabs_spec().len() == old(self).slabs_spec().len(),
            owned_by_slab(old(self).slabs_spec(), addr) ==> {
                let i = first_owner(old(self).slabs_spec(), addr);
                let before = old(self).slabs_spec()[i];
                let after = final(self).slabs_spec()[i];
                &&& 0 <= i < old(self).slabs_spec().len()
                &&& after.slots() == before.slots().update(before.next_free_slot(), addr)
                &&& after.next_free_slot() == (before.next_free_slot() + 1) % (before.slots().len() as int)
                &&& after.next_alloc_slot() == before.next_alloc_slot()
                &&& after.arena_base() == before.arena_base()
                &&& after.arena_size() == before.arena_size()
                &&& forall|k: int| 0 <= k < old(self).slabs_spec().len() && k != i
                    ==> #[trigger] final(self).slabs_spec()[k] == old(self).slabs_spec()[k]
                &&& final(self).heap_spec()@ == old(self).heap_spec()@
            },
            !owned_by_slab(old(self).slabs_spec(), addr) ==> {
                &&& final(self).heap_spec()@
                    == old(self).heap_spec()@.remove(first_with_base(old(self).heap_spec()@, addr, 0) as int)
                &&& final(self).slabs_spec() == old(self).slabs_spec()
            },
    {
        let mut i: usize = 0;
        while i < self.slabs.len()
            invariant
                self == old(self),
                self.wf(),
                self.can_free(addr),
                forall|k: int| 0 <= k < i ==> !self.slabs@[k].owns_slab_spec(addr),
            decreases self.slabs@.len() - i,
        {
            if self.slabs[i].owns_slab(addr) {
                proof {
                    assert(self.slabs_spec()[i as int].owns_slab_spec(addr));
                    assert(owned_by_slab(self.slabs_spec(), addr));
                    assert(0 <= i < self.slabs_spec().len() && self.slabs_spec()[i as int].owns_slab_spec(addr)
                        && forall|k: int| 0 <= k < i ==> !self.slabs_spec()[k].owns_slab_spec(addr));
                    let j = first_owner(self.slabs_spec(), addr);
                    if j < i {
                        assert(!self.slabs@[j].owns_slab_spec(addr));
                    } else if j > i {
                        assert(!self.slabs_spec()[i as int].owns_slab_spec(addr));
                    }
                }
                let ghost before = self.slabs@;
                let mut slab = self.slabs.remove(i);
                assert(slab == before[i as int]);
                assert(before[i as int].wf());
                slab.free(addr);
                proof {
                    lemma_slabs_replace(before, self.page_size, i as int, slab);
                }
                self.slabs.insert(i, slab);
                return;
            }
            i += 1;
        }
        self.heap.dealloc(addr);
    }
}

// Half of a power of two above one is a power of two.
proof fn lemma_halve_power_of_two(n: usize)
    requires
        is_power_of_two(n),
        n > 1,
    ensures
        is_power_of_two(n / 2),
{
    assert(n > 1 && n & ((n - 1) as usize) == 0 ==> (n / 2) > 0 && (n / 2) & (((n / 2) - 1) as usize) == 0)
        by (bit_vector);
}

} // verus!
