//! The placement logic of the kernel's heap. The heap is a list of allocated blocks, sorted by base
//! address; memory is allocated by scanning the free space between those blocks, region by region
//! of a memory map, for the best fit.

use vstd::prelude::*;
use crate::memory_map::{MemoryMap, Region, present_spec, regions_wf, remove_region_spec};

verus! {

/// An allocated block of the heap: `size` bytes starting at `base`.
#[derive(Debug, Clone, Copy, PartialEq, Eq, Structural)]
pub struct HeapBlock {
    pub base: usize,
    pub size: usize,
}

/// The reason an allocation failed.
#[derive(Debug, Clone, Copy, PartialEq, Eq, Structural)]
pub struct AllocError;

/// `addr + (align - 1)`, wrapping around at the top of the address space, rounded down to a
/// multiple of `align`.
pub open spec fn align_up_spec(addr: usize, align: usize) -> usize {
    let sum: int = if addr + (align - 1) > usize::MAX { addr + (align - 1) - (usize::MAX + 1) } else { addr + (align - 1) };
    ((sum / (align as int)) * align) as usize
}

/// `x - y`, or 0 where that would be negative.
pub open spec fn sat_sub(x: usize, y: usize) -> usize {
    if x >= y { (x - y) as usize } else { 0 }
}

/// `x - y`, wrapping around below zero.
pub open spec fn wrap_sub(x: usize, y: usize) -> usize {
    if x >= y { (x - y) as usize } else { (x - y + usize::MAX + 1) as usize }
}

/// The free block between the end of the block `(prev_base, prev_size)` and `next_base` (or the
/// top of the address space), clipped to the region `r`, with its base aligned up to `align` and
/// moved off address 0.
pub open spec fn find_free_space_spec(r: Region, prev_base: usize, prev_size: usize, next_base: Option<usize>, align: usize) -> (usize, usize) {
    let prev_end = prev_base + prev_size;
    let region_end = r.base + r.size;
    let region_top = region_end > usize::MAX;
    if prev_end > usize::MAX || (!region_top && prev_end >= region_end) {
        (0, 0)
    } else if next_base is Some && next_base.unwrap() <= r.base {
        (0, 0)
    } else {
        let fb0 = if prev_end > r.base { align_up_spec(prev_end as usize, align) } else { align_up_spec(r.base, align) };
        let (fb1, fs1) = match next_base {
            Some(nb) => if region_top || nb < region_end {
                (fb0, sat_sub(nb, fb0))
            } else {
                (fb0, sat_sub(region_end as usize, fb0))
            },
            None => if region_top {
                let fs = wrap_sub(0, fb0);
                if fb0 == 0 { (align, wrap_sub(fs, align)) } else { (fb0, fs) }
            } else {
                (fb0, sat_sub(region_end as usize, fb0))
            },
        };
        if fb1 == 0 { (align, sat_sub(fs1, align)) } else { (fb1, fs1) }
    }
}

/// How well an allocation of `size` bytes fits a free block of `free_size` bytes, given the size
/// that allocations are expected to have. Lower is better.
pub open spec fn fit_score_spec(size: usize, free_size: usize, expected: usize) -> usize {
    let score = ((free_size - size) % (expected as int)) as usize;
    if score <= expected - score { score } else { (expected - score) as usize }
}

// Rounds the given address up until it's aligned at a multiple of `align`.
fn align_up(addr: usize, align: usize) -> (r: usize)
    requires
        align > 0,
    ensures
        r == align_up_spec(addr, align),
{
    let sum = addr.wrapping_add(align - 1);
    proof {
        let s: int = sum as int;
        assert(s / (align as int) * align <= s) by (nonlinear_arith)
            requires s >= 0, align > 0;
        assert(s / (align as int) * align >= 0) by (nonlinear_arith)
            requires s >= 0, align > 0;
    }
    sum / align * align
}

// Calculates a score to determine how well a given allocation would fit in a given free block.
// A lower score indicates a better fit.
fn fit_score(size: usize, free_size: usize, expected_malloc_size: usize) -> (r: usize)
    requires
        free_size >= size,
        expected_malloc_size > 0,
    ensures
        r == fit_score_spec(size, free_size, expected_malloc_size),
{
    let score = (free_size - size) % expected_malloc_size;
    if score <= expected_malloc_size - score { score } else { expected_malloc_size - score }
}

// Finds the base address and size of the space between the two given blocks in the given region
// after applying the given alignment.
fn find_free_space(region: &Region, prev_base: usize, prev_size: usize, next_base: Option<usize>, align: usize) -> (r: (usize, usize))
    requires
        align > 0,
    ensures
        r == find_free_space_spec(*region, prev_base, prev_size, next_base, align),
{
    // If the free block isn't in this region, return a zero-sized block.
    let region_top = region.base.checked_add(region.size).is_none();
    if prev_base.checked_add(prev_size).is_none() || (!region_top && prev_base + prev_size >= region.base + region.size) {
        return (0, 0);
    }
    if let Some(next_base) = next_base {
        if next_base <= region.base {
            return (0, 0);
        }
    }

    // Find the free block in this region between these allocated blocks and see how big it is.
    let mut free_base;
    let mut free_size;
    if prev_base + prev_size > region.base {
        free_base = align_up(prev_base + prev_size, align);
    } else {
        free_base = align_up(region.base, align);
    }
    if let Some(next_base) = next_base {
        if region_top || next_base < region.base + region.size {
            free_size = next_base.saturating_sub(free_base);
        } else {
            free_size = (region.base + region.size).saturating_sub(free_base);
        }
    } else {
        if region_top {
            free_size = 0usize.wrapping_sub(free_base);
            // This case would break very slightly if we handled null in the same way as in every
            // other case.
            if free_base == 0 {
                free_base = align;
                free_size = free_size.wrapping_sub(align);
            }
        } else {
            free_size = (region.base + region.size).saturating_sub(free_base);
        }
    }

    // Never allocate a block that contains null.
    if free_base == 0 {
        free_base = align;
        free_size = free_size.saturating_sub(align);
    }

    (free_base, free_size)
}


/// The candidate free blocks that the scan of the region `r` yields, starting with `prev` as the
/// block before the free space and with `blocks[idx]` as the next one; and the index and previous
/// block where the scan of the next region goes on.
pub open spec fn scan_region(r: Region, blocks: Seq<HeapBlock>, idx: nat, prev: HeapBlock, align: usize) -> (Seq<(usize, usize)>, nat, HeapBlock)
    decreases blocks.len() - idx,
{
    let prev_end = prev.base + prev.size;
    let region_top = r.base + r.size > usize::MAX;
    if !(prev_end <= usize::MAX && (region_top || prev_end < r.base + r.size)) {
        (Seq::empty(), idx, prev)
    } else if idx < blocks.len() {
        let c = find_free_space_spec(r, prev.base, prev.size, Some(blocks[idx as int].base), align);
        if !region_top && blocks[idx as int].base >= r.base + r.size {
            // The next block lies past this region: the scan of the next region starts before it.
            (seq![c], idx, prev)
        } else {
            let rest = scan_region(r, blocks, idx + 1, blocks[idx as int], align);
            (seq![c] + rest.0, rest.1, rest.2)
        }
    } else {
        (seq![find_free_space_spec(r, prev.base, prev.size, None, align)], idx, prev)
    }
}

/// The candidate free blocks that the scan of the regions `regions[k..]` yields.
pub open spec fn candidates_from(regions: Seq<Region>, k: nat, blocks: Seq<HeapBlock>, idx: nat, prev: HeapBlock, align: usize) -> Seq<(usize, usize)>
    decreases regions.len() - k,
{
    if k >= regions.len() {
        Seq::empty()
    } else {
        let scan = scan_region(regions[k as int], blocks, idx, prev, align);
        scan.0 + candidates_from(regions, k + 1, blocks, scan.1, scan.2, align)
    }
}

/// Every candidate free block that the scan of the present regions of a map yields, in order.
pub open spec fn candidates(regions: Seq<Region>, blocks: Seq<HeapBlock>, align: usize) -> Seq<(usize, usize)> {
    candidates_from(present_spec(regions), 0, blocks, 0, HeapBlock { base: 0, size: 0 }, align)
}

/// The base chosen from the candidates for an allocation of `size` bytes: the first candidate of
/// exactly that size if there is one, else the last of the candidates with the best fit score, else
/// none. `best` is the best candidate so far with its score.
pub open spec fn pick(cands: Seq<(usize, usize)>, size: usize, expected: usize, best: (usize, usize, usize)) -> Option<usize>
    decreases cands.len(),
{
    if cands.len() == 0 {
        if best.1 >= size { Some(best.0) } else { None }
    } else {
        let (fb, fs) = cands[0];
        let rest = cands.subrange(1, cands.len() as int);
        if fs >= size {
            if fs == size {
                Some(fb)
            } else {
                let sc = fit_score_spec(size, fs, expected);
                if sc <= best.2 { pick(rest, size, expected, (fb, fs, sc)) } else { pick(rest, size, expected, best) }
            }
        } else {
            pick(rest, size, expected, best)
        }
    }
}

/// The base `find_best_base` chooses for `size` bytes aligned to `align` in the map `regions`
/// given the allocated `blocks`.
pub open spec fn best_base_spec(regions: Seq<Region>, blocks: Seq<HeapBlock>, size: usize, align: usize, expected: usize) -> Option<usize> {
    pick(candidates(regions, blocks, align), size, expected, (0, 0, usize::MAX))
}

proof fn lemma_pick_cons(c: (usize, usize), rest: Seq<(usize, usize)>, size: usize, expected: usize, best: (usize, usize, usize))
    ensures
        pick(seq![c] + rest, size, expected, best) == (if c.1 >= size {
            if c.1 == size {
                Some(c.0)
            } else {
                let sc = fit_score_spec(size, c.1, expected);
                if sc <= best.2 { pick(rest, size, expected, (c.0, c.1, sc)) } else { pick(rest, size, expected, best) }
            }
        } else {
            pick(rest, size, expected, best)
        }),
{
    let s = seq![c] + rest;
    assert(s[0] == c);
    assert(s.subrange(1, s.len() as int) =~= rest);
}

// Finds the base of the best free block in which to allocate the given amount of memory, if
// there's enough free space anywhere.
fn find_best_base(size: usize, align: usize, map: &MemoryMap, blocks: &Vec<HeapBlock>, expected_malloc_size: usize) -> (r: Result<usize, AllocError>)
    requires
        size > 0,
        align > 0,
        expected_malloc_size > 0,
    ensures
        r == (match best_base_spec(map@, blocks@, size, align, expected_malloc_size) {
            Some(b) => Ok::<usize, AllocError>(b),
            None => Err(AllocError),
        }),
{
    let regions = map.present_regions();
    let ghost goal = best_base_spec(map@, blocks@, size, align, expected_malloc_size);
    let mut best_base: usize = 0;
    let mut best_size: usize = 0;
    let mut best_score: usize = usize::MAX;
    let mut idx: usize = 0;
    let mut prev = HeapBlock { base: 0, size: 0 };
    let mut k: usize = 0;
    while k < regions.len()
        invariant
            regions@ == present_spec(map@),
            goal == best_base_spec(map@, blocks@, size, align, expected_malloc_size),
            idx <= blocks@.len(),
            size > 0,
            align > 0,
            expected_malloc_size > 0,
            goal == pick(candidates_from(regions@, k as nat, blocks@, idx as nat, prev, align), size, expected_malloc_size,
                (best_base, best_size, best_score)),
        decreases regions@.len() - k,
    {
        let region = regions[k];
        let mut done = false;
        while !done && prev.base.checked_add(prev.size).is_some()
            && (region.base.checked_add(region.size).is_none() || prev.base + prev.size < region.base + region.size)
            invariant
                regions@ == present_spec(map@),
                0 <= k < regions@.len(),
                region == regions@[k as int],
                goal == best_base_spec(map@, blocks@, size, align, expected_malloc_size),
                idx <= blocks@.len(),
                size > 0,
                align > 0,
                expected_malloc_size > 0,
                goal == pick(
                    (if done { Seq::empty() } else { scan_region(region, blocks@, idx as nat, prev, align).0 })
                        + candidates_from(regions@, (k + 1) as nat, blocks@,
                            if done { idx as nat } else { scan_region(region, blocks@, idx as nat, prev, align).1 },
                            if done { prev } else { scan_region(region, blocks@, idx as nat, prev, align).2 }, align),
                    size, expected_malloc_size, (best_base, best_size, best_score)),
            decreases blocks@.len() - idx + (if done { 0int } else { 1int }),
        {
            let ghost old_idx = idx;
            let ghost old_prev = prev;
            let next_base = if idx < blocks.len() { Some(blocks[idx].base) } else { None };
            let (free_base, free_size) = find_free_space(&region, prev.base, prev.size, next_base, align);
            let past_region = idx < blocks.len() && region.base.checked_add(region.size).is_some()
                && blocks[idx].base >= region.base + region.size;
            let ghost rest = if idx < blocks@.len() && !past_region {
                scan_region(region, blocks@, (idx + 1) as nat, blocks@[idx as int], align)
            } else {
                (Seq::<(usize, usize)>::empty(), idx as nat, prev)
            };
            let ghost tail = candidates_from(regions@, (k + 1) as nat, blocks@, rest.1, rest.2, align);
            proof {
                assert(seq![(free_base, free_size)] + Seq::<(usize, usize)>::empty() =~= seq![(free_base, free_size)]);
                assert(scan_region(region, blocks@, idx as nat, prev, align) == (seq![(free_base, free_size)] + rest.0, rest.1, rest.2));
                assert(!done);
                assert(seq![(free_base, free_size)] + rest.0 + tail == seq![(free_base, free_size)] + (rest.0 + tail));
                lemma_pick_cons((free_base, free_size), rest.0 + tail, size, expected_malloc_size, (best_base, best_size, best_score));
                assert(goal == pick(seq![(free_base, free_size)] + (rest.0 + tail), size, expected_malloc_size, (best_base, best_size, best_score)));
            }
            if free_size >= size {
                if free_size == size {
                    // Perfect fit! No need to keep looking.
                    return Ok(free_base);
                }
                let score = fit_score(size, free_size, expected_malloc_size);
                if score <= best_score {
                    best_base = free_base;
                    best_size = free_size;
                    best_score = score;
                }
            }
            if idx < blocks.len() && !past_region {
                prev = blocks[idx];
                idx += 1;
            } else {
                done = true;
            }
        }
        k += 1;
    }
    if best_size >= size {
        Ok(best_base)
    } else {
        Err(AllocError)
    }
}


// `pick` finds a base when a candidate or the best so far is at least `size` bytes long, given that
// the best so far is either unset or that long.
proof fn lemma_pick_finds(cands: Seq<(usize, usize)>, size: usize, expected: usize, best: (usize, usize, usize))
    requires
        best.2 == usize::MAX || best.1 >= size,
        best.1 >= size || exists|i: int| 0 <= i < cands.len() && (#[trigger] cands[i]).1 >= size,
    ensures
        pick(cands, size, expected, best) is Some,
    decreases cands.len(),
{
    if cands.len() > 0 {
        let (fb, fs) = cands[0];
        let rest = cands.subrange(1, cands.len() as int);
        if fs >= size {
            if fs != size {
                let sc = fit_score_spec(size, fs, expected);
                if sc <= best.2 {
                    lemma_pick_finds(rest, size, expected, (fb, fs, sc));
                } else {
                    lemma_pick_finds(rest, size, expected, best);
                }
            }
        } else {
            if best.1 < size {
                let i = choose|i: int| 0 <= i < cands.len() && (#[trigger] cands[i]).1 >= size;
                assert(i > 0);
                assert(rest[i - 1] == cands[i]);
            }
            lemma_pick_finds(rest, size, expected, best);
        }
    }
}

/// When the scan of the map's present regions finds a free block of at least `size` bytes, the
/// search for the best base finds one.
pub proof fn lemma_best_base_found(regions: Seq<Region>, blocks: Seq<HeapBlock>, size: usize, align: usize, expected: usize)
    requires
        exists|i: int| 0 <= i < candidates(regions, blocks, align).len()
            && (#[trigger] candidates(regions, blocks, align)[i]).1 >= size,
    ensures
        best_base_spec(regions, blocks, size, align, expected) is Some,
{
    lemma_pick_finds(candidates(regions, blocks, align), size, expected, (0, 0, usize::MAX));
}

/// Whether the blocks are sorted by base address.
pub open spec fn blocks_sorted(b: Seq<HeapBlock>) -> bool {
    forall|i: int, j: int| 0 <= i < j < b.len() ==> #[trigger] b[i].base <= #[trigger] b[j].base
}

/// Whether every block is non-empty and ends inside the address space.
pub open spec fn blocks_valid(b: Seq<HeapBlock>) -> bool {
    forall|i: int| 0 <= i < b.len() ==> #[trigger] b[i].size > 0 && b[i].base + b[i].size <= usize::MAX
}

/// Whether no two blocks overlap (given that they are sorted).
pub open spec fn blocks_disjoint(b: Seq<HeapBlock>) -> bool {
    forall|i: int, j: int| 0 <= i < j < b.len() ==> #[trigger] b[i].base + b[i].size <= #[trigger] b[j].base
}

/// The index of the first block at or after index `i` whose base is at least `base`, or the
/// number of blocks if there is none.
pub open spec fn first_at_or_after(b: Seq<HeapBlock>, base: usize, i: nat) -> nat
    decreases b.len() - i,
{
    if i >= b.len() {
        b.len()
    } else if b[i as int].base >= base {
        i
    } else {
        first_at_or_after(b, base, i + 1)
    }
}

/// The blocks after allocating `size` bytes at `base`: the new block goes before the first block
/// whose base is at least `base`, and the allocation fails if it would overlap that block.
pub open spec fn allocate_spec(b: Seq<HeapBlock>, base: usize, size: usize) -> Option<Seq<HeapBlock>> {
    let j = first_at_or_after(b, base, 0);
    if j < b.len() && b[j as int].base - base < size {
        None
    } else {
        Some(b.insert(j as int, HeapBlock { base, size }))
    }
}

/// The index of the first block at or after index `i` whose base is `base`.
pub open spec fn first_with_base(b: Seq<HeapBlock>, base: usize, i: nat) -> nat
    decreases b.len() - i,
{
    if i >= b.len() {
        b.len()
    } else if b[i as int].base == base {
        i
    } else {
        first_with_base(b, base, i + 1)
    }
}

/// The state of the kernel's heap: the allocated blocks, sorted by base address, and the size
/// that allocations are expected to have.
#[derive(Debug)]
pub struct Heap {
    blocks: Vec<HeapBlock>,
    expected_malloc_size: usize,
}

impl View for Heap {
    type V = Seq<HeapBlock>;

    closed spec fn view(&self) -> Seq<HeapBlock> {
        self.blocks@
    }
}

impl Heap {
    /// The size that the next allocations are expected to have.
    pub closed spec fn expected_size(&self) -> usize {
        self.expected_malloc_size
    }

    /// Whether the heap's blocks are sorted by base address and each is non-empty and ends inside
    /// the address space.
    pub open spec fn wf(&self) -> bool {
        blocks_sorted(self@) && blocks_valid(self@)
    }

    /// Makes an empty heap.
    pub fn new() -> (h: Heap)
        ensures
            h@ == Seq::<HeapBlock>::empty(),
            h.wf(),
            h.expected_size() == 0,
    {
        Heap { blocks: Vec::new(), expected_malloc_size: 0 }
    }

    /// Returns the allocated blocks, sorted by base address.
    pub fn blocks(&self) -> (r: &Vec<HeapBlock>)
        ensures
            r@ == self@,
    {
        &self.blocks
    }

    // Updates the expected size to be given to future calls to malloc with a new datapoint.
    fn update_expected_malloc_size(&mut self, new_size: usize)
        ensures
            final(self)@ == old(self)@,
            final(self).expected_size() == new_size,
    {
        self.expected_malloc_size = new_size;
    }

    // Attempts to allocate a block of `size` bytes starting at `base`. Fails if the block overlaps
    // the first block at or after `base`.
    fn allocate(&mut self, base: usize, size: usize) -> (r: Result<(), AllocError>)
        requires
            old(self).wf(),
            size > 0,
            base + size <= usize::MAX,
        ensures
            match allocate_spec(old(self)@, base, size) {
                Some(b) => r is Ok && final(self)@ == b,
                None => r is Err && final(self)@ == old(self)@,
            },
            final(self).wf(),
            final(self).expected_size() == old(self).expected_size(),
    {
        let ghost b0 = self@;
        let mut j: usize = 0;
        while j < self.blocks.len() && self.blocks[j].base < base
            invariant
                self@ == b0,
                j <= b0.len(),
                first_at_or_after(b0, base, j as nat) == first_at_or_after(b0, base, 0),
                forall|i: int| 0 <= i < j ==> #[trigger] b0[i].base < base,
            decreases b0.len() - j,
        {
            j += 1;
        }
        if j < self.blocks.len() && self.blocks[j].base - base < size {
            return Err(AllocError);
        }
        self.blocks.insert(j, HeapBlock { base, size });
        proof {
            let b1 = b0.insert(j as int, HeapBlock { base, size });
            assert(self@ == b1);
            assert forall|i: int, k: int| 0 <= i < k < b1.len() implies #[trigger] b1[i].base <= #[trigger] b1[k].base by {
                if k < j {
                    assert(b0[i].base <= b0[k].base);
                } else if k == j {
                    assert(b0[i].base < base);
                } else if i < j {
                    assert(b0[i].base < base);
                    assert(b0[j as int].base <= b0[k - 1].base);
                } else if i == j {
                    assert(b0[j as int].base <= b0[k - 1].base);
                } else {
                    assert(b0[i - 1].base <= b0[k - 1].base);
                }
            }
            assert forall|i: int| 0 <= i < b1.len() implies #[trigger] b1[i].size > 0 && b1[i].base + b1[i].size <= usize::MAX by {
                if i > j {
                    assert(b1[i] == b0[i - 1]);
                }
            }
        }
        Ok(())
    }

    /// Frees the block starting at the given base address.
    pub fn dealloc(&mut self, base: usize)
        requires
            old(self).wf(),
            exists|i: int| 0 <= i < old(self)@.len() && #[trigger] old(self)@[i].base == base,
        ensures
            final(self)@ == old(self)@.remove(first_with_base(old(self)@, base, 0) as int),
            first_with_base(old(self)@, base, 0) < old(self)@.len(),
            final(self).wf(),
            final(self).expected_size() == old(self).expected_size(),
    {
        let ghost b0 = self@;
        let mut j: usize = 0;
        while j < self.blocks.len() && self.blocks[j].base != base
            invariant
                self@ == b0,
                j <= b0.len(),
                first_with_base(b0, base, j as nat) == first_with_base(b0, base, 0),
                forall|i: int| 0 <= i < j ==> #[trigger] b0[i].base != base,
            decreases b0.len() - j,
        {
            j += 1;
        }
        proof {
            if j >= b0.len() {
                let i = choose|i: int| 0 <= i < b0.len() && #[trigger] b0[i].base == base;
                assert(b0[i].base != base);
            }
        }
        self.blocks.remove(j);
        proof {
            let b1 = b0.remove(j as int);
            assert forall|i: int, k: int| 0 <= i < k < b1.len() implies #[trigger] b1[i].base <= #[trigger] b1[k].base by {
                let oi = if i < j { i } else { i + 1 };
                let ok = if k < j { k } else { k + 1 };
                assert(b0[oi].base <= b0[ok].base);
            }
            assert forall|i: int| 0 <= i < b1.len() implies #[trigger] b1[i].size > 0 && b1[i].base + b1[i].size <= usize::MAX by {
                let oi = if i < j { i } else { i + 1 };
                assert(b0[oi].size > 0);
            }
        }
    }

    /// Reserves a block of memory-mapped I/O starting at `base` that is `size` bytes long.
    /// Fails if the block would wrap around the address space or overlap the first allocated block
    /// at or after `base`.
    pub fn reserve_mmio_with_map(&mut self, base: usize, size: usize, map: &MemoryMap) -> (r: Result<(), AllocError>)
        requires
            old(self).wf(),
            size > 0,
        ensures
            r is Ok ==> base + size <= usize::MAX,
            base + size > usize::MAX ==> r is Err && final(self)@ == old(self)@,
            base + size <= usize::MAX ==> match allocate_spec(old(self)@, base, size) {
                Some(b) => r is Ok && final(self)@ == b,
                None => r is Err && final(self)@ == old(self)@,
            },
            final(self).wf(),
            final(self).expected_size() == old(self).expected_size(),
    {
        // Don't accept a request for a block that wraps around the address space.
        if base.checked_add(size).is_none() {
            return Err(AllocError);
        }
        self.allocate(base, size)
    }

    /// Finds and reserves a block of RAM in the present regions of `map` that is `size` bytes long
    /// and aligned on an `align`-byte boundary, choosing the free block that fits best. Returns the
    /// base of the block.
    pub fn malloc_with_map(&mut self, size: usize, align: usize, map: &MemoryMap) -> (r: Result<usize, AllocError>)
        requires
            old(self).wf(),
            size > 0,
            align > 0,
        ensures
            r is Ok ==> r->Ok_0 + size <= usize::MAX,
            final(self).expected_size() == size,
            final(self).wf(),
            match best_base_spec(map@, old(self)@, size, align, size) {
                Some(b) => if b + size > usize::MAX {
                    r is Err && final(self)@ == old(self)@
                } else {
                    match allocate_spec(old(self)@, b, size) {
                        Some(blocks) => r == Ok::<usize, AllocError>(b) && final(self)@ == blocks,
                        None => r is Err && final(self)@ == old(self)@,
                    }
                },
                None => r is Err && final(self)@ == old(self)@,
            },
    {
        self.update_expected_malloc_size(size);
        let base = match find_best_base(size, align, map, &self.blocks, self.expected_malloc_size) {
            Ok(base) => base,
            Err(e) => return Err(e),
        };
        if base.checked_add(size).is_none() {
            return Err(AllocError);
        }
        match self.allocate(base, size) {
            Ok(()) => Ok(base),
            Err(e) => Err(e),
        }
    }

    /// Finds and reserves a block of RAM like `malloc_with_map`, but without using any memory with
    /// a physical address that uses more than `max_bits` bits.
    pub fn malloc_low(&mut self, size: usize, align: usize, max_bits: usize, map: &MemoryMap) -> (r: Result<usize, AllocError>)
        requires
            old(self).wf(),
            map.wf(),
            size > 0,
            align > 0,
        ensures
            r is Ok ==> r->Ok_0 + size <= usize::MAX,
            final(self).wf(),
            max_bits >= usize::BITS ==> final(self).expected_size() == size && match best_base_spec(map@, old(self)@, size, align, size) {
                Some(b) => if b + size > usize::MAX {
                    r is Err && final(self)@ == old(self)@
                } else {
                    match allocate_spec(old(self)@, b, size) {
                        Some(blocks) => r == Ok::<usize, AllocError>(b) && final(self)@ == blocks,
                        None => r is Err && final(self)@ == old(self)@,
                    }
                },
                None => r is Err && final(self)@ == old(self)@,
            },
            max_bits < usize::BITS ==> {
                let low = remove_region_spec(map@, map.max_address_spec(), (1usize << max_bits) as usize,
                    wrap_sub(0, (1usize << max_bits) as usize));
                match best_base_spec(low, old(self)@, size, align, size) {
                    Some(b) => if b + size > usize::MAX {
                        r is Err && final(self)@ == old(self)@
                    } else {
                        match allocate_spec(old(self)@, b, size) {
                            Some(blocks) => if b + size > (1usize << max_bits) {
                                r is Err && final(self)@ == old(self)@
                            } else {
                                r == Ok::<usize, AllocError>(b) && final(self)@ == blocks
                            },
                            None => r is Err && final(self)@ == old(self)@,
                        }
                    },
                    None => r is Err && final(self)@ == old(self)@,
                }
            },
    {
        if max_bits >= usize::BITS as usize {
            return self.malloc_with_map(size, align, map);
        }
        let max_addr: usize = 1usize << max_bits;
        proof {
            assert(max_addr > 0) by (bit_vector)
                requires max_addr == 1usize << max_bits, max_bits < usize::BITS;
        }
        let mut low_map = map.copy();
        let _ = low_map.remove_region(max_addr, 0usize.wrapping_sub(max_addr));
        let ghost before = self@;
        let base = match self.malloc_with_map(size, align, &low_map) {
            Ok(base) => base,
            Err(e) => return Err(e),
        };
        if base.saturating_add(size) > max_addr {
            // This can only happen if removing the region from the map failed. Free the block.
            proof {
                lemma_allocate_then_free(before, base, size);
            }
            self.dealloc(base);
            return Err(AllocError);
        }
        Ok(base)
    }
}

/// Allocating a block where the heap chooses, freeing it, and allocating the same size with the
/// same alignment again chooses the same address: freeing gives the blocks back as they were, and
/// the choice depends on nothing else.
pub proof fn lemma_malloc_free_malloc_same_address(regions: Seq<Region>, blocks: Seq<HeapBlock>, size: usize, align: usize)
    requires
        best_base_spec(regions, blocks, size, align, size) is Some,
        allocate_spec(blocks, best_base_spec(regions, blocks, size, align, size).unwrap(), size) is Some,
    ensures
        ({
            let b = best_base_spec(regions, blocks, size, align, size).unwrap();
            let b1 = allocate_spec(blocks, b, size).unwrap();
            best_base_spec(regions, b1.remove(first_with_base(b1, b, 0) as int), size, align, size) == Some(b)
        }),
{
    let b = best_base_spec(regions, blocks, size, align, size).unwrap();
    lemma_allocate_then_free(blocks, b, size);
}

/// Freeing the block that an allocation just added gives back the blocks as they were.
pub proof fn lemma_allocate_then_free(b: Seq<HeapBlock>, base: usize, size: usize)
    requires
        allocate_spec(b, base, size) is Some,
    ensures
        ({
            let b1 = allocate_spec(b, base, size).unwrap();
            &&& exists|i: int| 0 <= i < b1.len() && #[trigger] b1[i].base == base
            &&& b1.remove(first_with_base(b1, base, 0) as int) == b
        }),
{
    let j = first_at_or_after(b, base, 0);
    let b1 = b.insert(j as int, HeapBlock { base, size });
    lemma_first_at_or_after(b, base, 0);
    assert(b1[j as int].base == base);
    lemma_first_with_base_in(b1, base, 0, j);
    assert(b1.remove(j as int) =~= b);
}

proof fn lemma_first_at_or_after(b: Seq<HeapBlock>, base: usize, i: nat)
    requires
        i <= b.len(),
    ensures
        i <= first_at_or_after(b, base, i) <= b.len(),
        forall|k: int| i <= k < first_at_or_after(b, base, i) ==> #[trigger] b[k].base < base,
        first_at_or_after(b, base, i) < b.len() ==> b[first_at_or_after(b, base, i) as int].base >= base,
    decreases b.len() - i,
{
    if i < b.len() && b[i as int].base < base {
        lemma_first_at_or_after(b, base, i + 1);
    }
}

proof fn lemma_first_with_base_in(b: Seq<HeapBlock>, base: usize, i: nat, j: nat)
    requires
        i <= j < b.len(),
        b[j as int].base == base,
        forall|k: int| i <= k < j ==> #[trigger] b[k].base != base,
    ensures
        first_with_base(b, base, i) == j,
    decreases j - i,
{
    if i < j {
        lemma_first_with_base_in(b, base, i + 1, j);
    }
}


/// Whether the free block `c` (base, size) is, if non-empty, aligned to `align`, away from address
/// 0, inside the region `r` and disjoint from every allocated block.
pub open spec fn gap_in(c: (usize, usize), r: Region, blocks: Seq<HeapBlock>, align: usize) -> bool {
    c.1 > 0 ==> {
        &&& c.0 % align == 0
        &&& c.0 > 0
        &&& r.base <= c.0
        &&& c.0 + c.1 <= r.base + r.size
        &&& forall|i: int| 0 <= i < blocks.len() ==>
            #[trigger] blocks[i].base + blocks[i].size <= c.0 || c.0 + c.1 <= blocks[i].base
    }
}

proof fn lemma_align_up(x: usize, align: usize)
    requires
        align > 0,
        x + align - 1 <= usize::MAX,
    ensures
        align_up_spec(x, align) % align == 0,
        x <= align_up_spec(x, align) <= x + align - 1,
{
    let s: int = x + align - 1;
    vstd::arithmetic::div_mod::lemma_fundamental_div_mod(s, align as int);
    vstd::arithmetic::div_mod::lemma_mod_multiples_basic(s / (align as int), align as int);
    assert(0 <= s % (align as int) < align) by {
        vstd::arithmetic::div_mod::lemma_mod_pos_bound(s, align as int);
    }
    assert((s / (align as int)) * align == align * (s / (align as int))) by (nonlinear_arith);
}

/// A free block found between the block `(prev_base, prev_size)` and `next_base` inside a region
/// that ends inside the address space lies between those blocks, inside the region, aligned and
/// away from address 0.
proof fn lemma_free_space_sound(r: Region, prev_base: usize, prev_size: usize, next_base: Option<usize>, align: usize)
    requires
        align > 0,
        r.base + r.size + align <= usize::MAX + 1,
    ensures
        ({
            let c = find_free_space_spec(r, prev_base, prev_size, next_base, align);
            c.1 > 0 ==> {
                &&& c.0 % align == 0
                &&& c.0 > 0
                &&& r.base <= c.0
                &&& prev_base + prev_size <= c.0
                &&& c.0 + c.1 <= r.base + r.size
                &&& next_base is Some ==> c.0 + c.1 <= next_base.unwrap()
            }
        }),
{
    let prev_end = prev_base + prev_size;
    if prev_end > usize::MAX || prev_end >= r.base + r.size {
    } else if next_base is Some && next_base.unwrap() <= r.base {
    } else {
        let x: usize = if prev_end > r.base { prev_end as usize } else { r.base };
        lemma_align_up(x, align);
        let fb0 = align_up_spec(x, align);
        if fb0 == 0 {
            assert(align % align == 0) by {
                vstd::arithmetic::div_mod::lemma_mod_self_0(align as int);
            }
        }
    }
}

/// Every candidate of the scan of a region lies in a gap between allocated blocks.
proof fn lemma_scan_sound(r: Region, blocks: Seq<HeapBlock>, idx: nat, prev: HeapBlock, align: usize)
    requires
        align > 0,
        r.base + r.size + align <= usize::MAX + 1,
        blocks_sorted(blocks),
        blocks_valid(blocks),
        blocks_disjoint(blocks),
        idx <= blocks.len(),
        (idx == 0 && prev.base + prev.size == 0) || (idx > 0 && prev == blocks[idx - 1]),
    ensures
        ({
            let scan = scan_region(r, blocks, idx, prev, align);
            &&& forall|k: int| 0 <= k < scan.0.len() ==> gap_in(#[trigger] scan.0[k], r, blocks, align)
            &&& scan.1 <= blocks.len()
            &&& (scan.1 == 0 && scan.2.base + scan.2.size == 0) || (scan.1 > 0 && scan.2 == blocks[scan.1 - 1])
        }),
    decreases blocks.len() - idx,
{
    let prev_end = prev.base + prev.size;
    if !(prev_end <= usize::MAX && prev_end < r.base + r.size) {
    } else {
        let next_base = if idx < blocks.len() { Some(blocks[idx as int].base) } else { None };
        let c = find_free_space_spec(r, prev.base, prev.size, next_base, align);
        lemma_free_space_sound(r, prev.base, prev.size, next_base, align);
        assert(gap_in(c, r, blocks, align)) by {
            if c.1 > 0 {
                assert forall|i: int| 0 <= i < blocks.len() implies
                    #[trigger] blocks[i].base + blocks[i].size <= c.0 || c.0 + c.1 <= blocks[i].base by {
                    if i < idx {
                        if i < idx - 1 {
                            assert(blocks[i].base + blocks[i].size <= blocks[idx - 1].base);
                        }
                    } else {
                        assert(blocks[idx as int].base <= blocks[i].base);
                    }
                }
            }
        }
        if idx < blocks.len() && !(r.base + r.size <= usize::MAX && blocks[idx as int].base >= r.base + r.size) {
            lemma_scan_sound(r, blocks, idx + 1, blocks[idx as int], align);
            let rest = scan_region(r, blocks, idx + 1, blocks[idx as int], align);
            assert forall|k: int| 0 <= k < (seq![c] + rest.0).len() implies gap_in(#[trigger] (seq![c] + rest.0)[k], r, blocks, align) by {
                if k > 0 {
                    assert((seq![c] + rest.0)[k] == rest.0[k - 1]);
                }
            }
        } else {
            assert forall|k: int| 0 <= k < seq![c].len() implies gap_in(#[trigger] seq![c][k], r, blocks, align) by {
                assert(seq![c][k] == c);
            }
        }
    }
}

/// Every candidate of the scan of the regions `regions[k..]` lies in a gap between allocated
/// blocks inside one of those regions.
proof fn lemma_candidates_sound(regions: Seq<Region>, k: nat, blocks: Seq<HeapBlock>, idx: nat, prev: HeapBlock, align: usize)
    requires
        align > 0,
        forall|i: int| 0 <= i < regions.len() ==> #[trigger] regions[i].base + regions[i].size + align <= usize::MAX + 1,
        blocks_sorted(blocks),
        blocks_valid(blocks),
        blocks_disjoint(blocks),
        idx <= blocks.len(),
        (idx == 0 && prev.base + prev.size == 0) || (idx > 0 && prev == blocks[idx - 1]),
    ensures
        forall|c: int| 0 <= c < candidates_from(regions, k, blocks, idx, prev, align).len() ==>
            exists|i: int| k <= i < regions.len() && gap_in(#[trigger] candidates_from(regions, k, blocks, idx, prev, align)[c], regions[i], blocks, align),
    decreases regions.len() - k,
{
    if k < regions.len() {
        let scan = scan_region(regions[k as int], blocks, idx, prev, align);
        lemma_scan_sound(regions[k as int], blocks, idx, prev, align);
        lemma_candidates_sound(regions, k + 1, blocks, scan.1, scan.2, align);
        let all = candidates_from(regions, k, blocks, idx, prev, align);
        let tail = candidates_from(regions, k + 1, blocks, scan.1, scan.2, align);
        assert(all == scan.0 + tail);
        assert forall|c: int| 0 <= c < all.len() implies exists|i: int| k <= i < regions.len() && gap_in(#[trigger] all[c], regions[i], blocks, align) by {
            if c < scan.0.len() {
                assert(all[c] == scan.0[c]);
                assert(gap_in(all[c], regions[k as int], blocks, align));
            } else {
                assert(all[c] == tail[c - scan.0.len()]);
                let i = choose|i: int| k + 1 <= i < regions.len() && gap_in(#[trigger] tail[c - scan.0.len()], regions[i], blocks, align);
                assert(gap_in(all[c], regions[i], blocks, align));
            }
        }
    }
}

/// The base that `pick` chooses is that of a candidate at least `size` bytes long, or the best
/// one given to it.
proof fn lemma_pick_is_candidate(cands: Seq<(usize, usize)>, size: usize, expected: usize, best: (usize, usize, usize))
    requires
        pick(cands, size, expected, best) is Some,
    ensures
        (best.1 >= size && pick(cands, size, expected, best).unwrap() == best.0)
            || exists|i: int| 0 <= i < cands.len() && #[trigger] cands[i].0 == pick(cands, size, expected, best).unwrap() && cands[i].1 >= size,
    decreases cands.len(),
{
    if cands.len() > 0 {
        let (fb, fs) = cands[0];
        let rest = cands.subrange(1, cands.len() as int);
        let r = pick(cands, size, expected, best).unwrap();
        if fs >= size && fs == size {
            assert(cands[0].0 == r);
        } else {
            let next_best = if fs >= size && fit_score_spec(size, fs, expected) <= best.2 {
                (fb, fs, fit_score_spec(size, fs, expected))
            } else {
                best
            };
            assert(pick(cands, size, expected, best) == pick(rest, size, expected, next_best));
            lemma_pick_is_candidate(rest, size, expected, next_best);
            if next_best.1 >= size && r == next_best.0 {
                if next_best != best {
                    assert(cands[0].0 == r);
                }
            } else {
                let i = choose|i: int| 0 <= i < rest.len() && #[trigger] rest[i].0 == r && rest[i].1 >= size;
                assert(cands[i + 1] == rest[i]);
            }
        }
    }
}

/// The free block that `find_best_base` chooses lies inside a present region of the map, is
/// aligned to `align`, avoids address 0 and overlaps no allocated block; so the allocation there
/// succeeds and the blocks stay disjoint.
pub proof fn lemma_best_base_sound(regions: Seq<Region>, max_address: usize, blocks: Seq<HeapBlock>, size: usize, align: usize, expected: usize)
    requires
        regions_wf(regions, max_address),
        blocks_sorted(blocks),
        blocks_valid(blocks),
        blocks_disjoint(blocks),
        size > 0,
        align > 0,
        max_address + align <= usize::MAX + 1,
        best_base_spec(regions, blocks, size, align, expected) is Some,
    ensures
        ({
            let b = best_base_spec(regions, blocks, size, align, expected).unwrap();
            &&& b % align == 0
            &&& b > 0
            &&& b + size <= usize::MAX
            &&& exists|k: int| 0 <= k < regions.len() && #[trigger] regions[k].present && regions[k].base <= b
                && b + size <= regions[k].base + regions[k].size
            &&& forall|i: int| 0 <= i < blocks.len() ==>
                #[trigger] blocks[i].base + blocks[i].size <= b || b + size <= blocks[i].base
            &&& allocate_spec(blocks, b, size) is Some
            &&& blocks_disjoint(allocate_spec(blocks, b, size).unwrap())
        }),
{
    let p = present_spec(regions);
    let cands = candidates(regions, blocks, align);
    let b = best_base_spec(regions, blocks, size, align, expected).unwrap();
    lemma_present_in(regions);
    assert forall|i: int| 0 <= i < p.len() implies #[trigger] p[i].base + p[i].size + align <= usize::MAX + 1 by {
        assert(is_present_region(regions, p[i]));
        let j = choose|j: int| 0 <= j < regions.len() && #[trigger] regions[j] == p[i] && p[i].present;
        assert(regions[j].size > 0);
    }
    lemma_candidates_sound(p, 0, blocks, 0, HeapBlock { base: 0, size: 0 }, align);
    lemma_pick_is_candidate(cands, size, expected, (0, 0, usize::MAX));
    let ci = choose|i: int| 0 <= i < cands.len() && #[trigger] cands[i].0 == b && cands[i].1 >= size;
    let c = cands[ci];
    let ri = choose|i: int| 0 <= i < p.len() && gap_in(cands[ci], p[i], blocks, align);
    assert(is_present_region(regions, p[ri]));
    let rk = choose|j: int| 0 <= j < regions.len() && #[trigger] regions[j] == p[ri] && p[ri].present;
    assert(regions[rk].size > 0);
    assert(gap_in(c, regions[rk], blocks, align));
    assert forall|i: int| 0 <= i < blocks.len() implies
        #[trigger] blocks[i].base + blocks[i].size <= b || b + size <= blocks[i].base by {
        assert(blocks[i].base + blocks[i].size <= c.0 || c.0 + c.1 <= blocks[i].base);
    }
    let j = first_at_or_after(blocks, b, 0);
    lemma_first_at_or_after(blocks, b, 0);
    if j < blocks.len() {
        assert(blocks[j as int].base + blocks[j as int].size <= b || b + size <= blocks[j as int].base);
        assert(blocks[j as int].size > 0);
    }
    let b1 = blocks.insert(j as int, HeapBlock { base: b, size });
    assert forall|x: int, y: int| 0 <= x < y < b1.len() implies #[trigger] b1[x].base + b1[x].size <= #[trigger] b1[y].base by {
        if y < j {
            assert(blocks[x].base + blocks[x].size <= blocks[y].base);
        } else if y == j {
            assert(blocks[x].base < b);
            assert(blocks[x].size > 0);
            assert(blocks[x].base + blocks[x].size <= b || b + size <= blocks[x].base);
        } else if x < j {
            assert(blocks[x].base + blocks[x].size <= blocks[y - 1].base);
        } else if x == j {
            assert(blocks[j as int].base <= blocks[y - 1].base);
        } else {
            assert(blocks[x - 1].base + blocks[x - 1].size <= blocks[y - 1].base);
        }
    }
}

/// Whether `r` is a present region of `s`.
pub open spec fn is_present_region(s: Seq<Region>, r: Region) -> bool {
    exists|i: int| 0 <= i < s.len() && #[trigger] s[i] == r && r.present
}

/// The present regions of a map are among its regions.
proof fn lemma_present_in(s: Seq<Region>)
    ensures
        forall|k: int| 0 <= k < present_spec(s).len() ==> is_present_region(s, #[trigger] present_spec(s)[k]),
    decreases s.len(),
{
    if s.len() > 0 {
        lemma_present_in(s.drop_last());
        let p = present_spec(s);
        let q = present_spec(s.drop_last());
        assert forall|k: int| 0 <= k < p.len() implies is_present_region(s, #[trigger] p[k]) by {
            if k < q.len() {
                assert(p[k] == q[k]);
                assert(is_present_region(s.drop_last(), q[k]));
                let i = choose|i: int| 0 <= i < s.drop_last().len() && #[trigger] s.drop_last()[i] == q[k] && q[k].present;
                assert(s[i] == s.drop_last()[i]);
            } else {
                assert(p[k] == s.last());
                assert(s[s.len() - 1] == s.last());
            }
        }
    }
}

// An address aligned to `align` at or above `x` is at or above `x` aligned up.
proof fn lemma_align_up_below(x: usize, align: usize, a: usize)
    requires
        align > 0,
        x + align - 1 <= usize::MAX,
        x <= a,
        a % align == 0,
    ensures
        align_up_spec(x, align) <= a,
{
    lemma_align_up(x, align);
    let au = align_up_spec(x, align);
    if au > a {
        vstd::arithmetic::div_mod::lemma_fundamental_div_mod(au as int, align as int);
        vstd::arithmetic::div_mod::lemma_fundamental_div_mod(a as int, align as int);
        let q1 = au as int / align as int;
        let q2 = a as int / align as int;
        assert(au == align * q1);
        assert(a == align * q2);
        assert(false) by (nonlinear_arith)
            requires
                au == align * q1,
                a == align * q2,
                a < au,
                au <= a + align - 1,
                align > 0,
        {
            assert(q1 > q2);
            assert(align * q1 >= align * (q2 + 1));
        }
    }
}

// The free block found between a block that ends at or before `a` and a next block (if any) that
// starts at or after `a + size`, in a region that holds `[a, a + size)`, has at least `size` bytes.
proof fn lemma_free_space_covers(
    r: Region,
    prev_base: usize,
    prev_size: usize,
    next_base: Option<usize>,
    align: usize,
    a: usize,
    size: usize,
)
    requires
        align > 0,
        r.base + r.size + align <= usize::MAX + 1,
        prev_base + prev_size <= a,
        a % align == 0,
        a > 0,
        r.base <= a,
        a + size <= r.base + r.size,
        size > 0,
        next_base matches Some(nb) ==> nb >= a + size,
    ensures
        find_free_space_spec(r, prev_base, prev_size, next_base, align).1 >= size,
{
    let prev_end = prev_base + prev_size;
    let x: usize = if prev_end > r.base { prev_end as usize } else { r.base };
    lemma_align_up(x, align);
    lemma_align_up_below(x, align, a);
    let fb0 = align_up_spec(x, align);
    if fb0 == 0 {
        assert(a >= align) by {
            if a < align {
                vstd::arithmetic::div_mod::lemma_small_mod(a as nat, align as nat);
            }
        }
    }
}

// The scan of a region that holds a free aligned `[a, a + size)`, started with the blocks before
// `idx` all starting below `a + size` and the previous block ending at or before `a`, yields a
// candidate of at least `size` bytes.
proof fn lemma_scan_finds(r: Region, blocks: Seq<HeapBlock>, idx: nat, prev: HeapBlock, align: usize, a: usize, size: usize)
    requires
        align > 0,
        r.base + r.size + align <= usize::MAX + 1,
        blocks_sorted(blocks),
        blocks_valid(blocks),
        blocks_disjoint(blocks),
        idx <= blocks.len(),
        prev.base + prev.size <= a,
        forall|j: int| 0 <= j < idx ==> #[trigger] blocks[j].base < a + size,
        a % align == 0,
        a > 0,
        r.base <= a,
        a + size <= r.base + r.size,
        size > 0,
        forall|i: int| 0 <= i < blocks.len() ==>
            #[trigger] blocks[i].base + blocks[i].size <= a || a + size <= blocks[i].base,
    ensures
        exists|k: int| 0 <= k < scan_region(r, blocks, idx, prev, align).0.len()
            && (#[trigger] scan_region(r, blocks, idx, prev, align).0[k]).1 >= size,
    decreases blocks.len() - idx,
{
    let scan = scan_region(r, blocks, idx, prev, align);
    if idx < blocks.len() {
        let nb = blocks[idx as int].base;
        let c = find_free_space_spec(r, prev.base, prev.size, Some(nb), align);
        if nb >= a + size {
            lemma_free_space_covers(r, prev.base, prev.size, Some(nb), align, a, size);
            assert(scan.0[0] == c);
        } else {
            assert(blocks[idx as int].base + blocks[idx as int].size <= a);
            lemma_scan_finds(r, blocks, idx + 1, blocks[idx as int], align, a, size);
            let rest = scan_region(r, blocks, idx + 1, blocks[idx as int], align);
            let k = choose|k: int| 0 <= k < rest.0.len() && (#[trigger] rest.0[k]).1 >= size;
            assert(scan.0 == seq![c] + rest.0);
            assert(scan.0[k + 1] == rest.0[k]);
        }
    } else {
        lemma_free_space_covers(r, prev.base, prev.size, None, align, a, size);
        assert(scan.0[0] == find_free_space_spec(r, prev.base, prev.size, None, align));
    }
}

// The scan of a region only moves past blocks that start below the region's end.
proof fn lemma_scan_consumes(r: Region, blocks: Seq<HeapBlock>, idx: nat, prev: HeapBlock, align: usize, bound: int)
    requires
        idx <= blocks.len(),
        forall|j: int| 0 <= j < idx ==> #[trigger] blocks[j].base < bound,
        r.base + r.size <= usize::MAX,
        r.base + r.size <= bound,
    ensures
        idx <= scan_region(r, blocks, idx, prev, align).1 <= blocks.len(),
        forall|j: int| 0 <= j < scan_region(r, blocks, idx, prev, align).1 ==> #[trigger] blocks[j].base < bound,
    decreases blocks.len() - idx,
{
    let prev_end = prev.base + prev.size;
    if prev_end <= usize::MAX && prev_end < r.base + r.size && idx < blocks.len()
        && blocks[idx as int].base < r.base + r.size {
        lemma_scan_consumes(r, blocks, idx + 1, blocks[idx as int], align, bound);
    }
}

// The scan of the regions `regions[k..]`, sorted by base, finds a candidate of at least `size`
// bytes when region `m` holds a free aligned `[a, a + size)` and the scan so far has not moved past
// it.
proof fn lemma_candidates_find(
    regions: Seq<Region>,
    k: nat,
    blocks: Seq<HeapBlock>,
    idx: nat,
    prev: HeapBlock,
    align: usize,
    m: int,
    a: usize,
    size: usize,
)
    requires
        align > 0,
        k <= m < regions.len(),
        forall|i: int| 0 <= i < regions.len() ==> #[trigger] regions[i].base + regions[i].size + align <= usize::MAX + 1,
        forall|i: int, j: int| 0 <= i < j < regions.len() ==> #[trigger] regions[i].base <= #[trigger] regions[j].base,
        blocks_sorted(blocks),
        blocks_valid(blocks),
        blocks_disjoint(blocks),
        idx <= blocks.len(),
        (idx == 0 && prev.base + prev.size == 0) || (idx > 0 && prev == blocks[idx - 1]),
        forall|j: int| 0 <= j < idx ==> #[trigger] blocks[j].base < a + size,
        a % align == 0,
        a > 0,
        regions[m].base <= a,
        a + size <= regions[m].base + regions[m].size,
        size > 0,
        forall|i: int| 0 <= i < blocks.len() ==>
            #[trigger] blocks[i].base + blocks[i].size <= a || a + size <= blocks[i].base,
    ensures
        exists|c: int| 0 <= c < candidates_from(regions, k, blocks, idx, prev, align).len()
            && (#[trigger] candidates_from(regions, k, blocks, idx, prev, align)[c]).1 >= size,
    decreases regions.len() - k,
{
    let rk = regions[k as int];
    let scan = scan_region(rk, blocks, idx, prev, align);
    let all = candidates_from(regions, k, blocks, idx, prev, align);
    let tail = candidates_from(regions, k + 1, blocks, scan.1, scan.2, align);
    assert(all == scan.0 + tail);
    if idx > 0 {
        assert(blocks[idx - 1].base < a + size);
    }
    if k < m {
        assert(rk.base <= regions[m].base);
    }
    if a + size <= rk.base + rk.size {
        // This region holds the free space too, so its scan finds it.
        lemma_scan_finds(rk, blocks, idx, prev, align, a, size);
        let c = choose|c: int| 0 <= c < scan.0.len() && (#[trigger] scan.0[c]).1 >= size;
        assert(all[c] == scan.0[c]);
    } else {
        // This region ends inside the free space, so its scan stops before the free space ends.
        assert(k != m);
        lemma_scan_consumes(rk, blocks, idx, prev, align, a + size);
        lemma_scan_sound(rk, blocks, idx, prev, align);
        if scan.1 > 0 {
            assert(blocks[scan.1 - 1].base < a + size);
        }
        lemma_candidates_find(regions, k + 1, blocks, scan.1, scan.2, align, m, a, size);
        let c = choose|c: int| 0 <= c < tail.len() && (#[trigger] tail[c]).1 >= size;
        assert(all[scan.0.len() + c] == tail[c]);
    }
}

// The present regions of a map sorted by base are sorted by base.
proof fn lemma_present_sorted(s: Seq<Region>)
    requires
        forall|i: int, j: int| 0 <= i < j < s.len() ==> #[trigger] s[i].base <= #[trigger] s[j].base,
    ensures
        forall|i: int, j: int| 0 <= i < j < present_spec(s).len() ==>
            #[trigger] present_spec(s)[i].base <= #[trigger] present_spec(s)[j].base,
    decreases s.len(),
{
    if s.len() > 0 {
        let d = s.drop_last();
        lemma_present_sorted(d);
        lemma_present_in(d);
        let p = present_spec(s);
        let q = present_spec(d);
        assert forall|i: int, j: int| 0 <= i < j < p.len() implies #[trigger] p[i].base <= #[trigger] p[j].base by {
            if j < q.len() {
                assert(p[i] == q[i] && p[j] == q[j]);
            } else {
                assert(p[j] == s.last());
                assert(p[i] == q[i]);
                assert(is_present_region(d, q[i]));
                let x = choose|x: int| 0 <= x < d.len() && #[trigger] d[x] == q[i] && q[i].present;
                assert(s[x] == d[x]);
                assert(s[x].base <= s[s.len() - 1].base);
            }
        }
    }
}

/// When a present region of the map has room for `size` bytes at an address `a` other than 0
/// that is aligned to `align` and that no allocated block overlaps, the search for the best base
/// finds one.
pub proof fn lemma_enough_free_space_is_found(
    regions: Seq<Region>,
    max_address: usize,
    blocks: Seq<HeapBlock>,
    size: usize,
    align: usize,
    expected: usize,
    m: int,
    a: usize,
)
    requires
        regions_wf(regions, max_address),
        blocks_sorted(blocks),
        blocks_valid(blocks),
        blocks_disjoint(blocks),
        size > 0,
        align > 0,
        max_address + align <= usize::MAX + 1,
        0 <= m < regions.len(),
        regions[m].present,
        a % align == 0,
        a > 0,
        regions[m].base <= a,
        a + size <= regions[m].base + regions[m].size,
        forall|i: int| 0 <= i < blocks.len() ==>
            #[trigger] blocks[i].base + blocks[i].size <= a || a + size <= blocks[i].base,
    ensures
        best_base_spec(regions, blocks, size, align, expected) is Some,
{
    let p = present_spec(regions);
    lemma_present_in(regions);
    lemma_present_sorted(regions);
    lemma_present_holds(regions, m);
    let pm = choose|pm: int| 0 <= pm < p.len() && #[trigger] p[pm] == regions[m];
    assert forall|i: int| 0 <= i < p.len() implies #[trigger] p[i].base + p[i].size + align <= usize::MAX + 1 by {
        assert(is_present_region(regions, p[i]));
        let j = choose|j: int| 0 <= j < regions.len() && #[trigger] regions[j] == p[i] && p[i].present;
        assert(regions[j].size > 0);
    }
    lemma_candidates_find(p, 0, blocks, 0, HeapBlock { base: 0, size: 0 }, align, pm, a, size);
    lemma_pick_finds(candidates(regions, blocks, align), size, expected, (0, 0, usize::MAX));
}

// Every present region of a map is among its present regions.
proof fn lemma_present_holds(s: Seq<Region>, m: int)
    requires
        0 <= m < s.len(),
        s[m].present,
    ensures
        exists|pm: int| 0 <= pm < present_spec(s).len() && #[trigger] present_spec(s)[pm] == s[m],
    decreases s.len(),
{
    let d = s.drop_last();
    let p = present_spec(s);
    if m == s.len() - 1 {
        assert(p[p.len() - 1] == s.last());
    } else {
        lemma_present_holds(d, m);
        let q = present_spec(d);
        let pm = choose|pm: int| 0 <= pm < q.len() && #[trigger] q[pm] == d[m];
        if s.last().present {
            assert(p[pm] == q[pm]);
        }
        assert(p[pm] == s[m]);
    }
}

} // verus!
