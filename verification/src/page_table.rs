//! Level-3 translation tables: the tables whose entries describe single pages. A table of this
//! kind covers one naturally aligned span of virtual memory (2 MiB, 32 MiB or 512 MiB, depending
//! on the translation granule), and its entries are read and written here as plain values; the
//! caller keeps the table where the MMU can see it and invalidates the TLB entries it is told to.

use vstd::prelude::*;
use crate::paging::{
    entry_from_address, entry_from_address_spec, has_flags, leaf_location_in_swapfile, leaf_page_status,
    leaf_page_status_spec, PageStatus, PagingConfig, PAGE_IN_EXE_FILE, PAGE_IN_SWAPFILE, PAGE_LEVEL_3,
    PAGE_ONE, PAGE_SWAPFILE_LOCATION, UNMAPPED,
};

verus! {

/// A translation granule: the size of the smallest page.
#[derive(Debug, Clone, Copy, PartialEq, Eq, Structural)]
pub enum Granule {
    /// 4-kiB pages.
    K4,
    /// 16-kiB pages.
    K16,
    /// 64-kiB pages.
    K64,
}

/// The number of bytes in a page of the granule.
pub open spec fn granule_bytes(g: Granule) -> nat {
    match g {
        Granule::K4 => 0x1000,
        Granule::K16 => 0x4000,
        Granule::K64 => 0x1_0000,
    }
}

/// The number of entries in a level-3 table of the granule.
pub open spec fn leaf_entries(g: Granule) -> nat {
    match g {
        Granule::K4 => 512,
        Granule::K16 => 2048,
        Granule::K64 => 8192,
    }
}

/// The number of bytes of virtual memory that a level-3 table of the granule covers.
pub open spec fn leaf_span(g: Granule) -> nat {
    match g {
        Granule::K4 => 0x20_0000,
        Granule::K16 => 0x200_0000,
        Granule::K64 => 0x2000_0000,
    }
}

/// The index, in the level-3 table that covers it, of the entry that translates `virt`.
pub open spec fn leaf_index(g: Granule, virt: int) -> int {
    (virt % (leaf_span(g) as int)) / (granule_bytes(g) as int)
}

impl Granule {
    /// Returns the granule whose pages have `page_size` bytes, if there is one.
    pub fn from_page_size(page_size: usize) -> (r: Option<Granule>)
        ensures
            r is Some <==> (page_size == 0x1000 || page_size == 0x4000 || page_size == 0x1_0000),
            r is Some ==> granule_bytes(r->Some_0) == page_size,
    {
        if page_size == 0x1000 {
            Some(Granule::K4)
        } else if page_size == 0x4000 {
            Some(Granule::K16)
        } else if page_size == 0x1_0000 {
            Some(Granule::K64)
        } else {
            None
        }
    }

    /// Returns the number of bytes in a page.
    pub fn page_size(self) -> (r: usize)
        ensures
            r == granule_bytes(self),
    {
        match self {
            Granule::K4 => 0x1000,
            Granule::K16 => 0x4000,
            Granule::K64 => 0x1_0000,
        }
    }

    /// Returns the number of entries in a level-3 table.
    pub fn leaf_entries(self) -> (r: usize)
        ensures
            r == leaf_entries(self),
    {
        match self {
            Granule::K4 => 512,
            Granule::K16 => 2048,
            Granule::K64 => 8192,
        }
    }

    /// Returns the number of bytes a level-3 table covers.
    pub fn leaf_span(self) -> (r: usize)
        ensures
            r == leaf_span(self),
    {
        match self {
            Granule::K4 => 0x20_0000,
            Granule::K16 => 0x200_0000,
            Granule::K64 => 0x2000_0000,
        }
    }
}

// The span of a level-3 table is its number of entries times the page size.
pub(crate) proof fn lemma_granule_shape(g: Granule)
    ensures
        leaf_span(g) == granule_bytes(g) * leaf_entries(g),
        granule_bytes(g) > 0,
        leaf_entries(g) > 0,
{
}

// Page-aligned offsets into a table's span, in pages: a request of `size` bytes that starts
// `vmod` bytes into the span and stays inside it covers entries `vmod / page` to
// `vmod / page + size / page`, and page `k` of the request starts `k * page` bytes after its base.
proof fn lemma_pages_in_span(vmod: int, size: int, page: int, entries: int)
    requires
        page > 0,
        entries > 0,
        vmod >= 0,
        size >= 0,
        vmod % page == 0,
        size % page == 0,
        vmod + size <= page * entries,
    ensures
        vmod / page + size / page <= entries,
        (size / page) * page == size,
{
    vstd::arithmetic::div_mod::lemma_fundamental_div_mod(vmod, page);
    vstd::arithmetic::div_mod::lemma_fundamental_div_mod(size, page);
    let a = vmod / page;
    let b = size / page;
    assert(vmod == page * a);
    assert(size == page * b);
    assert(b * page == size) by (nonlinear_arith) requires size == page * b;
    assert(a + b <= entries) by (nonlinear_arith)
        requires vmod == page * a, size == page * b, vmod + size <= page * entries, page > 0;
}

// A virtual address aligned on a page keeps that alignment within its table's span.
proof fn lemma_aligned_in_span(g: Granule, virt: int)
    requires
        virt >= 0,
        virt % (granule_bytes(g) as int) == 0,
    ensures
        (virt % (leaf_span(g) as int)) % (granule_bytes(g) as int) == 0,
        0 <= virt % (leaf_span(g) as int) < leaf_span(g),
{
    lemma_granule_shape(g);
    vstd::arithmetic::div_mod::lemma_mod_mod(virt, granule_bytes(g) as int, leaf_entries(g) as int);
}

/// The flags of the entries that a mapping with `page_flags` writes: a page that the MMU uses gets
/// the flag that level 3 requires.
pub open spec fn leaf_flags(page_flags: u64) -> u64 {
    if has_flags(page_flags, PAGE_ONE) { page_flags | PAGE_LEVEL_3 } else { page_flags }
}

/// The entry that maps page `k` of a request whose physical memory starts at `phys_base`.
pub open spec fn new_leaf_entry(g: Granule, page_flags: u64, phys_base: usize, k: nat) -> u64 {
    leaf_flags(page_flags) | entry_from_address_spec((phys_base + k * granule_bytes(g)) as u64)
}

/// `e` with the `n` entries from index `i0` on set to `v`.
pub open spec fn set_range(e: Seq<u64>, i0: int, n: int, v: u64) -> Seq<u64> {
    Seq::new(e.len(), |i: int| if i0 <= i < i0 + n { v } else { e[i] })
}

/// The virtual addresses, in order, of those of the `n` pages from `virt_base` (whose entries start
/// at index `i0` of `e`) that are mapped for the MMU: their TLB entries are invalidated when they are
/// unmapped.
pub open spec fn mapped_pages(e: Seq<u64>, i0: int, virt_base: usize, n: nat, page: nat) -> Seq<usize>
    decreases n,
{
    if n == 0 {
        Seq::empty()
    } else {
        let prev = mapped_pages(e, i0, virt_base, (n - 1) as nat, page);
        if has_flags(e[i0 + n - 1], PAGE_ONE) {
            prev.push((virt_base + (n - 1) * page) as usize)
        } else {
            prev
        }
    }
}

/// The entries, the addresses to invalidate in the TLB, and the result, of mapping pages `k` to
/// `n - 1` of a request, from entries `e` and invalidations `tlb`. Each page's entry must hold
/// `expected` to be mapped. When one does not, the pages mapped so far are unmapped again (their
/// entries set to `expected`), and the mapping fails, suggesting the virtual address after the
/// page as the next one to try (`None` if it is out of range), unless the entry already holds
/// what would have been written, in which case the mapping goes on with the next page.
pub open spec fn map_from(
    e: Seq<u64>,
    tlb: Seq<usize>,
    k: nat,
    g: Granule,
    phys_base: usize,
    virt_base: usize,
    n: nat,
    page_flags: u64,
    expected: u64,
    max_virt_bits: u8,
) -> (Seq<u64>, Seq<usize>, Result<(), Option<usize>>)
    decreases n - k,
{
    if k >= n {
        (e, tlb, Ok(()))
    } else {
        let i0 = leaf_index(g, virt_base as int);
        let ix = i0 + k;
        let ne = new_leaf_entry(g, page_flags, phys_base, k);
        if e[ix] == expected {
            map_from(e.update(ix, ne), tlb, k + 1, g, phys_base, virt_base, n, page_flags, expected, max_virt_bits)
        } else {
            let e2 = set_range(e, i0, k as int, expected);
            let tlb2 = tlb + mapped_pages(e, i0, virt_base, k, granule_bytes(g));
            if e[ix] != ne {
                let next = virt_base + k * granule_bytes(g) + granule_bytes(g);
                (e2, tlb2, Err(if next < (1usize << max_virt_bits) { Some(next as usize) } else { None }))
            } else {
                map_from(e2, tlb2, k + 1, g, phys_base, virt_base, n, page_flags, expected, max_virt_bits)
            }
        }
    }
}

/// A level-3 translation table.
#[derive(Debug)]
pub struct LeafPageTable {
    granule: Granule,
    entries: Vec<u64>,
}

impl LeafPageTable {
    /// The table's granule.
    pub closed spec fn granule_spec(&self) -> Granule {
        self.granule
    }

    /// The table's entries.
    pub closed spec fn entries_spec(&self) -> Seq<u64> {
        self.entries@
    }

    /// Whether the table has the number of entries its granule gives it.
    pub open spec fn wf(&self) -> bool {
        self.entries_spec().len() == leaf_entries(self.granule_spec())
    }

    /// Makes a table for the granule in which nothing is mapped.
    pub fn new(granule: Granule) -> (r: LeafPageTable)
        ensures
            r.wf(),
            r.granule_spec() == granule,
            r.entries_spec() == Seq::new(leaf_entries(granule), |i: int| UNMAPPED),
    {
        let n = granule.leaf_entries();
        let mut entries: Vec<u64> = Vec::new();
        let mut i: usize = 0;
        while i < n
            invariant
                n == leaf_entries(granule),
                i <= n,
                entries@ == Seq::new(i as nat, |k: int| UNMAPPED),
            decreases n - i,
        {
            entries.push(UNMAPPED);
            i += 1;
        }
        LeafPageTable { granule, entries }
    }

    /// Returns the table's granule.
    pub fn granule(&self) -> (r: Granule)
        ensures
            r == self.granule_spec(),
    {
        self.granule
    }

    /// Returns the entry at `index`.
    pub fn entry(&self, index: usize) -> (r: u64)
        requires
            index < self.entries_spec().len(),
        ensures
            r == self.entries_spec()[index as int],
    {
        self.entries[index]
    }

    /// Unmaps the pages in the `size` bytes from `virt_base`, whose entries are all in this table,
    /// by setting their entries to `new_entry`. The virtual address of each page that was mapped
    /// for the MMU is appended to `tlb`, for its TLB entry to be invalidated.
    pub fn unmap(&mut self, virt_base: usize, size: usize, new_entry: u64, tlb: &mut Vec<usize>)
        requires
            old(self).wf(),
            virt_base as int % (granule_bytes(old(self).granule_spec()) as int) == 0,
            size as int % (granule_bytes(old(self).granule_spec()) as int) == 0,
            virt_base + size <= usize::MAX,
            virt_base as int % (leaf_span(old(self).granule_spec()) as int) + size <= leaf_span(old(self).granule_spec()),
        ensures
            final(self).wf(),
            final(self).granule_spec() == old(self).granule_spec(),
            final(self).entries_spec() == set_range(old(self).entries_spec(),
                leaf_index(old(self).granule_spec(), virt_base as int),
                size as int / granule_bytes(old(self).granule_spec()) as int, new_entry),
            final(tlb)@ == old(tlb)@ + mapped_pages(old(self).entries_spec(),
                leaf_index(old(self).granule_spec(), virt_base as int), virt_base,
                (size as int / granule_bytes(old(self).granule_spec()) as int) as nat,
                granule_bytes(old(self).granule_spec())),
    {
        let g = self.granule;
        let page = g.page_size();
        let span = g.leaf_span();
        let n = size / page;
        let i0 = (virt_base % span) / page;
        proof {
            lemma_granule_shape(g);
            lemma_aligned_in_span(g, virt_base as int);
            lemma_pages_in_span((virt_base % span) as int, size as int, page as int, leaf_entries(g) as int);
        }
        let ghost e0 = self.entries@;
        let ghost tlb0 = tlb@;
        let mut k: usize = 0;
        while k < n
            invariant
                g == self.granule,
                page == granule_bytes(g),
                self.entries@.len() == leaf_entries(g),
                e0.len() == leaf_entries(g),
                i0 == leaf_index(g, virt_base as int),
                i0 + n <= leaf_entries(g),
                n == size as int / page as int,
                n * page == size,
                virt_base + size <= usize::MAX,
                k <= n,
                self.entries@ == set_range(e0, i0 as int, k as int, new_entry),
                tlb@ == tlb0 + mapped_pages(e0, i0 as int, virt_base, k as nat, page as nat),
            decreases n - k,
        {
            assert(k * page < size) by (nonlinear_arith)
                requires k < n, n * page == size, page > 0;
            let index = i0 + k;
            let entry = self.entries[index];
            assert(entry == e0[i0 + k]);
            self.entries.set(index, new_entry);
            if entry & PAGE_ONE == PAGE_ONE {
                tlb.push(virt_base + k * page);
            }
            proof {
                assert(self.entries@ =~= set_range(e0, i0 as int, (k + 1) as int, new_entry));
                assert(tlb@ =~= tlb0 + mapped_pages(e0, i0 as int, virt_base, (k + 1) as nat, page as nat));
            }
            k += 1;
        }
    }

    /// Maps the `size` bytes of physical memory at `phys_base` to the virtual addresses from
    /// `virt_base`, whose entries are all in this table, one page at a time: each page's entry
    /// becomes `page_flags` (with the level-3 flag if the page is for the MMU) and the page's address,
    /// provided it holds `expected`. If one does not, the pages mapped so far are unmapped again
    /// (their entries set back to `expected`, their addresses appended to `tlb` if they were mapped
    /// for the MMU), and the mapping fails with the virtual address after that page as the next one
    /// to try, or `None` if that is out of range; an entry that already holds what would have been
    /// written does not fail the mapping.
    pub fn map(
        &mut self,
        phys_base: usize,
        virt_base: usize,
        size: usize,
        page_flags: u64,
        expected: u64,
        config: &PagingConfig,
        tlb: &mut Vec<usize>,
    ) -> (r: Result<(), Option<usize>>)
        requires
            old(self).wf(),
            config.page_size == granule_bytes(old(self).granule_spec()),
            config.max_virt_bits < usize::BITS,
            phys_base as int % (granule_bytes(old(self).granule_spec()) as int) == 0,
            virt_base as int % (granule_bytes(old(self).granule_spec()) as int) == 0,
            size as int % (granule_bytes(old(self).granule_spec()) as int) == 0,
            phys_base + size <= usize::MAX,
            phys_base + size <= 0x10_0000_0000_0000,
            virt_base + size <= usize::MAX,
            virt_base as int % (leaf_span(old(self).granule_spec()) as int) + size <= leaf_span(old(self).granule_spec()),
        ensures
            final(self).wf(),
            final(self).granule_spec() == old(self).granule_spec(),
            (final(self).entries_spec(), final(tlb)@, r) == map_from(old(self).entries_spec(), old(tlb)@, 0,
                old(self).granule_spec(), phys_base, virt_base,
                (size as int / granule_bytes(old(self).granule_spec()) as int) as nat,
                page_flags, expected, config.max_virt_bits),
    {
        let g = self.granule;
        let page = g.page_size();
        let span = g.leaf_span();
        let n = size / page;
        let i0 = (virt_base % span) / page;
        let max_virt_bits = config.max_virt_bits;
        proof {
            lemma_granule_shape(g);
            lemma_aligned_in_span(g, virt_base as int);
            lemma_pages_in_span((virt_base % span) as int, size as int, page as int, leaf_entries(g) as int);
        }
        let flags = if page_flags & PAGE_ONE == PAGE_ONE { page_flags | PAGE_LEVEL_3 } else { page_flags };
        let ghost goal = map_from(self.entries@, tlb@, 0, g, phys_base, virt_base, n as nat, page_flags, expected,
            max_virt_bits);
        let mut k: usize = 0;
        while k < n
            invariant
                g == self.granule,
                page == granule_bytes(g),
                span == leaf_span(g),
                self.entries@.len() == leaf_entries(g),
                i0 == leaf_index(g, virt_base as int),
                i0 + n <= leaf_entries(g),
                n == size as int / page as int,
                n * page == size,
                virt_base % page == 0,
                virt_base % span + size <= span,
                phys_base + size <= usize::MAX,
                phys_base + size <= 0x10_0000_0000_0000,
                virt_base + size <= usize::MAX,
                flags == leaf_flags(page_flags),
                max_virt_bits == config.max_virt_bits,
                max_virt_bits < usize::BITS,
                k <= n,
                map_from(self.entries@, tlb@, k as nat, g, phys_base, virt_base, n as nat, page_flags, expected,
                    max_virt_bits) == goal,
                g == old(self).granule,
                goal == map_from(old(self).entries@, old(tlb)@, 0, g, phys_base, virt_base, n as nat, page_flags,
                    expected, max_virt_bits),
            decreases n - k,
        {
            assert(k * page < size) by (nonlinear_arith)
                requires k < n, n * page == size, page > 0;
            let index = i0 + k;
            let new_entry = flags | entry_from_address((phys_base + k * page) as u64);
            let entry = self.entries[index];
            if entry == expected {
                self.entries.set(index, new_entry);
            } else {
                // This page is already mapped. Unmap what this request has mapped so far.
                let ghost e = self.entries@;
                let ghost t = tlb@;
                let mapped = k * page;
                if mapped > 0 {
                    assert(mapped as int / page as int == k) by (nonlinear_arith)
                        requires mapped == k * page, page > 0;
                    self.unmap(virt_base, mapped, expected, tlb);
                } else {
                    assert(k == 0) by (nonlinear_arith) requires mapped == k * page, page > 0, mapped == 0;
                    assert(set_range(e, i0 as int, 0, expected) =~= e);
                    assert(t + mapped_pages(e, i0 as int, virt_base, 0, page as nat) =~= t);
                }
                assert(self.entries@ == set_range(e, i0 as int, k as int, expected));
                assert(tlb@ == t + mapped_pages(e, i0 as int, virt_base, k as nat, page as nat));
                assert(new_entry == new_leaf_entry(g, page_flags, phys_base, k as nat));
                if entry != new_entry {
                    let next_addr = virt_base + k * page + page;
                    if next_addr < (1usize << max_virt_bits) {
                        return Err(Some(next_addr));
                    } else {
                        return Err(None);
                    }
                }
            }
            k += 1;
        }
        Ok(())
    }

    /// Returns the status of the page that contains `virt_addr`, whose entry is in this table. An
    /// entry for the MMU must carry the level-3 flag unless the page is in the executable file.
    pub fn page_status(&self, virt_addr: usize) -> (r: PageStatus)
        requires
            self.wf(),
            ({
                let e = self.entries_spec()[leaf_index(self.granule_spec(), virt_addr as int)];
                !(has_flags(e, PAGE_ONE) && !has_flags(e, PAGE_LEVEL_3) && !has_flags(e, PAGE_IN_EXE_FILE))
            }),
        ensures
            r == leaf_page_status_spec(self.entries_spec()[leaf_index(self.granule_spec(), virt_addr as int)]),
    {
        let index = self.index_of(virt_addr);
        leaf_page_status(self.entries[index])
    }

    /// Returns where in the swapfile the page that contains `virt_addr` is, or `None` if it is not
    /// in the swapfile.
    pub fn location_in_swapfile(&self, virt_addr: usize) -> (r: Option<u64>)
        requires
            self.wf(),
        ensures
            ({
                let e = self.entries_spec()[leaf_index(self.granule_spec(), virt_addr as int)];
                &&& has_flags(e, PAGE_ONE | PAGE_LEVEL_3) ==> r is None
                &&& !has_flags(e, PAGE_ONE | PAGE_LEVEL_3) && has_flags(e, PAGE_IN_SWAPFILE)
                    ==> r == Some(e & PAGE_SWAPFILE_LOCATION)
                &&& !has_flags(e, PAGE_ONE | PAGE_LEVEL_3) && !has_flags(e, PAGE_IN_SWAPFILE) ==> r is None
            }),
    {
        let index = self.index_of(virt_addr);
        leaf_location_in_swapfile(self.entries[index])
    }

    // The index of the entry that translates `virt_addr`.
    fn index_of(&self, virt_addr: usize) -> (r: usize)
        requires
            self.wf(),
        ensures
            r == leaf_index(self.granule_spec(), virt_addr as int),
            r < self.entries_spec().len(),
    {
        let g = self.granule;
        let page = g.page_size();
        let span = g.leaf_span();
        proof {
            lemma_granule_shape(g);
            let m = virt_addr as int % span as int;
            assert(m / (page as int) < leaf_entries(g)) by (nonlinear_arith)
                requires 0 <= m < span, span == page * leaf_entries(g), page > 0;
        }
        (virt_addr % span) / page
    }
}

/// `e` with the entries of the first `k` pages of a request from index `i0` on set to the
/// entries that map them.
pub open spec fn with_pages_mapped(e: Seq<u64>, g: Granule, i0: int, k: int, page_flags: u64, phys_base: usize)
    -> Seq<u64> {
    Seq::new(e.len(), |i: int| if i0 <= i < i0 + k {
        new_leaf_entry(g, page_flags, phys_base, (i - i0) as nat)
    } else {
        e[i]
    })
}

// Mapping the rest of a request whose entries all hold `expected` maps every page.
proof fn lemma_map_from_expected(
    e0: Seq<u64>,
    tlb: Seq<usize>,
    k: nat,
    g: Granule,
    phys_base: usize,
    virt_base: usize,
    n: nat,
    page_flags: u64,
    expected: u64,
    max_virt_bits: u8,
)
    requires
        k <= n,
        leaf_index(g, virt_base as int) >= 0,
        leaf_index(g, virt_base as int) + n <= e0.len(),
        forall|j: int| 0 <= j < n ==> #[trigger] e0[leaf_index(g, virt_base as int) + j] == expected,
    ensures
        map_from(with_pages_mapped(e0, g, leaf_index(g, virt_base as int), k as int, page_flags, phys_base), tlb, k, g,
            phys_base, virt_base, n, page_flags, expected, max_virt_bits)
            == (with_pages_mapped(e0, g, leaf_index(g, virt_base as int), n as int, page_flags, phys_base), tlb,
                Ok::<(), Option<usize>>(())),
    decreases n - k,
{
    let i0 = leaf_index(g, virt_base as int);
    let ek = with_pages_mapped(e0, g, i0, k as int, page_flags, phys_base);
    if k < n {
        assert(ek[i0 + k] == e0[i0 + k]);
        let ne = new_leaf_entry(g, page_flags, phys_base, k);
        assert(ek.update(i0 + k, ne) =~= with_pages_mapped(e0, g, i0, (k + 1) as int, page_flags, phys_base));
        lemma_map_from_expected(e0, tlb, k + 1, g, phys_base, virt_base, n, page_flags, expected, max_virt_bits);
    }
}

/// Mapping pages whose entries all hold `expected` succeeds, maps every page of the request and
/// nothing else, and invalidates nothing in the TLB; pages mapped for the MMU are then reported as
/// mapped.
pub proof fn lemma_map_over_expected_maps_every_page(
    e0: Seq<u64>,
    tlb: Seq<usize>,
    g: Granule,
    phys_base: usize,
    virt_base: usize,
    n: nat,
    page_flags: u64,
    expected: u64,
    max_virt_bits: u8,
)
    requires
        leaf_index(g, virt_base as int) + n <= e0.len(),
        forall|j: int| 0 <= j < n ==> #[trigger] e0[leaf_index(g, virt_base as int) + j] == expected,
    ensures
        ({
            let (e1, tlb1, r) = map_from(e0, tlb, 0, g, phys_base, virt_base, n, page_flags, expected, max_virt_bits);
            let i0 = leaf_index(g, virt_base as int);
            &&& r is Ok
            &&& tlb1 == tlb
            &&& e1.len() == e0.len()
            &&& forall|j: int| 0 <= j < n ==> #[trigger] e1[i0 + j] == new_leaf_entry(g, page_flags, phys_base, j as nat)
            &&& forall|i: int| 0 <= i < e0.len() && !(i0 <= i < i0 + n) ==> #[trigger] e1[i] == e0[i]
            &&& has_flags(page_flags, PAGE_ONE) ==> forall|j: int| 0 <= j < n
                ==> leaf_page_status_spec(#[trigger] e1[i0 + j]) == PageStatus::Mapped
        }),
{
    let i0 = leaf_index(g, virt_base as int);
    lemma_granule_shape(g);
    assert(i0 >= 0) by (nonlinear_arith)
        requires i0 == (virt_base as int % (leaf_span(g) as int)) / (granule_bytes(g) as int), granule_bytes(g) > 0,
            leaf_span(g) > 0;
    assert(with_pages_mapped(e0, g, i0, 0, page_flags, phys_base) =~= e0);
    lemma_map_from_expected(e0, tlb, 0, g, phys_base, virt_base, n, page_flags, expected, max_virt_bits);
    let e1 = with_pages_mapped(e0, g, i0, n as int, page_flags, phys_base);
    if has_flags(page_flags, PAGE_ONE) {
        assert forall|j: int| 0 <= j < n implies leaf_page_status_spec(#[trigger] e1[i0 + j]) == PageStatus::Mapped by {
            let a = entry_from_address_spec((phys_base + (j as nat) * granule_bytes(g)) as u64);
            let x = e1[i0 + j];
            assert(x == (page_flags | PAGE_LEVEL_3) | a);
            assert(x & 3 == 3) by (bit_vector)
                requires x == (page_flags | 2) | a, page_flags & 1 == 1;
            assert(PAGE_ONE | PAGE_LEVEL_3 == 3) by (bit_vector);
            assert(has_flags(x, PAGE_ONE | PAGE_LEVEL_3));
        }
    }
}

// Mapping the rest of a request fails only by putting back the table it started from, when no
// entry already held what the request would write there.
proof fn lemma_map_from_fresh(
    e0: Seq<u64>,
    tlb: Seq<usize>,
    k: nat,
    g: Granule,
    phys_base: usize,
    virt_base: usize,
    n: nat,
    page_flags: u64,
    expected: u64,
    max_virt_bits: u8,
)
    requires
        k <= n,
        leaf_index(g, virt_base as int) >= 0,
        leaf_index(g, virt_base as int) + n <= e0.len(),
        forall|j: int| 0 <= j < k ==> #[trigger] e0[leaf_index(g, virt_base as int) + j] == expected,
        forall|j: int| 0 <= j < n ==> #[trigger] e0[leaf_index(g, virt_base as int) + j]
            != new_leaf_entry(g, page_flags, phys_base, j as nat),
    ensures
        map_from(with_pages_mapped(e0, g, leaf_index(g, virt_base as int), k as int, page_flags, phys_base), tlb, k, g,
            phys_base, virt_base, n, page_flags, expected, max_virt_bits).2 is Err
        ==> map_from(with_pages_mapped(e0, g, leaf_index(g, virt_base as int), k as int, page_flags, phys_base), tlb,
            k, g, phys_base, virt_base, n, page_flags, expected, max_virt_bits).0 == e0,
    decreases n - k,
{
    let i0 = leaf_index(g, virt_base as int);
    let ek = with_pages_mapped(e0, g, i0, k as int, page_flags, phys_base);
    if k < n {
        assert(ek[i0 + k] == e0[i0 + k]);
        let ne = new_leaf_entry(g, page_flags, phys_base, k);
        if ek[i0 + k] == expected {
            assert(ek.update(i0 + k, ne) =~= with_pages_mapped(e0, g, i0, (k + 1) as int, page_flags, phys_base));
            lemma_map_from_fresh(e0, tlb, k + 1, g, phys_base, virt_base, n, page_flags, expected, max_virt_bits);
        } else {
            assert(e0[i0 + k] != ne);
            assert(set_range(ek, i0, k as int, expected) =~= e0) by {
                assert forall|i: int| 0 <= i < e0.len() implies #[trigger] set_range(ek, i0, k as int, expected)[i] == e0[i] by {
                    if i0 <= i < i0 + k {
                        assert(e0[i0 + (i - i0)] == expected);
                    }
                }
            }
        }
    }
}

/// A mapping that fails leaves the table as it was, provided no entry of the request already held
/// the entry the request would have written there.
pub proof fn lemma_failed_map_leaves_table_unchanged(
    e0: Seq<u64>,
    tlb: Seq<usize>,
    g: Granule,
    phys_base: usize,
    virt_base: usize,
    n: nat,
    page_flags: u64,
    expected: u64,
    max_virt_bits: u8,
)
    requires
        leaf_index(g, virt_base as int) + n <= e0.len(),
        forall|j: int| 0 <= j < n ==> #[trigger] e0[leaf_index(g, virt_base as int) + j]
            != new_leaf_entry(g, page_flags, phys_base, j as nat),
    ensures
        ({
            let (e1, tlb1, r) = map_from(e0, tlb, 0, g, phys_base, virt_base, n, page_flags, expected, max_virt_bits);
            r is Err ==> e1 == e0
        }),
{
    let i0 = leaf_index(g, virt_base as int);
    lemma_granule_shape(g);
    assert(i0 >= 0) by (nonlinear_arith)
        requires i0 == (virt_base as int % (leaf_span(g) as int)) / (granule_bytes(g) as int), granule_bytes(g) > 0,
            leaf_span(g) > 0;
    assert(with_pages_mapped(e0, g, i0, 0, page_flags, phys_base) =~= e0);
    lemma_map_from_fresh(e0, tlb, 0, g, phys_base, virt_base, n, page_flags, expected, max_virt_bits);
}

/// Unmapping pages that were mapped over entries holding `expected`, with `expected` as the new
/// entry, gives back the table as it was before the mapping.
pub proof fn lemma_unmap_undoes_map(
    e0: Seq<u64>,
    g: Granule,
    i0: int,
    n: int,
    page_flags: u64,
    phys_base: usize,
    expected: u64,
)
    requires
        0 <= i0,
        0 <= n,
        i0 + n <= e0.len(),
        forall|j: int| 0 <= j < n ==> #[trigger] e0[i0 + j] == expected,
    ensures
        set_range(with_pages_mapped(e0, g, i0, n, page_flags, phys_base), i0, n, expected) == e0,
{
    assert(set_range(with_pages_mapped(e0, g, i0, n, page_flags, phys_base), i0, n, expected) =~= e0) by {
        assert forall|i: int| 0 <= i < e0.len() implies
            #[trigger] set_range(with_pages_mapped(e0, g, i0, n, page_flags, phys_base), i0, n, expected)[i] == e0[i] by {
            if i0 <= i < i0 + n {
                assert(e0[i0 + (i - i0)] == expected);
            }
        }
    }
}

} // verus!
