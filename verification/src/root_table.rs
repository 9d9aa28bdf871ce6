//! A translation-table tree of two levels: a level-2 table whose entries each cover the span of one
//! level-3 table, and either map nothing, map the whole span as one block, or point to a level-3
//! table. With the 64-kiB granule and 42-bit virtual addresses this is the whole tree. The tables
//! are held as plain values; the caller copies them where the MMU can see them.

use vstd::prelude::*;
use crate::identity_map::{IdentityRegion, ShareabilityDomain};
use crate::memory_map::RegionType;
use crate::page_table::{
    granule_bytes, leaf_entries, leaf_index, leaf_span, lemma_granule_shape, lemma_map_over_expected_maps_every_page,
    new_leaf_entry, leaf_flags, Granule, LeafPageTable,
};
use crate::paging::{
    entry_address, lemma_descriptor_bits, lemma_single_flags, entry_address_spec, entry_from_address, entry_from_address_spec, has_flags, mapping_flags,
    mapping_flags_spec, ExceptionLevel, PagingConfig, ATTR_DEVICE_MEMORY, ATTR_NORMAL_MEMORY, PAGE_ACCESSED,
    PAGE_ATTR_INDEX, PAGE_DBM, PAGE_EL0, PAGE_INNER, PAGE_IN_EXE_FILE, PAGE_IN_SWAPFILE, PAGE_LEVEL_3, PAGE_NOT_DIRTY,
    PAGE_ONE, PAGE_PXN, PAGE_SHAREABLE, PAGE_UXN, UNMAPPED, leaf_page_status_spec, PageStatus,
};

verus! {

/// An entry of the level-2 table.
#[derive(Debug)]
pub enum BranchEntry {
    /// Nothing is mapped in the entry's span.
    Empty,
    /// The whole span is mapped by this block descriptor.
    Block(u64),
    /// The span is translated by this level-3 table.
    Table(LeafPageTable),
}

/// The size of a granule's pages in kiB, as descriptors are read with it.
pub open spec fn granule_kib(g: Granule) -> u8 {
    match g {
        Granule::K4 => 4,
        Granule::K16 => 16,
        Granule::K64 => 64,
    }
}

/// One more than the largest physical address that a descriptor of the granule can hold.
pub open spec fn address_limit(g: Granule) -> int {
    if g == Granule::K64 { 0x10_0000_0000_0000 } else { 0x1_0000_0000_0000 }
}

/// What the level-2 table does for the next part of a mapping, at physical address `addr_phys` and
/// virtual address `addr_virt`, with the mapping's physical memory ending at `end_phys`.
#[derive(Debug, Clone, Copy, PartialEq, Eq, Structural)]
pub enum BranchStep {
    /// Map the whole block that starts here with one block descriptor.
    Block,
    /// Map this many bytes in the level-3 table of the block.
    Subtable(usize),
}

/// The step: a block where blocks are allowed, the entry has no table yet, both addresses start a
/// block and the whole block is to be mapped; otherwise the bytes up to the end of the mapping or
/// of the block, whichever comes first, in the block's level-3 table.
pub open spec fn branch_step_spec(
    has_table: bool,
    addr_phys: usize,
    addr_virt: usize,
    end_phys: usize,
    block_size: usize,
    blocks_allowed: bool,
) -> BranchStep {
    if blocks_allowed && !has_table && addr_phys % block_size == 0 && addr_virt % block_size == 0
        && end_phys - addr_phys >= block_size {
        BranchStep::Block
    } else {
        let left = end_phys - addr_phys;
        let in_block = block_size - addr_virt % block_size;
        BranchStep::Subtable((if left < in_block { left } else { in_block }) as usize)
    }
}

/// Decides how the level-2 table maps the next part of a mapping.
pub fn branch_step(
    has_table: bool,
    addr_phys: usize,
    addr_virt: usize,
    end_phys: usize,
    block_size: usize,
    blocks_allowed: bool,
) -> (r: BranchStep)
    requires
        block_size > 0,
        addr_phys < end_phys,
    ensures
        r == branch_step_spec(has_table, addr_phys, addr_virt, end_phys, block_size, blocks_allowed),
{
    if blocks_allowed && !has_table && addr_phys % block_size == 0 && addr_virt % block_size == 0
        && end_phys - addr_phys >= block_size {
        BranchStep::Block
    } else {
        let left = end_phys - addr_phys;
        let in_block = block_size - addr_virt % block_size;
        BranchStep::Subtable(if left < in_block { left } else { in_block })
    }
}

// The address in a descriptor has at most 52 bits.
proof fn lemma_entry_address_bound(e: u64, kib: u8)
    ensures
        entry_address_spec(e, kib) < 0x10_0000_0000_0000,
{
    assert((e & 0x0000_ffff_ffff_f000) < 0x10_0000_0000_0000) by (bit_vector);
    assert((((e & 0x0000_ffff_ffff_f000) & !0x0000_0000_0000_f000u64) | ((e & 0x0000_0000_0000_f000u64) << 36u64))
        < 0x10_0000_0000_0000) by (bit_vector);
}

// A descriptor made of flags without address bits and the address bits of a page-aligned address
// that the granule's descriptors can hold gives that address back.
proof fn lemma_descriptor_address(f: u64, p: u64, g: Granule)
    requires
        f & 0x0000_ffff_ffff_f000 == 0,
        p as int % (granule_bytes(g) as int) == 0,
        p < address_limit(g),
    ensures
        entry_address_spec(f | entry_from_address_spec(p), granule_kib(g)) == p,
{
    if g == Granule::K64 {
        assert(p % 0x1_0000 == 0 ==> p & 0xffff == 0) by (bit_vector);
        assert((f & 0x0000_ffff_ffff_f000 == 0 && p < 0x10_0000_0000_0000 && p & 0xffff == 0) ==>
            (((f | ((p & 0x0000_ffff_ffff_ffff) | ((p & !0x0000_ffff_ffff_ffffu64) >> 36u64))) & 0x0000_ffff_ffff_f000)
                & !0x0000_0000_0000_f000u64)
            | (((f | ((p & 0x0000_ffff_ffff_ffff) | ((p & !0x0000_ffff_ffff_ffffu64) >> 36u64))) & 0x0000_0000_0000_f000u64)
                << 36u64) == p) by (bit_vector);
    } else {
        assert((p % 0x1000 == 0 || p % 0x4000 == 0) ==> p & 0xfff == 0) by (bit_vector);
        assert((f & 0x0000_ffff_ffff_f000 == 0 && p < 0x1_0000_0000_0000 && p & 0xfff == 0) ==>
            ((f | ((p & 0x0000_ffff_ffff_ffff) | ((p & !0x0000_ffff_ffff_ffffu64) >> 36u64))) & 0x0000_ffff_ffff_f000)
            == p) by (bit_vector);
    }
}

// Flags with `PAGE_ONE` and no address bits keep both when the level-3 flag and an address are
// added.
proof fn lemma_descriptor_flags(f: u64, a: u64)
    ensures
        f & 0x0000_ffff_ffff_f000 == 0 ==> (f | PAGE_LEVEL_3) & 0x0000_ffff_ffff_f000 == 0,
        f & PAGE_ONE == PAGE_ONE ==> (f | a) & PAGE_ONE == PAGE_ONE && (f | a) != UNMAPPED,
        f & PAGE_ONE == PAGE_ONE ==> ((f | PAGE_LEVEL_3) | a) & (PAGE_ONE | PAGE_LEVEL_3) == PAGE_ONE | PAGE_LEVEL_3,
        UNMAPPED & (PAGE_ONE | PAGE_LEVEL_3) != PAGE_ONE | PAGE_LEVEL_3,
{
    assert(f & 0x0000_ffff_ffff_f000 == 0 ==> (f | 2) & 0x0000_ffff_ffff_f000 == 0) by (bit_vector);
    assert(f & 1 == 1 ==> (f | a) & 1 == 1 && (f | a) != 0 && ((f | 2) | a) & 3 == 3) by (bit_vector);
    assert(0u64 & 3 != 3) by (bit_vector);
    assert(PAGE_ONE | PAGE_LEVEL_3 == 3) by (bit_vector);
}

// Page `x`, at byte `x * page`, lies `(x % per) * page` bytes into block `x / per` of `per` pages.
proof fn lemma_page_mod(x: int, per: int, page: int)
    requires
        x >= 0,
        per > 0,
        page > 0,
    ensures
        (x * page) % (per * page) == (x % per) * page,
        (x * page) / (per * page) == x / per,
{
    vstd::arithmetic::div_mod::lemma_fundamental_div_mod(x, per);
    let q = x / per;
    let r = x % per;
    assert(x * page == q * (per * page) + r * page) by (nonlinear_arith)
        requires x == per * q + r;
    assert(0 <= r * page < per * page) by (nonlinear_arith)
        requires 0 <= r < per, page > 0;
    vstd::arithmetic::div_mod::lemma_fundamental_div_mod_converse(x * page, per * page, q, r * page);
}

// A page `j` pages after page `pn0`, within the same block of `per` pages.
proof fn lemma_page_in_block(pn0: int, j: int, per: int)
    requires
        per > 0,
        pn0 >= 0,
        j >= 0,
        pn0 % per + j < per,
    ensures
        (pn0 + j) / per == pn0 / per,
        (pn0 + j) % per == pn0 % per + j,
{
    vstd::arithmetic::div_mod::lemma_fundamental_div_mod(pn0, per);
    vstd::arithmetic::mul::lemma_mul_is_commutative(per, pn0 / per);
    vstd::arithmetic::div_mod::lemma_fundamental_div_mod_converse(pn0 + j, per, pn0 / per, pn0 % per + j);
}

// Or-ing keeps both the absence of address bits and the presence of `PAGE_ONE`.
proof fn lemma_or_flags(x: u64, y: u64)
    by (bit_vector)
    ensures
        (x & 0x0000_ffff_ffff_f000 == 0 && y & 0x0000_ffff_ffff_f000 == 0) ==> (x | y) & 0x0000_ffff_ffff_f000 == 0,
        x & 1 == 1 ==> (x | y) & 1 == 1,
{
}

// The flags of a new mapping of memory of any type have `PAGE_ONE` and no address bits.
proof fn lemma_map_flags(reg_type: RegionType, level: ExceptionLevel)
    ensures
        mapping_flags_spec(PAGE_NOT_DIRTY | PAGE_ONE, Some(reg_type), level) & 0x0000_ffff_ffff_f000 == 0,
        mapping_flags_spec(PAGE_NOT_DIRTY | PAGE_ONE, Some(reg_type), level) & PAGE_ONE == PAGE_ONE,
{
    assert((0x80u64 | 1u64) & 0x0000_ffff_ffff_f000u64 == 0 && (0x80u64 | 1u64) & 1 == 1 && (0x80u64 | 1u64) & 0x0080_0000_0000_0000 != 0x0080_0000_0000_0000
        && (0x1cu64 & (0u64 << 2u64)) & 0x0000_ffff_ffff_f000u64 == 0 && (0x1cu64 & (1u64 << 2u64)) & 0x0000_ffff_ffff_f000u64 == 0
        && 0x0040_0000_0000_0000u64 & 0x0000_ffff_ffff_f000u64 == 0 && 0x0020_0000_0000_0000u64 & 0x0000_ffff_ffff_f000u64 == 0
        && 0x0008_0000_0000_0000u64 & 0x0000_ffff_ffff_f000u64 == 0 && 0x40u64 & 0x0000_ffff_ffff_f000u64 == 0 && 0x400u64 & 0x0000_ffff_ffff_f000u64 == 0 && 0x200u64 & 0x0000_ffff_ffff_f000u64 == 0
        && 0x80u64 | 1u64 == 0x81u64 && 1u64 == 1u64) by (bit_vector);
    let pf = PAGE_NOT_DIRTY | PAGE_ONE;
    let normal = PAGE_ATTR_INDEX & ((ATTR_NORMAL_MEMORY as u64) << 2u64);
    lemma_or_flags(normal, PAGE_UXN);
    lemma_or_flags(normal | PAGE_UXN, PAGE_PXN);
    lemma_or_flags(normal | PAGE_UXN | PAGE_PXN, PAGE_DBM);
    let t = match reg_type {
        RegionType::Ram => normal | PAGE_UXN | PAGE_PXN | PAGE_DBM,
        RegionType::Rom => normal,
        RegionType::Mmio => PAGE_ATTR_INDEX & ((ATTR_DEVICE_MEMORY as u64) << 2u64),
    };
    lemma_or_flags(PAGE_PXN, PAGE_EL0);
    lemma_or_flags(PAGE_UXN, PAGE_ACCESSED);
    let l = match level {
        ExceptionLevel::El0 => PAGE_PXN | PAGE_EL0,
        ExceptionLevel::El1 => PAGE_UXN | PAGE_ACCESSED,
    };
    lemma_or_flags(pf, t);
    lemma_or_flags(pf | t, l);
    lemma_or_flags(pf | t | l, PAGE_SHAREABLE);
    assert(mapping_flags_spec(pf, Some(reg_type), level) == pf | t | l | PAGE_SHAREABLE);
}

/// The flags of the descriptors that identity-map memory of `region_type` with `shareability` for
/// the kernel: a page for the MMU, accessed, never executed from EL0, with the memory type's
/// attributes (RAM never executed, ROM read-only) and the shareability's bits.
pub open spec fn identity_flags_spec(region_type: RegionType, shareability: ShareabilityDomain) -> u64 {
    let type_flags = match region_type {
        RegionType::Ram => (PAGE_ATTR_INDEX & ((ATTR_NORMAL_MEMORY as u64) << 2u64)) | PAGE_UXN | PAGE_PXN,
        RegionType::Rom => PAGE_NOT_DIRTY | (PAGE_ATTR_INDEX & ((ATTR_NORMAL_MEMORY as u64) << 2u64)),
        RegionType::Mmio => PAGE_ATTR_INDEX & ((ATTR_DEVICE_MEMORY as u64) << 2u64),
    };
    let share_flags = match shareability {
        ShareabilityDomain::NonShareable => 0u64,
        ShareabilityDomain::Inner => PAGE_SHAREABLE | PAGE_INNER,
        ShareabilityDomain::Outer => PAGE_SHAREABLE,
    };
    PAGE_UXN | PAGE_ACCESSED | share_flags | type_flags | PAGE_ONE
}

/// Identity-mapped MMIO is device memory: its descriptors carry the device-memory attribute index,
/// and those of RAM and ROM the normal-memory one, which differs from it. Every identity-mapped
/// page is mapped for the MMU, counts as accessed, is never executed from EL0 and is never made
/// writable in place by the hardware; RAM is never executed, ROM is read-only; and the
/// shareability bits are those of the shareability domain.
pub proof fn lemma_identity_map_memory_attributes(region_type: RegionType, shareability: ShareabilityDomain)
    ensures
        region_type == RegionType::Mmio ==> identity_flags_spec(region_type, shareability) & PAGE_ATTR_INDEX
            == PAGE_ATTR_INDEX & ((ATTR_DEVICE_MEMORY as u64) << 2u64),
        region_type != RegionType::Mmio ==> identity_flags_spec(region_type, shareability) & PAGE_ATTR_INDEX
            == PAGE_ATTR_INDEX & ((ATTR_NORMAL_MEMORY as u64) << 2u64),
        PAGE_ATTR_INDEX & ((ATTR_DEVICE_MEMORY as u64) << 2u64) != PAGE_ATTR_INDEX & ((ATTR_NORMAL_MEMORY as u64) << 2u64),
        ({
            let f = identity_flags_spec(region_type, shareability);
            &&& has_flags(f, PAGE_ONE) && has_flags(f, PAGE_ACCESSED) && has_flags(f, PAGE_UXN)
            &&& !has_flags(f, PAGE_DBM)
            &&& region_type == RegionType::Ram ==> has_flags(f, PAGE_PXN)
            &&& region_type == RegionType::Rom ==> has_flags(f, PAGE_NOT_DIRTY)
            &&& shareability == ShareabilityDomain::Outer ==> has_flags(f, PAGE_SHAREABLE) && !has_flags(f, PAGE_INNER)
            &&& shareability == ShareabilityDomain::Inner ==> has_flags(f, PAGE_SHAREABLE) && has_flags(f, PAGE_INNER)
            &&& shareability == ShareabilityDomain::NonShareable ==> !has_flags(f, PAGE_SHAREABLE) && !has_flags(f, PAGE_INNER)
        }),
{
    let normal = PAGE_ATTR_INDEX & ((ATTR_NORMAL_MEMORY as u64) << 2u64);
    let device = PAGE_ATTR_INDEX & ((ATTR_DEVICE_MEMORY as u64) << 2u64);
    let t = match region_type {
        RegionType::Ram => normal | PAGE_UXN | PAGE_PXN,
        RegionType::Rom => PAGE_NOT_DIRTY | normal,
        RegionType::Mmio => device,
    };
    let sh = match shareability {
        ShareabilityDomain::NonShareable => 0u64,
        ShareabilityDomain::Inner => PAGE_SHAREABLE | PAGE_INNER,
        ShareabilityDomain::Outer => PAGE_SHAREABLE,
    };
    lemma_descriptor_bits(normal, PAGE_UXN);
    lemma_descriptor_bits(normal | PAGE_UXN, PAGE_PXN);
    lemma_descriptor_bits(PAGE_NOT_DIRTY, normal);
    lemma_descriptor_bits(PAGE_SHAREABLE, PAGE_INNER);
    lemma_descriptor_bits(PAGE_UXN, PAGE_ACCESSED);
    lemma_descriptor_bits(PAGE_UXN | PAGE_ACCESSED, sh);
    lemma_descriptor_bits(PAGE_UXN | PAGE_ACCESSED | sh, t);
    lemma_descriptor_bits(PAGE_UXN | PAGE_ACCESSED | sh | t, PAGE_ONE);
    lemma_single_flags();
    let f = PAGE_UXN | PAGE_ACCESSED | sh | t | PAGE_ONE;
    assert(identity_flags_spec(region_type, shareability) == f);
    assert(has_flags(f, PAGE_ONE) && has_flags(f, PAGE_ACCESSED) && has_flags(f, PAGE_UXN));
    assert(!has_flags(f, PAGE_DBM));
    assert(has_flags(f, PAGE_SHAREABLE) == has_flags(sh, PAGE_SHAREABLE));
    assert(has_flags(f, PAGE_INNER) == has_flags(sh, PAGE_INNER));
}

/// Returns the flags of the descriptors that identity-map memory of `region_type` with
/// `shareability` for the kernel.
pub fn identity_flags(region_type: RegionType, shareability: ShareabilityDomain) -> (r: u64)
    ensures
        r == identity_flags_spec(region_type, shareability),
{
    let normal = PAGE_ATTR_INDEX & ((ATTR_NORMAL_MEMORY as u64) << 2u64);
    let type_flags = match region_type {
        RegionType::Ram => normal | PAGE_UXN | PAGE_PXN,
        RegionType::Rom => PAGE_NOT_DIRTY | normal,
        RegionType::Mmio => PAGE_ATTR_INDEX & ((ATTR_DEVICE_MEMORY as u64) << 2u64),
    };
    let share_flags = match shareability {
        ShareabilityDomain::NonShareable => 0u64,
        ShareabilityDomain::Inner => PAGE_SHAREABLE | PAGE_INNER,
        ShareabilityDomain::Outer => PAGE_SHAREABLE,
    };
    PAGE_UXN | PAGE_ACCESSED | share_flags | type_flags | PAGE_ONE
}

// The identity-mapping flags have `PAGE_ONE` and no address bits.
proof fn lemma_identity_flags(region_type: RegionType, shareability: ShareabilityDomain)
    ensures
        identity_flags_spec(region_type, shareability) & 0x0000_ffff_ffff_f000 == 0,
        identity_flags_spec(region_type, shareability) & PAGE_ONE == PAGE_ONE,
{
    assert(0x0040_0000_0000_0000u64 & 0x0000_ffff_ffff_f000u64 == 0 && 0x400u64 & 0x0000_ffff_ffff_f000u64 == 0
        && 0x200u64 & 0x0000_ffff_ffff_f000u64 == 0 && 0x100u64 & 0x0000_ffff_ffff_f000u64 == 0
        && 0x80u64 & 0x0000_ffff_ffff_f000u64 == 0 && 0u64 & 0x0000_ffff_ffff_f000u64 == 0
        && 0x0020_0000_0000_0000u64 & 0x0000_ffff_ffff_f000u64 == 0
        && (0x1cu64 & (0u64 << 2u64)) & 0x0000_ffff_ffff_f000u64 == 0
        && (0x1cu64 & (1u64 << 2u64)) & 0x0000_ffff_ffff_f000u64 == 0
        && 1u64 & 0x0000_ffff_ffff_f000u64 == 0 && 1u64 & 1u64 == 1u64) by (bit_vector);
    let normal = PAGE_ATTR_INDEX & ((ATTR_NORMAL_MEMORY as u64) << 2u64);
    let t = match region_type {
        RegionType::Ram => normal | PAGE_UXN | PAGE_PXN,
        RegionType::Rom => PAGE_NOT_DIRTY | normal,
        RegionType::Mmio => PAGE_ATTR_INDEX & ((ATTR_DEVICE_MEMORY as u64) << 2u64),
    };
    lemma_or_flags(normal, PAGE_UXN);
    lemma_or_flags(normal | PAGE_UXN, PAGE_PXN);
    lemma_or_flags(PAGE_NOT_DIRTY, normal);
    lemma_or_flags(PAGE_SHAREABLE, PAGE_INNER);
    let sh = match shareability {
        ShareabilityDomain::NonShareable => 0u64,
        ShareabilityDomain::Inner => PAGE_SHAREABLE | PAGE_INNER,
        ShareabilityDomain::Outer => PAGE_SHAREABLE,
    };
    lemma_or_flags(PAGE_UXN, PAGE_ACCESSED);
    lemma_or_flags(PAGE_UXN | PAGE_ACCESSED, sh);
    lemma_or_flags(PAGE_UXN | PAGE_ACCESSED | sh, t);
    lemma_or_flags(PAGE_ONE, PAGE_UXN | PAGE_ACCESSED | sh | t);
    lemma_or_flags(PAGE_UXN | PAGE_ACCESSED | sh | t, PAGE_ONE);
    assert((PAGE_UXN | PAGE_ACCESSED | sh | t) | PAGE_ONE == PAGE_ONE | (PAGE_UXN | PAGE_ACCESSED | sh | t))
        by (bit_vector);
    assert(identity_flags_spec(region_type, shareability) == PAGE_UXN | PAGE_ACCESSED | sh | t | PAGE_ONE);
}

/// Whether the address `a` lies in one of the first `i` regions of `regions`.
pub open spec fn listed(regions: Seq<IdentityRegion>, i: int, a: int) -> bool {
    exists|j: int| 0 <= j < i && #[trigger] regions[j].base <= a && a < regions[j].base + regions[j].size
}

/// The index of the first of the first `i` regions of `regions` that holds the address `a` (`i` if
/// none does).
pub open spec fn first_listing(regions: Seq<IdentityRegion>, i: int, a: int) -> int
    decreases i,
{
    if i <= 0 {
        0
    } else if listed(regions, i - 1, a) {
        first_listing(regions, i - 1, a)
    } else {
        i - 1
    }
}

/// The flags that identity-mapping `r` gives its pages.
pub open spec fn region_flags(r: IdentityRegion) -> u64 {
    identity_flags_spec(r.region_type, r.shareability)
}

// The first region that holds an address does hold it.
proof fn lemma_first_listing(regions: Seq<IdentityRegion>, i: int, a: int)
    requires
        0 <= i <= regions.len(),
        listed(regions, i, a),
    ensures
        0 <= first_listing(regions, i, a) < i,
        regions[first_listing(regions, i, a)].base <= a < regions[first_listing(regions, i, a)].base
            + regions[first_listing(regions, i, a)].size,
    decreases i,
{
    if listed(regions, i - 1, a) {
        lemma_first_listing(regions, i - 1, a);
    } else {
        let w = choose|w: int| 0 <= w < i && #[trigger] regions[w].base <= a && a < regions[w].base + regions[w].size;
        if w < i - 1 {
            assert(listed(regions, i - 1, a));
        }
    }
}

// For a region that starts and ends on page boundaries, page `pn` starts in the region exactly
// when it is one of the region's pages.
proof fn lemma_page_in_region(base: int, size: int, page: int, pn: int)
    requires
        page > 0,
        base >= 0,
        size >= 0,
        base % page == 0,
        size % page == 0,
    ensures
        (base <= pn * page < base + size) <==> (base / page <= pn < base / page + size / page),
{
    vstd::arithmetic::div_mod::lemma_fundamental_div_mod(base, page);
    vstd::arithmetic::div_mod::lemma_fundamental_div_mod(size, page);
    let b = base / page;
    let n = size / page;
    assert((b * page <= pn * page < b * page + n * page) <==> (b <= pn < b + n)) by (nonlinear_arith)
        requires page > 0;
    assert(base == b * page && size == n * page) by (nonlinear_arith)
        requires base == page * b, size == page * n;
}

/// The bits of a descriptor other than its address and the mark of a level-3 entry: what the
/// descriptor says of the memory it maps.
pub open spec fn descriptor_flags(d: u64) -> u64 {
    d & !0x0000_ffff_ffff_f002u64
}

// A descriptor made of flags without address bits and the address bits of a page-aligned address
// has the flags' bits, with or without the level-3 mark.
proof fn lemma_descriptor_flag_bits(f: u64, p: u64, g: Granule)
    requires
        f & 0x0000_ffff_ffff_f000 == 0,
        p as int % (granule_bytes(g) as int) == 0,
        p < address_limit(g),
    ensures
        descriptor_flags(f | entry_from_address_spec(p)) == descriptor_flags(f),
        descriptor_flags((f | PAGE_LEVEL_3) | entry_from_address_spec(p)) == descriptor_flags(f),
{
    assert((p % 0x1000 == 0 || p % 0x4000 == 0 || p % 0x1_0000 == 0) ==> p & 0xfff == 0) by (bit_vector);
    assert((p & 0xfff == 0 && p < 0x10_0000_0000_0000) ==> {
        let x = (p & 0x0000_ffff_ffff_ffff) | ((p & !0x0000_ffff_ffff_ffffu64) >> 36u64);
        &&& (f | x) & !0x0000_ffff_ffff_f002u64 == f & !0x0000_ffff_ffff_f002u64
        &&& ((f | 2u64) | x) & !0x0000_ffff_ffff_f002u64 == f & !0x0000_ffff_ffff_f002u64
    }) by (bit_vector);
}

/// A two-level translation-table tree.
#[derive(Debug)]
pub struct RootPageTable {
    granule: Granule,
    exception_level: ExceptionLevel,
    branches: Vec<BranchEntry>,
}

impl RootPageTable {
    /// The tree's granule.
    pub closed spec fn granule_spec(&self) -> Granule {
        self.granule
    }

    /// The exception level whose address space the tree describes.
    pub closed spec fn exception_level_spec(&self) -> ExceptionLevel {
        self.exception_level
    }

    /// The entries of the level-2 table.
    pub closed spec fn branches_spec(&self) -> Seq<BranchEntry> {
        self.branches@
    }

    /// The number of pages of virtual memory the tree covers, from address 0.
    pub open spec fn page_count(&self) -> int {
        (self.branches_spec().len() * leaf_entries(self.granule_spec())) as int
    }

    /// Whether every level-3 table has the tree's granule and its number of entries, no block
    /// descriptor is empty, and the covered addresses fit in a `usize`.
    pub open spec fn wf(&self) -> bool {
        &&& self.page_count() * granule_bytes(self.granule_spec()) <= usize::MAX
        &&& forall|i: int| 0 <= i < self.branches_spec().len() ==> match #[trigger] self.branches_spec()[i] {
            BranchEntry::Empty => true,
            BranchEntry::Block(d) => d != UNMAPPED,
            BranchEntry::Table(t) => t.wf() && t.granule_spec() == self.granule_spec(),
        }
    }

    /// The descriptor that translates page `pn` (the page at address `pn` times the page size): the
    /// block descriptor of its span, its entry in the span's level-3 table, or `UNMAPPED`.
    pub open spec fn page_descriptor(&self, pn: int) -> u64 {
        let per = leaf_entries(self.granule_spec()) as int;
        match self.branches_spec()[pn / per] {
            BranchEntry::Empty => UNMAPPED,
            BranchEntry::Block(d) => d,
            BranchEntry::Table(t) => t.entries_spec()[pn % per],
        }
    }

    /// Whether nothing is mapped at page `pn`.
    pub open spec fn page_free(&self, pn: int) -> bool {
        self.page_descriptor(pn) == UNMAPPED
    }

    /// The physical address that page `pn` is mapped to for the MMU, if it is.
    pub open spec fn page_target(&self, pn: int) -> Option<int> {
        let g = self.granule_spec();
        let per = leaf_entries(g) as int;
        match self.branches_spec()[pn / per] {
            BranchEntry::Empty => None,
            BranchEntry::Block(d) => if has_flags(d, PAGE_ONE) {
                Some(entry_address_spec(d, granule_kib(g)) + (pn % per) * granule_bytes(g))
            } else {
                None
            },
            BranchEntry::Table(t) => {
                let e = t.entries_spec()[pn % per];
                if has_flags(e, PAGE_ONE | PAGE_LEVEL_3) {
                    Some(entry_address_spec(e, granule_kib(g)) as int)
                } else {
                    None
                }
            },
        }
    }

    /// Whether the `n` pages from page `pn0` are all in the tree and free.
    pub open spec fn pages_fit(&self, pn0: int, n: int) -> bool {
        &&& 0 <= pn0
        &&& pn0 + n <= self.page_count()
        &&& forall|k: int| 0 <= k < n ==> #[trigger] self.page_free(pn0 + k)
    }

    /// Returns the tree's granule.
    pub fn granule(&self) -> (r: Granule)
        ensures
            r == self.granule_spec(),
    {
        self.granule
    }

    /// Returns the number of pages the tree covers.
    pub fn pages(&self) -> (r: usize)
        requires
            self.wf(),
        ensures
            r == self.page_count(),
    {
        proof {
            lemma_granule_shape(self.granule);
            assert(self.page_count() <= self.page_count() * granule_bytes(self.granule)) by (nonlinear_arith)
                requires self.page_count() >= 0, granule_bytes(self.granule) > 0;
        }
        self.branches.len() * self.granule.leaf_entries()
    }

    // The descriptor that translates page `pn`.
    fn descriptor_at(&self, pn: usize) -> (r: u64)
        requires
            self.wf(),
            pn < self.page_count(),
        ensures
            r == self.page_descriptor(pn as int),
    {
        let per = self.granule.leaf_entries();
        proof {
            lemma_granule_shape(self.granule);
            assert(pn / per < self.branches@.len()) by (nonlinear_arith)
                requires pn < self.branches@.len() * per, per > 0;
        }
        let bi = pn / per;
        match &self.branches[bi] {
            BranchEntry::Empty => UNMAPPED,
            BranchEntry::Block(d) => *d,
            BranchEntry::Table(t) => t.entry(pn % per),
        }
    }

    // The index of the first of the `n` pages from page `pn0` that is not free, if there is one.
    fn first_taken(&self, pn0: usize, n: usize) -> (r: Option<usize>)
        requires
            self.wf(),
            pn0 + n <= self.page_count(),
        ensures
            r is None ==> forall|k: int| 0 <= k < n ==> #[trigger] self.page_free(pn0 + k),
            r matches Some(k) ==> k < n && !self.page_free(pn0 + k)
                && forall|j: int| 0 <= j < k ==> #[trigger] self.page_free(pn0 + j),
    {
        let mut k: usize = 0;
        while k < n
            invariant
                self.wf(),
                pn0 + n <= self.page_count(),
                k <= n,
                forall|j: int| 0 <= j < k ==> #[trigger] self.page_free(pn0 + j),
            decreases n - k,
        {
            if self.descriptor_at(pn0 + k) != UNMAPPED {
                return Some(k);
            }
            k += 1;
        }
        None
    }

    /// Returns the physical address that the page holding `virt` is mapped to for the MMU, or
    /// `None` if it is not mapped for the MMU.
    pub fn translate(&self, virt: usize) -> (r: Option<u64>)
        requires
            self.wf(),
            (virt as int) / (granule_bytes(self.granule_spec()) as int) < self.page_count(),
        ensures
            r matches Some(p) ==> self.page_target((virt as int) / (granule_bytes(self.granule_spec()) as int))
                == Some(p as int),
            r is None ==> self.page_target((virt as int) / (granule_bytes(self.granule_spec()) as int)) is None,
    {
        let g = self.granule;
        let page = g.page_size();
        let per = g.leaf_entries();
        let kib: u8 = match g {
            Granule::K4 => 4,
            Granule::K16 => 16,
            Granule::K64 => 64,
        };
        let pn = virt / page;
        proof {
            lemma_granule_shape(g);
            assert(pn / per < self.branches@.len()) by (nonlinear_arith)
                requires pn < self.branches@.len() * per, per > 0;
            assert((pn % per) * page < 0x2000_0000) by (nonlinear_arith)
                requires pn % per < per, per * page == leaf_span(g), leaf_span(g) <= 0x2000_0000, page > 0;
        }
        let bi = pn / per;
        match &self.branches[bi] {
            BranchEntry::Empty => None,
            BranchEntry::Block(d) => {
                if *d & PAGE_ONE == PAGE_ONE {
                    let base = entry_address(*d, kib);
                    proof {
                        lemma_entry_address_bound(*d, kib);
                    }
                    Some(base + ((pn % per) * page) as u64)
                } else {
                    None
                }
            },
            BranchEntry::Table(t) => {
                let e = t.entry(pn % per);
                if e & (PAGE_ONE | PAGE_LEVEL_3) == PAGE_ONE | PAGE_LEVEL_3 {
                    Some(entry_address(e, kib))
                } else {
                    None
                }
            },
        }
    }

    // How far mapping the `n` pages from page `vp` to the physical pages from page `pp` has got,
    // from the tree `orig`: the first `k` pages are mapped, the others still free, and no page
    // outside the request has changed.
    spec fn map_progress(&self, orig: RootPageTable, pp: usize, vp: usize, n: usize, k: usize, flags: u64) -> bool {
        let g = self.granule_spec();
        let page = granule_bytes(g) as int;
        let per = leaf_entries(g) as int;
        &&& self.wf()
        &&& g == orig.granule_spec()
        &&& self.exception_level_spec() == orig.exception_level_spec()
        &&& self.branches_spec().len() == orig.branches_spec().len()
        &&& k <= n
        &&& vp + n <= self.page_count()
        &&& (pp + n) * page <= address_limit(g)
        &&& (pp + n) * page <= usize::MAX
        &&& flags & 0x0000_ffff_ffff_f000 == 0
        &&& flags & PAGE_ONE == PAGE_ONE
        &&& (0 < k < n ==> (vp + k) % per == 0)
        &&& forall|j: int| 0 <= j < k ==> #[trigger] self.page_target(vp + j) == Some((pp + j) * page)
        &&& forall|j: int| k <= j < n ==> #[trigger] self.page_free(vp + j)
        &&& forall|q: int| 0 <= q < orig.page_count() && !(vp <= q < vp + n) ==>
            #[trigger] self.page_descriptor(q) == orig.page_descriptor(q) && self.page_target(q) == orig.page_target(q)
        &&& self.new_blocks_inside(orig, vp as int, n as int)
        &&& self.flags_of_pages(vp as int, k as int, flags)
    }

    /// Whether the descriptors of the `k` pages from page `vp` all have the bits of `flags`.
    pub open spec fn flags_of_pages(&self, vp: int, k: int, flags: u64) -> bool {
        forall|j: int| 0 <= j < k ==> #[trigger] descriptor_flags(self.page_descriptor(vp + j)) == descriptor_flags(flags)
    }

    /// Whether every span of this tree that is mapped as one block, and was not in `before`, lies
    /// wholly within the `n` pages from page `vp`.
    pub open spec fn new_blocks_inside(&self, before: RootPageTable, vp: int, n: int) -> bool {
        let per = leaf_entries(self.granule_spec()) as int;
        forall|b: int| 0 <= b < self.branches_spec().len() && #[trigger] self.branches_spec()[b] is Block
            && !(before.branches_spec()[b] is Block) ==> vp <= b * per && b * per + per <= vp + n
    }

    // Maps the block of pages from page `vp + k` with one block descriptor.
    #[verifier::rlimit(50)]
    #[verifier::spinoff_prover]
    fn map_block_step(&mut self, pp: usize, vp: usize, n: usize, k: usize, flags: u64, Ghost(orig): Ghost<RootPageTable>)
        -> (next: usize)
        requires
            old(self).map_progress(orig, pp, vp, n, k, flags),
            k < n,
            (vp + k) % (leaf_entries(old(self).granule_spec()) as int) == 0,
            (pp + k) % (leaf_entries(old(self).granule_spec()) as int) == 0,
            k + leaf_entries(old(self).granule_spec()) <= n,
        ensures
            final(self).map_progress(orig, pp, vp, n, next, flags),
            next == k + leaf_entries(old(self).granule_spec()),
    {
        let g = self.granule;
        let page = g.page_size();
        let per = g.leaf_entries();
        proof {
            lemma_granule_shape(g);
            assert(self.page_count() <= self.page_count() * page) by (nonlinear_arith)
                requires self.page_count() >= 0, page > 0;
        }
        let pn = vp + k;
        let bi = pn / per;
        proof {
            assert(bi < self.branches@.len()) by (nonlinear_arith)
                requires pn < self.branches@.len() * per, per > 0, bi == pn / per;
            assert((pp + k) * page <= (pp + n) * page) by (nonlinear_arith) requires k <= n, page > 0;
            assert((pp + k) * page < (pp + n) * page) by (nonlinear_arith) requires k < n, page > 0;
            assert(pp + n <= (pp + n) * page) by (nonlinear_arith) requires page > 0;
        }
        let addr_phys = (pp + k) * page;
        let desc = flags | entry_from_address(addr_phys as u64);
        let ghost s0 = *self;
        proof {
            vstd::arithmetic::div_mod::lemma_mod_multiples_basic((pp + k) as int, page as int);
            lemma_descriptor_flags(flags, entry_from_address_spec(addr_phys as u64));
            lemma_descriptor_address(flags, addr_phys as u64, g);
        }
        self.branches.set(bi, BranchEntry::Block(desc));
        proof {
            assert forall|j: int| 0 <= j < k + per implies #[trigger] self.page_target(vp + j)
                == Some((pp + j) * page) by {
                if j < k {
                    assert((vp + j) / (per as int) < bi) by (nonlinear_arith)
                        requires vp + j < pn, pn % per == 0, per > 0, bi == pn / per, vp + j >= 0;
                    assert(s0.page_target(vp + j) == Some((pp + j) * page));
                } else {
                    lemma_page_in_block(pn as int, j - k, per as int);
                    assert(self.page_target(vp + j) == Some(addr_phys + (j - k) * page));
                    assert(addr_phys + (j - k) * page == (pp + j) * page) by (nonlinear_arith)
                        requires addr_phys == (pp + k) * page;
                }
            }
            assert forall|j: int| k + per <= j < n implies #[trigger] self.page_free(vp + j) by {
                assert((vp + j) / (per as int) > bi) by (nonlinear_arith)
                    requires vp + j >= pn + per, pn % per == 0, per > 0, bi == pn / per;
                assert((vp + j) / (per as int) < s0.branches@.len()) by (nonlinear_arith)
                    requires vp + j < s0.branches@.len() * per, per > 0, vp + j >= 0;
                assert(self.branches@[(vp + j) / (per as int)] == s0.branches@[(vp + j) / (per as int)]);
                assert(s0.page_free(vp + j));
            }
            assert forall|q: int| 0 <= q < orig.page_count() && !(vp <= q < vp + n) implies
                #[trigger] self.page_descriptor(q) == orig.page_descriptor(q)
                && self.page_target(q) == orig.page_target(q) by {
                if q / (per as int) == bi {
                    assert(pn <= q < pn + per) by (nonlinear_arith)
                        requires q / (per as int) == bi, pn % per == 0, bi == pn / per, per > 0, q >= 0;
                }
                assert(q / (per as int) < s0.branches@.len()) by (nonlinear_arith)
                    requires q < s0.branches@.len() * per, per > 0, q >= 0;
                assert(self.branches@[q / (per as int)] == s0.branches@[q / (per as int)]);
                assert(s0.page_descriptor(q) == orig.page_descriptor(q));
            }
            if k + per < n {
                assert((vp + k + per) % (per as int) == 0) by (nonlinear_arith)
                    requires pn % per == 0, per > 0, pn == vp + k;
            }
            assert(self.wf()) by {
                assert forall|i: int| 0 <= i < self.branches_spec().len() implies match #[trigger] self.branches_spec()[i] {
                    BranchEntry::Empty => true,
                    BranchEntry::Block(d) => d != UNMAPPED,
                    BranchEntry::Table(t) => t.wf() && t.granule_spec() == self.granule_spec(),
                } by {
                    if i != bi {
                        assert(self.branches_spec()[i] == s0.branches_spec()[i]);
                    }
                }
            }
            assert(self.new_blocks_inside(orig, vp as int, n as int)) by {
                assert forall|b: int| 0 <= b < self.branches_spec().len() && #[trigger] self.branches_spec()[b] is Block
                    && !(orig.branches_spec()[b] is Block) implies vp <= b * per && b * per + per <= vp + n by {
                    if b == bi {
                        assert(bi * per == pn) by (nonlinear_arith)
                            requires bi == pn / per, pn % per == 0, per > 0;
                    } else {
                        assert(self.branches_spec()[b] == s0.branches_spec()[b]);
                    }
                }
            }
            assert(self.flags_of_pages(vp as int, (k + per) as int, flags)) by {
                lemma_descriptor_flag_bits(flags, addr_phys as u64, g);
                assert forall|j: int| 0 <= j < k + per implies #[trigger] descriptor_flags(self.page_descriptor(vp + j))
                    == descriptor_flags(flags) by {
                    if j < k {
                        assert((vp + j) / (per as int) < bi) by (nonlinear_arith)
                            requires vp + j < pn, pn % per == 0, per > 0, bi == pn / per, vp + j >= 0;
                        assert(self.branches_spec()[(vp + j) / (per as int)] == s0.branches_spec()[(vp + j) / (per as int)]);
                        assert(descriptor_flags(s0.page_descriptor(vp + j)) == descriptor_flags(flags));
                    } else {
                        lemma_page_in_block(pn as int, j - k, per as int);
                    }
                }
            }
            Self::lemma_progress_intro(*self, orig, pp, vp, n, (k + per) as usize, flags);
        }
        k + per
    }

    /// Whether this tree is `before` with the `n` pages from virtual address `v` mapped to the
    /// physical pages from `phys_base`, and every other page as it was.
    pub open spec fn maps_range(&self, before: RootPageTable, phys_base: int, v: int, n: int) -> bool {
        let page = granule_bytes(before.granule_spec()) as int;
        &&& forall|k: int| 0 <= k < n ==> #[trigger] self.page_target(v / page + k) == Some(phys_base + k * page)
        &&& forall|q: int| 0 <= q < before.page_count() && !(v / page <= q < v / page + n) ==>
            #[trigger] self.page_descriptor(q) == before.page_descriptor(q) && self.page_target(q) == before.page_target(q)
    }

    // A finished mapping maps the range.
    #[verifier::spinoff_prover]
    proof fn lemma_progress_maps(s0: RootPageTable, s1: RootPageTable, pp: usize, vp: usize, n: usize, flags: u64,
        phys_base: usize)
        requires
            s1.map_progress(s0, pp, vp, n, n, flags),
            phys_base == pp * granule_bytes(s0.granule_spec()),
        ensures
            s1.maps_range(s0, phys_base as int, vp * granule_bytes(s0.granule_spec()), n as int),
            s1.new_blocks_inside(s0, vp as int, n as int),
            s1.flags_of_pages(vp as int, n as int, flags),
    {
        let page = granule_bytes(s0.granule_spec()) as int;
        lemma_granule_shape(s0.granule_spec());
        vstd::arithmetic::div_mod::lemma_div_multiples_vanish(vp as int, page);
        assert((vp * page) / page == vp) by (nonlinear_arith)
            requires (page * vp) / page == vp as int, page > 0;
        assert forall|k: int| 0 <= k < n implies #[trigger] s1.page_target((vp * page) / page + k)
            == Some(phys_base + k * page) by {
            assert((pp + k) * page == phys_base + k * page) by (nonlinear_arith)
                requires phys_base == pp * page;
        }
    }

    // The parts of `map_progress`, put together.
    proof fn lemma_progress_intro(s: RootPageTable, orig: RootPageTable, pp: usize, vp: usize, n: usize, k: usize, flags: u64)
        requires
            s.wf(),
            s.granule_spec() == orig.granule_spec(),
            s.exception_level_spec() == orig.exception_level_spec(),
            s.branches_spec().len() == orig.branches_spec().len(),
            k <= n,
            vp + n <= s.page_count(),
            (pp + n) * (granule_bytes(s.granule_spec()) as int) <= address_limit(s.granule_spec()),
            (pp + n) * (granule_bytes(s.granule_spec()) as int) <= usize::MAX,
            flags & 0x0000_ffff_ffff_f000 == 0,
            flags & PAGE_ONE == PAGE_ONE,
            0 < k < n ==> (vp + k) % (leaf_entries(s.granule_spec()) as int) == 0,
            forall|j: int| 0 <= j < k ==> #[trigger] s.page_target(vp + j)
                == Some((pp + j) * (granule_bytes(s.granule_spec()) as int)),
            forall|j: int| k <= j < n ==> #[trigger] s.page_free(vp + j),
            forall|q: int| 0 <= q < orig.page_count() && !(vp <= q < vp + n) ==>
                #[trigger] s.page_descriptor(q) == orig.page_descriptor(q) && s.page_target(q) == orig.page_target(q),
            s.new_blocks_inside(orig, vp as int, n as int),
            s.flags_of_pages(vp as int, k as int, flags),
        ensures
            s.map_progress(orig, pp, vp, n, k, flags),
    {
    }

    // After the `cnt` pages from page `vp + k` have been mapped in the level-3 table `t` of their
    // block, whose entries were `e0` before, the mapping has got `cnt` pages further.
    #[verifier::rlimit(50)]
    #[verifier::spinoff_prover]
    proof fn lemma_table_step(
        s0: RootPageTable,
        s1: RootPageTable,
        orig: RootPageTable,
        pp: usize,
        vp: usize,
        n: usize,
        k: usize,
        cnt: usize,
        flags: u64,
        t: LeafPageTable,
        e0: Seq<u64>,
        next: usize,
    )
        requires
            s0.map_progress(orig, pp, vp, n, k, flags),
            next == k + cnt,
            k < n,
            cnt > 0,
            k + cnt <= n,
            (vp + k) % (leaf_entries(s0.granule) as int) + cnt <= leaf_entries(s0.granule),
            k + cnt < n ==> (vp + k) % (leaf_entries(s0.granule) as int) + cnt == leaf_entries(s0.granule),
            s1.granule == s0.granule,
            s1.exception_level == s0.exception_level,
            s1.branches@ == s0.branches@.update((vp + k) / (leaf_entries(s0.granule) as int), BranchEntry::Table(t)),
            t.wf(),
            t.granule_spec() == s0.granule,
            e0.len() == t.entries_spec().len(),
            match s0.branches@[(vp + k) / (leaf_entries(s0.granule) as int)] {
                BranchEntry::Table(t0) => t0.entries_spec() == e0,
                _ => forall|i: int| 0 <= i < e0.len() ==> #[trigger] e0[i] == UNMAPPED,
            },
            forall|j: int| 0 <= j < cnt ==> #[trigger] t.entries_spec()[(vp + k) % (leaf_entries(s0.granule) as int) + j]
                == new_leaf_entry(s0.granule, flags, ((pp + k) * granule_bytes(s0.granule)) as usize, j as nat),
            forall|i: int| 0 <= i < e0.len() && !((vp + k) % (leaf_entries(s0.granule) as int) <= i
                < (vp + k) % (leaf_entries(s0.granule) as int) + cnt) ==> #[trigger] t.entries_spec()[i] == e0[i],
        ensures
            s1.map_progress(orig, pp, vp, n, next, flags),
    {
        let g = s0.granule;
        let page = granule_bytes(g) as int;
        let per = leaf_entries(g) as int;
        let pn = vp + k;
        let bi = pn / per;
        let li = pn % per;
        let len = s0.branches@.len();
        let addr_phys = (pp + k) * page;
        lemma_granule_shape(g);
        assert(0 <= bi < len) by (nonlinear_arith)
            requires pn < len * per, per > 0, bi == pn / per, pn >= 0;
        assert(0 <= li < per) by (nonlinear_arith) requires li == pn % per, per > 0;
        assert(s0.page_free(vp + k));
        assert(pn == vp + k);
        assert(!(s0.branches@[bi] is Block));
        assert(0 <= addr_phys <= usize::MAX) by (nonlinear_arith)
            requires addr_phys == (pp + k) * page, (pp + n) * page <= usize::MAX, k <= n, page > 0;
        assert(s1.wf()) by {
            assert forall|i: int| 0 <= i < s1.branches_spec().len() implies match #[trigger] s1.branches_spec()[i] {
                BranchEntry::Empty => true,
                BranchEntry::Block(d) => d != UNMAPPED,
                BranchEntry::Table(t) => t.wf() && t.granule_spec() == s1.granule_spec(),
            } by {
                if i != bi {
                    assert(s1.branches_spec()[i] == s0.branches_spec()[i]);
                }
            }
        }
        assert forall|j: int| 0 <= j < k + cnt implies #[trigger] s1.page_target(vp + j) == Some((pp + j) * page) by {
            if j < k {
                assert((vp + j) / per < bi) by (nonlinear_arith)
                    requires vp + j < pn, pn % per == 0, per > 0, bi == pn / per, vp + j >= 0;
                assert(0 <= (vp + j) / per) by (nonlinear_arith) requires per > 0, vp + j >= 0;
                assert(s1.branches@[(vp + j) / per] == s0.branches@[(vp + j) / per]);
                assert(s0.page_target(vp + j) == Some((pp + j) * page));
            } else {
                let i = j - k;
                lemma_page_in_block(pn as int, i, per);
                let p = (addr_phys + i * page) as u64;
                assert(addr_phys + i * page == (pp + j) * page) by (nonlinear_arith)
                    requires addr_phys == (pp + k) * page, i == j - k;
                assert(0 <= addr_phys + i * page < address_limit(g)) by (nonlinear_arith)
                    requires addr_phys + i * page == (pp + j) * page, j < n, 0 <= j,
                        (pp + n) * page <= address_limit(g), page > 0;
                assert(t.entries_spec()[li + i] == new_leaf_entry(g, flags, addr_phys as usize, i as nat));
                vstd::arithmetic::div_mod::lemma_mod_multiples_basic(pp + j, page);
                lemma_descriptor_flags(flags, entry_from_address_spec(p));
                assert(leaf_flags(flags) == flags | PAGE_LEVEL_3);
                lemma_descriptor_address(flags | PAGE_LEVEL_3, p, g);
            }
        }
        assert forall|j: int| k + cnt <= j < n implies #[trigger] s1.page_free(vp + j) by {
            assert((vp + j) / per > bi) by (nonlinear_arith)
                requires vp + j >= pn + cnt, li + cnt == per, li == pn % per, per > 0, bi == pn / per;
            assert((vp + j) / per < len) by (nonlinear_arith)
                requires vp + j < len * per, per > 0, vp + j >= 0;
            assert(s1.branches@[(vp + j) / per] == s0.branches@[(vp + j) / per]);
            assert(s0.page_free(vp + j));
        }
        assert forall|q: int| 0 <= q < orig.page_count() && !(vp <= q < vp + n) implies
            #[trigger] s1.page_descriptor(q) == orig.page_descriptor(q)
            && s1.page_target(q) == orig.page_target(q) by {
            assert(s0.page_descriptor(q) == orig.page_descriptor(q));
            assert(q / per < len) by (nonlinear_arith)
                requires q < len * per, per > 0, q >= 0;
            assert(0 <= q / per) by (nonlinear_arith) requires per > 0, q >= 0;
            if q / per == bi {
                let r = q % per;
                assert(!(li <= r < li + cnt)) by (nonlinear_arith)
                    requires q / per == bi, r == q % per, bi == pn / per, li == pn % per,
                        per > 0, !(vp <= q < vp + n), pn >= vp, pn + cnt <= vp + n, q >= 0;
                assert(0 <= r < per) by (nonlinear_arith) requires r == q % per, per > 0;
                assert(t.entries_spec()[r] == e0[r]);
                lemma_descriptor_flags(flags, 0);
            } else {
                assert(s1.branches@[q / per] == s0.branches@[q / per]);
            }
        }
        if k + cnt < n {
            assert((vp + k + cnt) % per == 0) by (nonlinear_arith)
                requires li + cnt == per, li == pn % per, per > 0, pn == vp + k;
        }
        assert(s1.new_blocks_inside(orig, vp as int, n as int)) by {
            assert forall|b: int| 0 <= b < s1.branches_spec().len() && #[trigger] s1.branches_spec()[b] is Block
                && !(orig.branches_spec()[b] is Block) implies vp <= b * per && b * per + per <= vp + n by {
                assert(b != bi);
                assert(s1.branches_spec()[b] == s0.branches_spec()[b]);
            }
        }
        assert(s1.flags_of_pages(vp as int, next as int, flags)) by {
            assert forall|j: int| 0 <= j < next implies #[trigger] descriptor_flags(s1.page_descriptor(vp + j))
                == descriptor_flags(flags) by {
                if j < k {
                    assert((vp + j) / per < bi) by (nonlinear_arith)
                        requires vp + j < pn, pn % per == 0, per > 0, bi == pn / per, vp + j >= 0;
                    assert(0 <= (vp + j) / per) by (nonlinear_arith) requires per > 0, vp + j >= 0;
                    assert(s1.branches@[(vp + j) / per] == s0.branches@[(vp + j) / per]);
                    assert(descriptor_flags(s0.page_descriptor(vp + j)) == descriptor_flags(flags));
                } else {
                    let i = j - k;
                    lemma_page_in_block(pn as int, i, per);
                    let p = (addr_phys + i * page) as u64;
                    assert(addr_phys + i * page == (pp + j) * page) by (nonlinear_arith)
                        requires addr_phys == (pp + k) * page, i == j - k;
                    assert(0 <= addr_phys + i * page < address_limit(g)) by (nonlinear_arith)
                        requires addr_phys + i * page == (pp + j) * page, j < n, 0 <= j,
                            (pp + n) * page <= address_limit(g), page > 0;
                    assert(t.entries_spec()[li + i] == new_leaf_entry(g, flags, addr_phys as usize, i as nat));
                    vstd::arithmetic::div_mod::lemma_mod_multiples_basic(pp + j, page);
                    assert(leaf_flags(flags) == flags | PAGE_LEVEL_3) by {
                        lemma_descriptor_flags(flags, 0);
                    }
                    lemma_descriptor_flag_bits(flags, p, g);
                }
            }
        }
        Self::lemma_progress_intro(s1, orig, pp, vp, n, next, flags);
    }

    // Maps the `cnt` pages from page `vp + k`, up to the end of the request or of their block,
    // in the block's level-3 table, made if the block has none.
    #[verifier::rlimit(50)]
    fn map_table_step(
        &mut self,
        pp: usize,
        vp: usize,
        n: usize,
        k: usize,
        cnt: usize,
        flags: u64,
        config: &PagingConfig,
        Ghost(orig): Ghost<RootPageTable>,
    ) -> (next: usize)
        requires
            old(self).map_progress(orig, pp, vp, n, k, flags),
            config.page_size == granule_bytes(old(self).granule_spec()),
            config.max_virt_bits < usize::BITS,
            k < n,
            cnt > 0,
            cnt == (if n - k < leaf_entries(old(self).granule_spec()) - (vp + k) % (leaf_entries(old(self).granule_spec()) as int)
                { n - k } else { leaf_entries(old(self).granule_spec()) - (vp + k) % (leaf_entries(old(self).granule_spec()) as int) }),
        ensures
            final(self).map_progress(orig, pp, vp, n, next, flags),
            next == k + cnt,
    {
        let g = self.granule;
        let page = g.page_size();
        let per = g.leaf_entries();
        let span = g.leaf_span();
        proof {
            lemma_granule_shape(g);
            assert(self.page_count() <= self.page_count() * page) by (nonlinear_arith)
                requires self.page_count() >= 0, page > 0;
            assert(pp + n <= (pp + n) * page) by (nonlinear_arith) requires page > 0;
            assert(span == per * page) by (nonlinear_arith) requires span == page * per;
        }
        let pn = vp + k;
        let bi = pn / per;
        let li = pn % per;
        proof {
            assert(bi < self.branches@.len()) by (nonlinear_arith)
                requires pn < self.branches@.len() * per, per > 0, bi == pn / per;
            assert(pn * page <= usize::MAX) by (nonlinear_arith)
                requires pn < self.page_count(), self.page_count() * page <= usize::MAX, page > 0;
            assert((pp + k) * page + cnt * page <= (pp + n) * page) by (nonlinear_arith)
                requires k + cnt <= n, page > 0;
            assert(pn * page + cnt * page <= self.page_count() * page) by (nonlinear_arith)
                requires pn + cnt <= vp + n, vp + n <= self.page_count(), page > 0;
            assert(li * page + cnt * page <= span) by (nonlinear_arith)
                requires li + cnt <= per, span == page * per, page > 0;
            lemma_page_mod(pn as int, per as int, page as int);
            vstd::arithmetic::div_mod::lemma_mod_multiples_basic((pp + k) as int, page as int);
            vstd::arithmetic::div_mod::lemma_mod_multiples_basic(pn as int, page as int);
            vstd::arithmetic::div_mod::lemma_mod_multiples_basic(cnt as int, page as int);
            vstd::arithmetic::div_mod::lemma_div_multiples_vanish(cnt as int, page as int);
            vstd::arithmetic::div_mod::lemma_div_multiples_vanish(li as int, page as int);
            assert(cnt * page == page * cnt && li * page == page * li) by (nonlinear_arith);
        }
        let addr_phys = (pp + k) * page;
        let addr_virt = pn * page;
        let bytes = cnt * page;
        let ghost s0 = *self;
        let entry = self.branches.remove(bi);
        let mut t = match entry {
            BranchEntry::Table(t) => t,
            _ => LeafPageTable::new(g),
        };
        let ghost e0 = t.entries_spec();
        proof {
            assert forall|j: int| 0 <= j < cnt implies #[trigger] e0[li + j] == UNMAPPED by {
                lemma_page_in_block(pn as int, j, per as int);
                assert(s0.page_free(vp + (k + j)));
            }
            assert(leaf_index(g, addr_virt as int) == li);
        }
        let mut scratch: Vec<usize> = Vec::new();
        let _ = t.map(addr_phys, addr_virt, bytes, flags, UNMAPPED, config, &mut scratch);
        proof {
            lemma_map_over_expected_maps_every_page(e0, Seq::empty(), g, addr_phys, addr_virt,
                cnt as nat, flags, UNMAPPED, config.max_virt_bits);
        }
        let ghost tt = t;
        self.branches.insert(bi, BranchEntry::Table(t));
        proof {
            assert(self.branches@ =~= s0.branches@.update(bi as int, BranchEntry::Table(tt)));
            Self::lemma_table_step(s0, *self, orig, pp, vp, n, k, cnt, flags, tt, e0, (k + cnt) as usize);
        }
        k + cnt
    }

    // Maps the `n` pages from page `vp`, all free, to the physical pages from page `pp`, with
    // descriptors made of `flags`. Each block of the level-2 table is mapped as the step for it
    // says: by one block descriptor, or page by page in its level-3 table.
    fn map_pages(&mut self, pp: usize, vp: usize, n: usize, flags: u64, config: &PagingConfig)
        requires
            old(self).wf(),
            config.page_size == granule_bytes(old(self).granule_spec()),
            config.max_virt_bits < usize::BITS,
            old(self).pages_fit(vp as int, n as int),
            (pp + n) * granule_bytes(old(self).granule_spec()) <= address_limit(old(self).granule_spec()),
            (pp + n) * granule_bytes(old(self).granule_spec()) <= usize::MAX,
            flags & 0x0000_ffff_ffff_f000 == 0,
            flags & PAGE_ONE == PAGE_ONE,
        ensures
            final(self).map_progress(*old(self), pp, vp, n, n, flags),
    {
        let g = self.granule;
        let page = g.page_size();
        let per = g.leaf_entries();
        let span = g.leaf_span();
        proof {
            lemma_granule_shape(g);
        }
        let ghost orig = *self;
        let mut k: usize = 0;
        while k < n
            invariant
                self.map_progress(orig, pp, vp, n, k, flags),
                orig == *old(self),
                g == self.granule,
                page == granule_bytes(g),
                per == leaf_entries(g),
                span == leaf_span(g),
                span == page * per,
                page > 0,
                per > 0,
                config.page_size == page,
                config.max_virt_bits < usize::BITS,
            decreases n - k,
        {
            let pn = vp + k;
            let bi = pn / per;
            let li = pn % per;
            proof {
                assert(bi < self.branches@.len()) by (nonlinear_arith)
                    requires pn < self.branches@.len() * per, per > 0, bi == pn / per;
                assert(pn * page <= usize::MAX) by (nonlinear_arith)
                    requires pn < self.page_count(), self.page_count() * page <= usize::MAX, page > 0;
                assert((pp + k) * page + (n - k) * page == (pp + n) * page) by (nonlinear_arith);
                assert((pp + k) * page < (pp + n) * page) by (nonlinear_arith) requires k < n, page > 0;
                lemma_page_mod(pn as int, per as int, page as int);
                lemma_page_mod((pp + k) as int, per as int, page as int);
            }
            let addr_phys = (pp + k) * page;
            let addr_virt = pn * page;
            let end_phys = (pp + n) * page;
            let has_table = match &self.branches[bi] {
                BranchEntry::Table(_) => true,
                _ => false,
            };
            match branch_step(has_table, addr_phys, addr_virt, end_phys, span, true) {
                BranchStep::Block => {
                    proof {
                        assert(li == 0) by (nonlinear_arith)
                            requires (addr_virt as int) % (span as int) == li * page, addr_virt % span == 0, page > 0,
                                li >= 0;
                        assert(((pp + k) as int) % (per as int) == 0) by (nonlinear_arith)
                            requires (addr_phys as int) % (span as int) == (((pp + k) as int) % (per as int)) * page,
                                addr_phys % span == 0, page > 0, ((pp + k) as int) % (per as int) >= 0;
                        assert(per <= n - k) by (nonlinear_arith)
                            requires end_phys - addr_phys >= span, end_phys - addr_phys == (n - k) * page,
                                span == page * per, page > 0;
                    }
                    k = self.map_block_step(pp, vp, n, k, flags, Ghost(orig));
                },
                BranchStep::Subtable(bytes) => {
                    let cnt: usize = if n - k < per - li { n - k } else { per - li };
                    k = self.map_table_step(pp, vp, n, k, cnt, flags, config, Ghost(orig));
                },
            }
        }
    }

    /// The flags of the descriptors that `map` writes for memory of `reg_type`: pages for the MMU,
    /// not yet dirty, with the attributes of the memory type and the permissions of the tree's
    /// exception level.
    pub open spec fn map_flags(&self, reg_type: RegionType) -> u64 {
        mapping_flags_spec(PAGE_NOT_DIRTY | PAGE_ONE, Some(reg_type), self.exception_level_spec())
    }

    /// Maps the `size` bytes of physical memory at `phys_base` to the virtual addresses from
    /// `virt_base`. If any of these pages has already been mapped (or lies outside the tree), the
    /// mapping fails without having mapped any of them. With `virt_base` set to `None`, the virtual
    /// base is chosen: the lowest page boundary above the zero page from which the whole range is
    /// free, and the mapping fails only if there is none. Each block of the level-2 table that the
    /// range covers whole, at a block boundary in both address spaces, is mapped by one block
    /// descriptor; the other pages are mapped in level-3 tables. Returns the virtual base.
    #[verifier::spinoff_prover]
    pub fn map(
        &mut self,
        phys_base: usize,
        virt_base: Option<usize>,
        size: usize,
        reg_type: RegionType,
        config: &PagingConfig,
    ) -> (r: Result<usize, ()>)
        requires
            old(self).wf(),
            config.page_size == granule_bytes(old(self).granule_spec()),
            config.max_virt_bits < usize::BITS,
            size > 0,
            phys_base as int % (granule_bytes(old(self).granule_spec()) as int) == 0,
            size as int % (granule_bytes(old(self).granule_spec()) as int) == 0,
            virt_base matches Some(w) ==> w as int % (granule_bytes(old(self).granule_spec()) as int) == 0,
            phys_base + size <= address_limit(old(self).granule_spec()),
            phys_base + size <= usize::MAX,
        ensures
            final(self).wf(),
            final(self).granule_spec() == old(self).granule_spec(),
            final(self).exception_level_spec() == old(self).exception_level_spec(),
            final(self).branches_spec().len() == old(self).branches_spec().len(),
            ({
                let page = granule_bytes(old(self).granule_spec()) as int;
                let n = size as int / page;
                &&& virt_base matches Some(w) ==> (r is Ok <==> old(self).pages_fit(w as int / page, n))
                &&& virt_base is None ==> (r is Ok <==> exists|pn: int| 1 <= pn && #[trigger] old(self).pages_fit(pn, n))
                &&& r is Err ==> *final(self) == *old(self)
                &&& r matches Ok(v) ==> {
                    &&& virt_base matches Some(w) ==> v == w
                    &&& v as int % page == 0
                    &&& old(self).pages_fit(v as int / page, n)
                    &&& virt_base is None ==> v >= page
                        && forall|pn: int| 1 <= pn < v as int / page ==> !#[trigger] old(self).pages_fit(pn, n)
                    &&& final(self).maps_range(*old(self), phys_base as int, v as int, n)
                    &&& final(self).new_blocks_inside(*old(self), v as int / page, n)
                    &&& final(self).flags_of_pages(v as int / page, n, old(self).map_flags(reg_type))
                }
            }),
    {
        let g = self.granule;
        let page = g.page_size();
        let n = size / page;
        let pp = phys_base / page;
        let total = self.pages();
        let flags = mapping_flags(PAGE_NOT_DIRTY | PAGE_ONE, Some(reg_type), self.exception_level);
        proof {
            lemma_granule_shape(g);
            lemma_map_flags(reg_type, self.exception_level);
            vstd::arithmetic::div_mod::lemma_fundamental_div_mod(phys_base as int, page as int);
            vstd::arithmetic::div_mod::lemma_fundamental_div_mod(size as int, page as int);
            assert((pp + n) * page == phys_base + size) by (nonlinear_arith)
                requires phys_base == page * pp, size == page * n;
            assert(n > 0) by (nonlinear_arith) requires size == page * n, size > 0;
            assert(phys_base == pp * page) by (nonlinear_arith) requires phys_base == page * pp;
        }
        match virt_base {
            Some(w) => {
                let vp = w / page;
                proof {
                    vstd::arithmetic::div_mod::lemma_fundamental_div_mod(w as int, page as int);
                    assert(vp * page == w) by (nonlinear_arith) requires w == page * vp;
                }
                if self.map_at(pp, vp, n, flags, config) {
                    proof {
                        Self::lemma_progress_maps(*old(self), *self, pp, vp, n, flags, phys_base);
                    }
                    Ok(w)
                } else {
                    Err(())
                }
            },
            None => {
                match self.map_first_fit(pp, n, flags, config) {
                    None => Err(()),
                    Some(pn) => {
                        proof {
                            assert(pn * page <= total * page) by (nonlinear_arith)
                                requires pn < total, page > 0;
                        }
                        let v = pn * page;
                        proof {
                            vstd::arithmetic::div_mod::lemma_div_multiples_vanish(pn as int, page as int);
                            assert(v as int / (page as int) == pn) by (nonlinear_arith)
                                requires v == pn * page, (page as int * pn as int) / (page as int) == pn as int;
                            vstd::arithmetic::div_mod::lemma_mod_multiples_basic(pn as int, page as int);
                            assert(v >= page) by (nonlinear_arith) requires v == pn * page, pn >= 1, page > 0;
                            Self::lemma_progress_maps(*old(self), *self, pp, pn, n, flags, phys_base);
                        }
                        Ok(v)
                    },
                }
            },
        }
    }

    // Maps the `n` pages from physical page `pp` at page `vp` if they are all in the tree and free;
    // otherwise changes nothing. Returns whether it mapped them.
    #[verifier::rlimit(30)]
    fn map_at(&mut self, pp: usize, vp: usize, n: usize, flags: u64, config: &PagingConfig) -> (r: bool)
        requires
            old(self).wf(),
            config.page_size == granule_bytes(old(self).granule_spec()),
            config.max_virt_bits < usize::BITS,
            (pp + n) * granule_bytes(old(self).granule_spec()) <= address_limit(old(self).granule_spec()),
            (pp + n) * granule_bytes(old(self).granule_spec()) <= usize::MAX,
            flags & 0x0000_ffff_ffff_f000 == 0,
            flags & PAGE_ONE == PAGE_ONE,
        ensures
            r <==> old(self).pages_fit(vp as int, n as int),
            !r ==> *final(self) == *old(self),
            r ==> final(self).map_progress(*old(self), pp, vp, n, n, flags),
    {
        let total = self.pages();
        if n > total || vp > total - n {
            proof {
                assert(!self.pages_fit(vp as int, n as int));
            }
            return false;
        }
        match self.first_taken(vp, n) {
            Some(j) => {
                proof {
                    assert(!self.page_free(vp + j));
                    assert(!self.pages_fit(vp as int, n as int));
                }
                false
            },
            None => {
                proof {
                    assert(self.pages_fit(vp as int, n as int));
                }
                self.map_pages(pp, vp, n, flags, config);
                true
            },
        }
    }

    // Maps the `n` pages from physical page `pp` at the lowest page from page 1 on from which the
    // `n` pages are all free, and returns that page, or returns `None`, changing nothing, if there
    // is no such page.
    #[verifier::rlimit(30)]
    fn map_first_fit(&mut self, pp: usize, n: usize, flags: u64, config: &PagingConfig) -> (r: Option<usize>)
        requires
            old(self).wf(),
            config.page_size == granule_bytes(old(self).granule_spec()),
            config.max_virt_bits < usize::BITS,
            n > 0,
            (pp + n) * granule_bytes(old(self).granule_spec()) <= address_limit(old(self).granule_spec()),
            (pp + n) * granule_bytes(old(self).granule_spec()) <= usize::MAX,
            flags & 0x0000_ffff_ffff_f000 == 0,
            flags & PAGE_ONE == PAGE_ONE,
        ensures
            r is None <==> !exists|pn: int| 1 <= pn && #[trigger] old(self).pages_fit(pn, n as int),
            r is None ==> *final(self) == *old(self),
            r matches Some(pn) ==> {
                &&& 1 <= pn < old(self).page_count()
                &&& old(self).pages_fit(pn as int, n as int)
                &&& forall|q: int| 1 <= q < pn ==> !#[trigger] old(self).pages_fit(q, n as int)
                &&& final(self).map_progress(*old(self), pp, pn, n, n, flags)
            },
    {
        let total = self.pages();
        let mut pn: usize = 1;
        while pn <= total && n <= total - pn
            invariant
                *self == *old(self),
                self.wf(),
                total == self.page_count(),
                config.page_size == granule_bytes(self.granule_spec()),
                config.max_virt_bits < usize::BITS,
                n > 0,
                (pp + n) * granule_bytes(self.granule_spec()) <= address_limit(self.granule_spec()),
                (pp + n) * granule_bytes(self.granule_spec()) <= usize::MAX,
                flags & 0x0000_ffff_ffff_f000 == 0,
                flags & PAGE_ONE == PAGE_ONE,
                pn >= 1,
                forall|q: int| 1 <= q < pn ==> !#[trigger] self.pages_fit(q, n as int),
            decreases total + 1 - pn,
        {
            match self.first_taken(pn, n) {
                None => {
                    proof {
                        assert(self.pages_fit(pn as int, n as int));
                    }
                    self.map_pages(pp, pn, n, flags, config);
                    return Some(pn);
                },
                Some(j) => {
                    proof {
                        assert forall|q: int| 1 <= q < pn + j + 1 implies !#[trigger] self.pages_fit(q, n as int) by {
                            if q >= pn {
                                assert(!self.page_free(q + (pn + j - q)));
                            }
                        }
                    }
                    pn = pn + j + 1;
                },
            }
        }
        proof {
            assert forall|q: int| 1 <= q implies !#[trigger] self.pages_fit(q, n as int) by {
                if q >= pn {
                    assert(q + n > total);
                }
            }
        }
        None
    }

    /// Whether unmapping the `n` pages from page `vp` frees page `q`: it is one of them, or it lies
    /// in a span that is mapped as one block and that one of them lies in.
    pub open spec fn unmap_frees(&self, vp: int, n: int, q: int) -> bool {
        let per = leaf_entries(self.granule_spec()) as int;
        ||| vp <= q < vp + n
        ||| (self.branches_spec()[q / per] is Block && n > 0 && vp / per <= q / per <= (vp + n - 1) / per)
    }

    // How far unmapping the `n` pages from page `vp` of the tree `orig` has got: the first `k` are
    // freed, with the blocks they lie in, and nothing else has changed.
    spec fn unmap_progress(&self, orig: RootPageTable, vp: usize, n: usize, k: usize) -> bool {
        let per = leaf_entries(self.granule_spec()) as int;
        &&& self.wf()
        &&& self.granule_spec() == orig.granule_spec()
        &&& self.exception_level_spec() == orig.exception_level_spec()
        &&& self.branches_spec().len() == orig.branches_spec().len()
        &&& k <= n
        &&& vp + n <= self.page_count()
        &&& (0 < k < n ==> (vp + k) % per == 0)
        &&& forall|b: int| 0 <= b < self.branches_spec().len() && (k == 0 || b > (vp + k - 1) / per)
            ==> #[trigger] self.branches_spec()[b] == orig.branches_spec()[b]
        &&& self.unmap_pages_done(orig, vp as int, k as int)
    }

    // Whether every page of the tree is as unmapping the `k` pages from page `vp` of `orig` leaves
    // it.
    #[verifier::opaque]
    spec fn unmap_pages_done(&self, orig: RootPageTable, vp: int, k: int) -> bool {
        forall|q: int| 0 <= q < self.page_count() ==> #[trigger] self.page_descriptor(q)
            == (if orig.unmap_frees(vp, k, q) { UNMAPPED } else { orig.page_descriptor(q) })
            && self.page_target(q) == (if orig.unmap_frees(vp, k, q) { None } else { orig.page_target(q) })
    }

    // Unmapping the `cnt` pages from page `vp + k` frees them and the blocks they lie in, and
    // leaves every other page as it was.
    #[verifier::rlimit(60)]
    #[verifier::spinoff_prover]
    proof fn lemma_unmap_step_pages(s0: RootPageTable, s1: RootPageTable, orig: RootPageTable, vp: usize, n: usize, k: usize,
        cnt: usize, next: usize)
        requires
            s0.unmap_progress(orig, vp, n, k),
            k < n,
            next == k + cnt,
            cnt == (if n - k < leaf_entries(s0.granule) - (vp + k) % (leaf_entries(s0.granule) as int)
                { n - k } else { leaf_entries(s0.granule) - (vp + k) % (leaf_entries(s0.granule) as int) }),
            s1.granule == s0.granule,
            s1.exception_level == s0.exception_level,
            ({
                let per = leaf_entries(s0.granule) as int;
                let bi = (vp + k) / per;
                let li = (vp + k) % per;
                match s0.branches@[bi] {
                    BranchEntry::Empty => s1.branches@ == s0.branches@,
                    BranchEntry::Block(_) => s1.branches@ == s0.branches@.update(bi, BranchEntry::Empty),
                    BranchEntry::Table(t0) => exists|t1: LeafPageTable| #![auto]
                        s1.branches@ == s0.branches@.update(bi, BranchEntry::Table(t1)) && t1.wf()
                        && t1.granule_spec() == s0.granule
                        && t1.entries_spec() == crate::page_table::set_range(t0.entries_spec(), li, cnt as int, UNMAPPED),
                }
            }),
        ensures
            s1.unmap_pages_done(orig, vp as int, next as int),
    {
        reveal(RootPageTable::unmap_pages_done);
        let g = s0.granule;
        let per = leaf_entries(g) as int;
        let len = s0.branches@.len();
        let pn = vp + k;
        let bi = pn / per;
        let li = pn % per;
        lemma_granule_shape(g);
        vstd::arithmetic::div_mod::lemma_fundamental_div_mod(pn, per);
        assert(0 <= li < per) by (nonlinear_arith) requires li == pn % per, per > 0;
        assert(0 <= bi < len) by (nonlinear_arith)
            requires pn < len * per, per > 0, bi == pn / per, pn >= 0;
        assert(pn == bi * per + li) by (nonlinear_arith) requires pn == per * bi + li;
        assert(li + cnt <= per);
        assert(s0.branches@[bi] == orig.branches@[bi]) by {
            if k > 0 {
                assert((vp + k - 1) / per < bi) by (nonlinear_arith)
                    requires pn % per == 0, bi == pn / per, per > 0, pn == vp + k, k > 0;
            }
        }
        // The last page of the segment is in block `bi`.
        lemma_page_in_block(pn as int, cnt - 1, per);
        assert((vp + next - 1) / per == bi);
        // Before the segment, the freed blocks end just before block `bi`.
        if k > 0 {
            assert(li == 0) by (nonlinear_arith) requires li == pn % per, pn % per == 0;
            assert((vp + k - 1) / per == bi - 1) by (nonlinear_arith)
                requires pn == bi * per, pn == vp + k, per > 0, k > 0;
        }
        assert forall|q: int| 0 <= q < s1.page_count() implies #[trigger] s1.page_descriptor(q)
            == (if orig.unmap_frees(vp as int, next as int, q) { UNMAPPED } else { orig.page_descriptor(q) })
            && s1.page_target(q) == (if orig.unmap_frees(vp as int, next as int, q) { None } else { orig.page_target(q) }) by {
            let qb = q / per;
            let qr = q % per;
            vstd::arithmetic::div_mod::lemma_fundamental_div_mod(q, per);
            assert(0 <= qr < per) by (nonlinear_arith) requires qr == q % per, per > 0;
            assert(0 <= qb < len) by (nonlinear_arith) requires q < len * per, per > 0, qb == q / per, q >= 0;
            assert(q == qb * per + qr) by (nonlinear_arith) requires q == per * qb + qr;
            assert(s0.page_descriptor(q) == (if orig.unmap_frees(vp as int, k as int, q) { UNMAPPED } else { orig.page_descriptor(q) }));
            if qb != bi {
                assert(s1.branches_spec()[qb] == s0.branches_spec()[qb]);
                assert(!(pn <= q < pn + cnt)) by (nonlinear_arith)
                    requires qb != bi, q == qb * per + qr, pn == bi * per + li, 0 <= qr < per, 0 <= li, li + cnt <= per;
                assert(orig.unmap_frees(vp as int, next as int, q) == orig.unmap_frees(vp as int, k as int, q)) by {
                    if k == 0 {
                        assert((vp as int) / per == bi);
                    }
                }
            } else {
                assert(qr == q - bi * per);
                if pn <= q < pn + cnt {
                    assert(orig.unmap_frees(vp as int, next as int, q));
                    assert(qr == li + (q - pn));
                    lemma_descriptor_flags(0, 0);
                } else {
                    // Outside the range, in block `bi`.
                    assert(!(vp <= q < vp + n)) by (nonlinear_arith)
                        requires q == bi * per + qr, pn == bi * per + li, 0 <= qr < per, !(pn <= q < pn + cnt),
                            pn == vp + k, k == 0 || li == 0, k + cnt == n || li + cnt == per, vp + n >= pn + cnt;
                    assert(!orig.unmap_frees(vp as int, k as int, q)) by {
                        if k > 0 {
                            assert(!((vp as int) / per <= qb <= (vp + k - 1) / per));
                        }
                    }
                    assert((vp as int) / per <= qb <= (vp + next - 1) / per) by (nonlinear_arith)
                        requires vp <= pn, pn / per == bi, qb == bi, per > 0, (vp + next - 1) / per == bi, vp >= 0;
                    assert(qr < li || qr >= li + cnt);
                    lemma_descriptor_flags(0, 0);
                }
            }
        }
    }


    // Unmapping the `cnt` pages from page `vp + k`, up to the end of the range or of their block,
    // gets the unmapping `cnt` pages further.
    #[verifier::rlimit(60)]
    #[verifier::spinoff_prover]
    proof fn lemma_unmap_step(s0: RootPageTable, s1: RootPageTable, orig: RootPageTable, vp: usize, n: usize, k: usize,
        cnt: usize, next: usize)
        requires
            s0.unmap_progress(orig, vp, n, k),
            k < n,
            next == k + cnt,
            cnt == (if n - k < leaf_entries(s0.granule) - (vp + k) % (leaf_entries(s0.granule) as int)
                { n - k } else { leaf_entries(s0.granule) - (vp + k) % (leaf_entries(s0.granule) as int) }),
            s1.granule == s0.granule,
            s1.exception_level == s0.exception_level,
            ({
                let per = leaf_entries(s0.granule) as int;
                let bi = (vp + k) / per;
                let li = (vp + k) % per;
                match s0.branches@[bi] {
                    BranchEntry::Empty => s1.branches@ == s0.branches@,
                    BranchEntry::Block(_) => s1.branches@ == s0.branches@.update(bi, BranchEntry::Empty),
                    BranchEntry::Table(t0) => exists|t1: LeafPageTable| #![auto]
                        s1.branches@ == s0.branches@.update(bi, BranchEntry::Table(t1)) && t1.wf()
                        && t1.granule_spec() == s0.granule
                        && t1.entries_spec() == crate::page_table::set_range(t0.entries_spec(), li, cnt as int, UNMAPPED),
                }
            }),
        ensures
            s1.unmap_progress(orig, vp, n, next),
    {
        let g = s0.granule;
        let per = leaf_entries(g) as int;
        let len = s0.branches@.len();
        let pn = vp + k;
        let bi = pn / per;
        let li = pn % per;
        lemma_granule_shape(g);
        vstd::arithmetic::div_mod::lemma_fundamental_div_mod(pn, per);
        assert(0 <= li < per) by (nonlinear_arith) requires li == pn % per, per > 0;
        assert(0 <= bi < len) by (nonlinear_arith)
            requires pn < len * per, per > 0, bi == pn / per, pn >= 0;
        assert(pn == bi * per + li) by (nonlinear_arith) requires pn == per * bi + li;
        assert(li + cnt <= per);
        assert(s0.branches@[bi] == orig.branches@[bi]) by {
            if k > 0 {
                assert((vp + k - 1) / per < bi) by (nonlinear_arith)
                    requires pn % per == 0, bi == pn / per, per > 0, pn == vp + k, k > 0;
            }
        }
        // The last page of the segment is in block `bi`.
        lemma_page_in_block(pn as int, cnt - 1, per);
        assert((vp + next - 1) / per == bi);
        // Before the segment, the freed blocks end just before block `bi`.
        if k > 0 {
            assert(li == 0) by (nonlinear_arith) requires li == pn % per, pn % per == 0;
            assert((vp + k - 1) / per == bi - 1) by (nonlinear_arith)
                requires pn == bi * per, pn == vp + k, per > 0, k > 0;
        }
        assert forall|b: int| 0 <= b < s1.branches_spec().len() && (next == 0 || b > (vp + next - 1) / per)
            implies #[trigger] s1.branches_spec()[b] == orig.branches_spec()[b] by {
            assert(b != bi);
            assert(s1.branches_spec()[b] == s0.branches_spec()[b]);
        }
        Self::lemma_unmap_step_pages(s0, s1, orig, vp, n, k, cnt, next);
        if next < n {
            assert((vp + next) % per == 0) by (nonlinear_arith)
                requires li + cnt == per, pn == bi * per + li, per > 0, vp + next == pn + cnt;
        }
        assert(s1.wf()) by {
            assert forall|i: int| 0 <= i < s1.branches_spec().len() implies match #[trigger] s1.branches_spec()[i] {
                BranchEntry::Empty => true,
                BranchEntry::Block(d) => d != UNMAPPED,
                BranchEntry::Table(t) => t.wf() && t.granule_spec() == s1.granule_spec(),
            } by {
                if i != bi {
                    assert(s1.branches_spec()[i] == s0.branches_spec()[i]);
                }
            }
        }
        Self::lemma_unmap_progress_intro(s1, orig, vp, n, next);
    }

    // The parts of `unmap_progress`, put together.
    proof fn lemma_unmap_progress_intro(s: RootPageTable, orig: RootPageTable, vp: usize, n: usize, k: usize)
        requires
            s.wf(),
            s.granule_spec() == orig.granule_spec(),
            s.exception_level_spec() == orig.exception_level_spec(),
            s.branches_spec().len() == orig.branches_spec().len(),
            k <= n,
            vp + n <= s.page_count(),
            0 < k < n ==> (vp + k) % (leaf_entries(s.granule_spec()) as int) == 0,
            forall|b: int| 0 <= b < s.branches_spec().len() && (k == 0 || b > (vp + k - 1) / (leaf_entries(s.granule_spec()) as int))
                ==> #[trigger] s.branches_spec()[b] == orig.branches_spec()[b],
            s.unmap_pages_done(orig, vp as int, k as int),
        ensures
            s.unmap_progress(orig, vp, n, k),
    {
    }

    // Unmaps the pages from page `vp + k` up to the end of the range or of their block.
    #[verifier::rlimit(30)]
    fn unmap_step(&mut self, vp: usize, n: usize, k: usize, Ghost(orig): Ghost<RootPageTable>) -> (next: usize)
        requires
            old(self).unmap_progress(orig, vp, n, k),
            k < n,
        ensures
            final(self).unmap_progress(orig, vp, n, next),
            k < next <= n,
    {
        let g = self.granule;
        let page = g.page_size();
        let per = g.leaf_entries();
        let span = g.leaf_span();
        proof {
            lemma_granule_shape(g);
            assert(self.page_count() <= self.page_count() * page) by (nonlinear_arith)
                requires self.page_count() >= 0, page > 0;
        }
        let pn = vp + k;
        let bi = pn / per;
        let li = pn % per;
        let cnt: usize = if n - k < per - li { n - k } else { per - li };
        proof {
            assert(bi < self.branches@.len()) by (nonlinear_arith)
                requires pn < self.branches@.len() * per, per > 0, bi == pn / per;
            assert(pn * page + cnt * page <= self.page_count() * page) by (nonlinear_arith)
                requires pn + cnt <= vp + n, vp + n <= self.page_count(), page > 0;
            assert(li * page + cnt * page <= span) by (nonlinear_arith)
                requires li + cnt <= per, span == page * per, page > 0;
            assert(span == per * page) by (nonlinear_arith) requires span == page * per;
            lemma_page_mod(pn as int, per as int, page as int);
            vstd::arithmetic::div_mod::lemma_mod_multiples_basic(pn as int, page as int);
            vstd::arithmetic::div_mod::lemma_mod_multiples_basic(cnt as int, page as int);
            vstd::arithmetic::div_mod::lemma_div_multiples_vanish(cnt as int, page as int);
            vstd::arithmetic::div_mod::lemma_div_multiples_vanish(li as int, page as int);
            assert(cnt * page == page * cnt && li * page == page * li) by (nonlinear_arith);
        }
        let ghost s0 = *self;
        let is_table = match &self.branches[bi] {
            BranchEntry::Table(_) => true,
            _ => false,
        };
        let is_block = match &self.branches[bi] {
            BranchEntry::Block(_) => true,
            _ => false,
        };
        if is_block {
            self.branches.set(bi, BranchEntry::Empty);
            proof {
                Self::lemma_unmap_step(s0, *self, orig, vp, n, k, cnt, (k + cnt) as usize);
            }
        } else if is_table {
            let entry = self.branches.remove(bi);
            let mut t = match entry {
                BranchEntry::Table(t) => t,
                _ => LeafPageTable::new(g),
            };
            let ghost e0 = t.entries_spec();
            let mut scratch: Vec<usize> = Vec::new();
            t.unmap(pn * page, cnt * page, UNMAPPED, &mut scratch);
            proof {
                assert(leaf_index(g, (pn * page) as int) == li);
            }
            let ghost tt = t;
            self.branches.insert(bi, BranchEntry::Table(t));
            proof {
                assert(self.branches@ =~= s0.branches@.update(bi as int, BranchEntry::Table(tt)));
                assert(tt.entries_spec() == crate::page_table::set_range(e0, li as int, cnt as int, UNMAPPED));
                Self::lemma_unmap_step(s0, *self, orig, vp, n, k, cnt, (k + cnt) as usize);
            }
        } else {
            proof {
                Self::lemma_unmap_step(s0, *self, orig, vp, n, k, cnt, (k + cnt) as usize);
            }
        }
        k + cnt
    }

    /// Unmaps the `size` bytes of virtual memory from `virt_base`: every page of the range, and every
    /// span mapped as one block that the range touches, maps nothing afterwards; every other page is
    /// left as it was. Level-3 tables are kept, empty or not. The caller invalidates the TLB entries
    /// of the pages freed.
    pub fn unmap(&mut self, virt_base: usize, size: usize)
        requires
            old(self).wf(),
            virt_base as int % (granule_bytes(old(self).granule_spec()) as int) == 0,
            size as int % (granule_bytes(old(self).granule_spec()) as int) == 0,
            virt_base as int / (granule_bytes(old(self).granule_spec()) as int)
                + size as int / (granule_bytes(old(self).granule_spec()) as int) <= old(self).page_count(),
        ensures
            final(self).wf(),
            final(self).granule_spec() == old(self).granule_spec(),
            final(self).exception_level_spec() == old(self).exception_level_spec(),
            final(self).branches_spec().len() == old(self).branches_spec().len(),
            final(self).unmapped_from(*old(self), virt_base as int / (granule_bytes(old(self).granule_spec()) as int),
                size as int / (granule_bytes(old(self).granule_spec()) as int)),
    {
        let g = self.granule;
        let page = g.page_size();
        let per = g.leaf_entries();
        let vp = virt_base / page;
        let n = size / page;
        let ghost orig = *self;
        proof {
            lemma_granule_shape(g);
            reveal(RootPageTable::unmap_pages_done);
            assert(self.unmap_pages_done(orig, vp as int, 0));
        }
        let mut k: usize = 0;
        while k < n
            invariant
                self.unmap_progress(orig, vp, n, k),
                orig == *old(self),
            decreases n - k,
        {
            k = self.unmap_step(vp, n, k, Ghost(orig));
        }
        proof {
            reveal(RootPageTable::unmap_pages_done);
            assert(self.unmapped_from(orig, vp as int, n as int));
        }
    }

    /// Whether this tree is `before` after unmapping the `n` pages from page `vp`: each page that
    /// the unmapping frees maps nothing, and every other page is as it was.
    pub open spec fn unmapped_from(&self, before: RootPageTable, vp: int, n: int) -> bool {
        forall|q: int| 0 <= q < before.page_count() ==> #[trigger] self.page_descriptor(q)
            == (if before.unmap_frees(vp, n, q) { UNMAPPED } else { before.page_descriptor(q) })
            && self.page_target(q) == (if before.unmap_frees(vp, n, q) { None } else { before.page_target(q) })
    }

    // The law below, for page `q`.
    #[verifier::spinoff_prover]
    proof fn lemma_unmap_undoes_map_at(
        before: RootPageTable,
        mapped: RootPageTable,
        after: RootPageTable,
        phys_base: int,
        v: int,
        n: int,
        q: int,
    )
        requires
            before.wf(),
            mapped.wf(),
            mapped.granule_spec() == before.granule_spec(),
            mapped.branches_spec().len() == before.branches_spec().len(),
            v % (granule_bytes(before.granule_spec()) as int) == 0,
            before.pages_fit(v / (granule_bytes(before.granule_spec()) as int), n),
            mapped.maps_range(before, phys_base, v, n),
            mapped.new_blocks_inside(before, v / (granule_bytes(before.granule_spec()) as int), n),
            after.unmapped_from(mapped, v / (granule_bytes(before.granule_spec()) as int), n),
            0 <= q < before.page_count(),
        ensures
            after.page_descriptor(q) == before.page_descriptor(q),
            after.page_target(q) == before.page_target(q),
    {
        let g = before.granule_spec();
        let page = granule_bytes(g) as int;
        let per = leaf_entries(g) as int;
        let vp = v / page;
        let len = before.branches_spec().len();
        lemma_granule_shape(g);
        lemma_descriptor_flags(0, 0);
        let b = q / per;
        assert(0 <= b < len && b * per <= q < b * per + per) by (nonlinear_arith)
            requires b == q / per, per > 0, 0 <= q < len * per;
        if vp <= q < vp + n {
            assert(before.page_free(vp + (q - vp)));
            assert(!(before.branches_spec()[b] is Block));
        } else {
            if mapped.unmap_frees(vp, n, q) {
                assert(mapped.branches_spec()[b] is Block && n > 0 && vp / per <= b <= (vp + n - 1) / per);
                if before.branches_spec()[b] is Block {
                    let p = if vp > b * per { vp } else { b * per };
                    assert(p / per == b && vp <= p < vp + n) by (nonlinear_arith)
                        requires vp / per <= b, b <= (vp + n - 1) / per, per > 0, n > 0, vp >= 0, b >= 0,
                            p == (if vp > b * per { vp } else { b * per });
                    assert(before.page_free(vp + (p - vp)));
                    assert(false);
                } else {
                    assert(vp <= b * per && b * per + per <= vp + n);
                    assert(false);
                }
            }
            assert(q < mapped.page_count());
            assert(mapped.page_descriptor(q) == before.page_descriptor(q));
        }
    }

    /// Unmapping the range that a mapping onto free pages mapped gives every page back its
    /// descriptor and the physical address it was mapped to before the mapping.
    pub proof fn lemma_unmap_undoes_map(
        before: RootPageTable,
        mapped: RootPageTable,
        after: RootPageTable,
        phys_base: int,
        v: int,
        n: int,
    )
        requires
            before.wf(),
            mapped.wf(),
            mapped.granule_spec() == before.granule_spec(),
            mapped.branches_spec().len() == before.branches_spec().len(),
            v % (granule_bytes(before.granule_spec()) as int) == 0,
            before.pages_fit(v / (granule_bytes(before.granule_spec()) as int), n),
            mapped.maps_range(before, phys_base, v, n),
            mapped.new_blocks_inside(before, v / (granule_bytes(before.granule_spec()) as int), n),
            after.unmapped_from(mapped, v / (granule_bytes(before.granule_spec()) as int), n),
        ensures
            after.same_pages(before),
    {
        assert forall|q: int| 0 <= q < before.page_count() implies #[trigger] after.page_descriptor(q)
            == before.page_descriptor(q) && after.page_target(q) == before.page_target(q) by {
            Self::lemma_unmap_undoes_map_at(before, mapped, after, phys_base, v, n, q);
        }
    }

    /// Whether every page of `other` has the same descriptor and translation in this tree.
    pub open spec fn same_pages(&self, other: RootPageTable) -> bool {
        forall|q: int| 0 <= q < other.page_count() ==> #[trigger] self.page_descriptor(q) == other.page_descriptor(q)
            && self.page_target(q) == other.page_target(q)
    }

    // Whether each page of the tree maps to itself if it lies in one of the first `i` regions or is
    // one of the `j` pages from page `rb`, and is free otherwise.
    spec fn identity_so_far(&self, regions: Seq<IdentityRegion>, i: int, rb: int, j: int) -> bool {
        let page = granule_bytes(self.granule_spec()) as int;
        forall|pn: int| 0 <= pn < self.page_count() ==> {
            let covered = listed(regions, i, pn * page) || (rb <= pn < rb + j);
            &&& #[trigger] self.page_target(pn) == (if covered { Some(pn * page) } else { None })
            &&& self.page_free(pn) == !covered
        }
    }

    // Whether each page that lies in one of the first `i` regions has the flags of the first of
    // them that holds it, and each other of the `j` pages from page `rb` has the flags `fl`.
    spec fn identity_flags_so_far(&self, regions: Seq<IdentityRegion>, i: int, rb: int, j: int, fl: u64) -> bool {
        let page = granule_bytes(self.granule_spec()) as int;
        forall|pn: int| 0 <= pn < self.page_count() && (listed(regions, i, pn * page) || (rb <= pn < rb + j)) ==>
            #[trigger] descriptor_flags(self.page_descriptor(pn)) == descriptor_flags(
                if listed(regions, i, pn * page) { region_flags(regions[first_listing(regions, i, pn * page)]) } else { fl })
    }

    // A free page maps nothing, and a page that maps something is not free.
    proof fn lemma_free_target(&self, pn: int)
        requires
            self.wf(),
            0 <= pn < self.page_count(),
        ensures
            self.page_free(pn) ==> self.page_target(pn) is None,
            self.page_target(pn) is Some ==> !self.page_free(pn),
    {
        let per = leaf_entries(self.granule_spec()) as int;
        lemma_granule_shape(self.granule_spec());
        lemma_descriptor_flags(0, 0);
        assert(0 <= pn / per < self.branches_spec().len()) by (nonlinear_arith)
            requires 0 <= pn < self.branches_spec().len() * per, per > 0;
    }

    /// Makes the kernel's tree for the granule, with `branch_count` level-2 entries, in which each
    /// page of each of `regions` is identity-mapped, with the flags of the first region in the list
    /// that holds it, and every other page is unmapped. Each run of free pages of a region is mapped
    /// at once, so that the blocks it covers whole are mapped by block descriptors.
    pub fn identity_map(granule: Granule, branch_count: usize, regions: &Vec<IdentityRegion>, config: &PagingConfig)
        -> (r: RootPageTable)
        requires
            branch_count * leaf_span(granule) <= usize::MAX,
            config.page_size == granule_bytes(granule),
            config.max_virt_bits < usize::BITS,
            forall|i: int| 0 <= i < regions@.len() ==> {
                let reg = #[trigger] regions@[i];
                &&& reg.base as int % (granule_bytes(granule) as int) == 0
                &&& reg.size as int % (granule_bytes(granule) as int) == 0
                &&& reg.base + reg.size <= branch_count * leaf_span(granule)
                &&& reg.base + reg.size <= address_limit(granule)
            },
        ensures
            r.wf(),
            r.granule_spec() == granule,
            r.exception_level_spec() == ExceptionLevel::El1,
            r.branches_spec().len() == branch_count,
            forall|pn: int| 0 <= pn < r.page_count() ==> #[trigger] r.page_target(pn)
                == (if listed(regions@, regions@.len() as int, pn * granule_bytes(granule)) {
                    Some(pn * granule_bytes(granule))
                } else {
                    None
                }),
            forall|pn: int| 0 <= pn < r.page_count() && listed(regions@, regions@.len() as int, pn * granule_bytes(granule))
                ==> #[trigger] descriptor_flags(r.page_descriptor(pn)) == descriptor_flags(region_flags(
                    regions@[first_listing(regions@, regions@.len() as int, pn * granule_bytes(granule))])),
    {
        let mut t = RootPageTable::new(granule, ExceptionLevel::El1, branch_count);
        let page = granule.page_size();
        let ghost gb = page as int;
        proof {
            lemma_granule_shape(granule);
            lemma_descriptor_flags(0, 0);
            assert(t.page_count() * page == branch_count * leaf_span(granule)) by (nonlinear_arith)
                requires t.page_count() == branch_count * leaf_entries(granule),
                    leaf_span(granule) == granule_bytes(granule) * leaf_entries(granule), page == granule_bytes(granule);
            assert forall|pn: int| 0 <= pn < t.page_count() implies {
                let covered = listed(regions@, 0, pn * gb) || (0 <= pn < 0);
                &&& #[trigger] t.page_target(pn) == (if covered { Some(pn * gb) } else { None })
                &&& t.page_free(pn) == !covered
            } by {
                t.lemma_free_target(pn);
            }
            assert(t.identity_so_far(regions@, 0, 0, 0));
            assert(t.identity_flags_so_far(regions@, 0, 0, 0, 0));
        }
        let mut i: usize = 0;
        while i < regions.len()
            invariant
                t.wf(),
                t.granule_spec() == granule,
                t.exception_level_spec() == ExceptionLevel::El1,
                t.branches_spec().len() == branch_count,
                page == granule_bytes(granule),
                gb == page,
                page > 0,
                t.page_count() * page == branch_count * leaf_span(granule),
                config.page_size == page,
                config.max_virt_bits < usize::BITS,
                i <= regions@.len(),
                forall|k: int| 0 <= k < regions@.len() ==> {
                    let reg = #[trigger] regions@[k];
                    &&& reg.base as int % (granule_bytes(granule) as int) == 0
                    &&& reg.size as int % (granule_bytes(granule) as int) == 0
                    &&& reg.base + reg.size <= branch_count * leaf_span(granule)
                    &&& reg.base + reg.size <= address_limit(granule)
                },
                t.identity_so_far(regions@, i as int, 0, 0),
                t.identity_flags_so_far(regions@, i as int, 0, 0, 0),
            decreases regions@.len() - i,
        {
            let reg = regions[i];
            let rb = reg.base / page;
            let np = reg.size / page;
            let flags = identity_flags(reg.region_type, reg.shareability);
            proof {
                lemma_identity_flags(reg.region_type, reg.shareability);
                vstd::arithmetic::div_mod::lemma_fundamental_div_mod(reg.base as int, page as int);
                vstd::arithmetic::div_mod::lemma_fundamental_div_mod(reg.size as int, page as int);
                assert((rb + np) * page == reg.base + reg.size) by (nonlinear_arith)
                    requires reg.base == page * rb, reg.size == page * np;
                assert(rb + np <= t.page_count()) by (nonlinear_arith)
                    requires (rb + np) * page <= t.page_count() * page, page > 0;
            }
            proof {
                assert forall|pn: int| 0 <= pn < t.page_count() implies {
                    let covered = listed(regions@, i as int, pn * gb) || (rb <= pn < rb + 0);
                    &&& #[trigger] t.page_target(pn) == (if covered { Some(pn * gb) } else { None })
                    &&& t.page_free(pn) == !covered
                } by {
                }
            }
            proof {
                assert(t.identity_flags_so_far(regions@, i as int, rb as int, 0, flags));
            }
            let mut j: usize = 0;
            while j < np
                invariant
                    t.wf(),
                    t.granule_spec() == granule,
                    t.exception_level_spec() == ExceptionLevel::El1,
                    t.branches_spec().len() == branch_count,
                    page == granule_bytes(granule),
                    gb == page,
                    page > 0,
                    config.page_size == page,
                    config.max_virt_bits < usize::BITS,
                    j <= np,
                    rb + np <= t.page_count(),
                    (rb + np) * page == reg.base + reg.size,
                    reg.base + reg.size <= address_limit(granule),
                    reg.base + reg.size <= usize::MAX,
                    flags & 0x0000_ffff_ffff_f000 == 0,
                    flags & PAGE_ONE == PAGE_ONE,
                    i < regions@.len(),
                    t.identity_so_far(regions@, i as int, rb as int, j as int),
                    t.identity_flags_so_far(regions@, i as int, rb as int, j as int, flags),
                    flags == region_flags(regions@[i as int]),
                decreases np - j,
            {
                let q = rb + j;
                let m: usize = match t.first_taken(q, np - j) {
                    None => np - j,
                    Some(k) => k,
                };
                if m == 0 {
                    proof {
                        assert(t.page_target(q as int) == t.page_target(q as int));
                        assert(!t.page_free(q as int));
                        assert forall|pn: int| 0 <= pn < t.page_count() implies {
                            let covered = listed(regions@, i as int, pn * gb) || (rb <= pn < rb + j + 1);
                            &&& #[trigger] t.page_target(pn) == (if covered { Some(pn * gb) } else { None })
                            &&& t.page_free(pn) == !covered
                        } by {
                                }
                    }
                    proof {
                        assert(t.identity_flags_so_far(regions@, i as int, rb as int, j + 1, flags));
                    }
                    j += 1;
                } else {
                    let ghost s0 = t;
                    proof {
                        assert(s0.pages_fit(q as int, m as int));
                        assert((q + m) * page <= (rb + np) * page) by (nonlinear_arith)
                            requires q + m <= rb + np, page > 0;
                    }
                    let mapped = t.map_at(q, q, m, flags, config);
                    proof {
                        assert(mapped);
                        assert forall|pn: int| 0 <= pn < t.page_count() implies {
                            let covered = listed(regions@, i as int, pn * gb) || (rb <= pn < rb + j + m);
                            &&& #[trigger] t.page_target(pn) == (if covered { Some(pn * gb) } else { None })
                            &&& t.page_free(pn) == !covered
                        } by {
                            t.lemma_free_target(pn);
                            if q <= pn < q + m {
                                assert(t.page_target(q + (pn - q)) == Some((q + (pn - q)) * page));
                                assert(s0.page_free(q + (pn - q)));
                            } else {
                                assert(t.page_descriptor(pn) == s0.page_descriptor(pn));
                            }
                        }
                    }
                    proof {
                        assert forall|pn: int| 0 <= pn < t.page_count()
                            && (listed(regions@, i as int, pn * gb) || (rb <= pn < rb + j + m)) implies
                            #[trigger] descriptor_flags(t.page_descriptor(pn)) == descriptor_flags(
                                if listed(regions@, i as int, pn * gb) {
                                    region_flags(regions@[first_listing(regions@, i as int, pn * gb)])
                                } else { flags }) by {
                            assert(s0.page_target(pn) == s0.page_target(pn));
                            if q <= pn < q + m {
                                assert(descriptor_flags(t.page_descriptor(q + (pn - q))) == descriptor_flags(flags));
                                assert(s0.page_free(q + (pn - q)));
                            } else {
                                assert(t.page_descriptor(pn) == s0.page_descriptor(pn));
                            }
                        }
                        assert(t.identity_flags_so_far(regions@, i as int, rb as int, (j + m) as int, flags));
                    }
                    j += m;
                }
            }
            proof {
                assert forall|pn: int| 0 <= pn < t.page_count() implies {
                    let covered = listed(regions@, i + 1, pn * gb) || (0 <= pn < 0);
                    &&& #[trigger] t.page_target(pn) == (if covered { Some(pn * gb) } else { None })
                    &&& t.page_free(pn) == !covered
                } by {
                    lemma_page_in_region(reg.base as int, reg.size as int, page as int, pn);
                    if rb <= pn < rb + np {
                        assert(regions@[i as int].base <= pn * gb && pn * gb < regions@[i as int].base + regions@[i as int].size);
                        assert(listed(regions@, i + 1, pn * gb));
                    }
                    if listed(regions@, i + 1, pn * gb) {
                        let w = choose|w: int| 0 <= w < i + 1 && #[trigger] regions@[w].base <= pn * gb
                            && pn * gb < regions@[w].base + regions@[w].size;
                        if w < i {
                            assert(listed(regions@, i as int, pn * gb));
                        }
                    }
                    if listed(regions@, i as int, pn * gb) {
                        let w = choose|w: int| 0 <= w < i && #[trigger] regions@[w].base <= pn * gb
                            && pn * gb < regions@[w].base + regions@[w].size;
                        assert(listed(regions@, i + 1, pn * gb));
                    }
                }
                assert(t.identity_so_far(regions@, i + 1, 0, 0));
                assert forall|pn: int| 0 <= pn < t.page_count()
                    && (listed(regions@, i + 1, pn * gb) || (0 <= pn < 0)) implies
                    #[trigger] descriptor_flags(t.page_descriptor(pn)) == descriptor_flags(
                        if listed(regions@, i + 1, pn * gb) {
                            region_flags(regions@[first_listing(regions@, i + 1, pn * gb)])
                        } else { 0u64 }) by {
                    lemma_page_in_region(reg.base as int, reg.size as int, page as int, pn);
                    if listed(regions@, i as int, pn * gb) {
                        assert(first_listing(regions@, i + 1, pn * gb) == first_listing(regions@, i as int, pn * gb));
                    } else {
                        assert(first_listing(regions@, i + 1, pn * gb) == i);
                        let w = choose|w: int| 0 <= w < i + 1 && #[trigger] regions@[w].base <= pn * gb
                            && pn * gb < regions@[w].base + regions@[w].size;
                        if w < i {
                            assert(listed(regions@, i as int, pn * gb));
                        }
                        assert(rb <= pn < rb + np);
                    }
                }
                assert(t.identity_flags_so_far(regions@, i + 1, 0, 0, 0));
            }
            i += 1;
        }
        proof {
            assert forall|pn: int| 0 <= pn < t.page_count() implies #[trigger] t.page_target(pn)
                == (if listed(regions@, regions@.len() as int, pn * granule_bytes(granule)) {
                    Some(pn * granule_bytes(granule))
                } else {
                    None
                }) by {
            }
            assert forall|pn: int| 0 <= pn < t.page_count() && listed(regions@, regions@.len() as int, pn * granule_bytes(granule))
                implies #[trigger] descriptor_flags(t.page_descriptor(pn)) == descriptor_flags(region_flags(
                    regions@[first_listing(regions@, regions@.len() as int, pn * granule_bytes(granule))])) by {
            }
        }
        t
    }

    /// The status of page `pn`: a block descriptor maps its pages if it is for the MMU or stands
    /// for memory in the swapfile or the executable file; a level-3 entry as it says.
    pub open spec fn page_status_spec(&self, pn: int) -> PageStatus {
        let per = leaf_entries(self.granule_spec()) as int;
        match self.branches_spec()[pn / per] {
            BranchEntry::Empty => PageStatus::Unmapped,
            BranchEntry::Block(d) => if has_flags(d, PAGE_ONE) || has_flags(d, PAGE_IN_SWAPFILE)
                || has_flags(d, PAGE_IN_EXE_FILE) {
                PageStatus::Mapped
            } else {
                PageStatus::Unmapped
            },
            BranchEntry::Table(t) => leaf_page_status_spec(t.entries_spec()[pn % per]),
        }
    }

    /// Returns the status of the page that holds `virt`.
    pub fn page_status(&self, virt: usize) -> (r: PageStatus)
        requires
            self.wf(),
            (virt as int) / (granule_bytes(self.granule_spec()) as int) < self.page_count(),
        ensures
            r == self.page_status_spec((virt as int) / (granule_bytes(self.granule_spec()) as int)),
    {
        let g = self.granule;
        let page = g.page_size();
        let per = g.leaf_entries();
        let pn = virt / page;
        proof {
            lemma_granule_shape(g);
            assert(pn / per < self.branches@.len()) by (nonlinear_arith)
                requires pn < self.branches@.len() * per, per > 0;
        }
        match &self.branches[pn / per] {
            BranchEntry::Empty => PageStatus::Unmapped,
            BranchEntry::Block(d) => {
                if *d & PAGE_ONE == PAGE_ONE || *d & PAGE_IN_SWAPFILE == PAGE_IN_SWAPFILE
                    || *d & PAGE_IN_EXE_FILE == PAGE_IN_EXE_FILE {
                    PageStatus::Mapped
                } else {
                    PageStatus::Unmapped
                }
            },
            BranchEntry::Table(t) => {
                let e = t.entry(pn % per);
                if e & (PAGE_ONE | PAGE_LEVEL_3) == PAGE_ONE | PAGE_LEVEL_3 || e & PAGE_IN_SWAPFILE == PAGE_IN_SWAPFILE
                    || e & PAGE_IN_EXE_FILE == PAGE_IN_EXE_FILE {
                    PageStatus::Mapped
                } else if e == UNMAPPED {
                    PageStatus::Unmapped
                } else {
                    PageStatus::TempUnmapped
                }
            },
        }
    }

    /// Makes a tree for the granule and exception level with `branch_count` level-2 entries, in
    /// which nothing is mapped.
    pub fn new(granule: Granule, exception_level: ExceptionLevel, branch_count: usize) -> (r: RootPageTable)
        requires
            branch_count * leaf_span(granule) <= usize::MAX,
        ensures
            r.wf(),
            r.granule_spec() == granule,
            r.exception_level_spec() == exception_level,
            r.branches_spec().len() == branch_count,
            forall|pn: int| 0 <= pn < r.page_count() ==> #[trigger] r.page_free(pn),
    {
        let mut branches: Vec<BranchEntry> = Vec::new();
        let mut i: usize = 0;
        while i < branch_count
            invariant
                i <= branch_count,
                branches@.len() == i,
                forall|j: int| 0 <= j < i ==> #[trigger] branches@[j] is Empty,
            decreases branch_count - i,
        {
            branches.push(BranchEntry::Empty);
            i += 1;
        }
        let r = RootPageTable { granule, exception_level, branches };
        proof {
            lemma_granule_shape(granule);
            assert(r.page_count() * granule_bytes(granule) == branch_count * leaf_span(granule)) by (nonlinear_arith)
                requires r.page_count() == branch_count * leaf_entries(granule),
                    leaf_span(granule) == granule_bytes(granule) * leaf_entries(granule);
            assert forall|pn: int| 0 <= pn < r.page_count() implies #[trigger] r.page_free(pn) by {
                let per = leaf_entries(granule) as int;
                assert(0 <= pn / per < branch_count) by (nonlinear_arith)
                    requires 0 <= pn < branch_count * per, per > 0;
            }
        }
        r
    }

    /// Makes a tree for a userspace process (exception level 0) with the granule and
    /// `branch_count` level-2 entries, in which nothing is mapped.
    pub fn new_userspace(granule: Granule, branch_count: usize) -> (r: RootPageTable)
        requires
            branch_count * leaf_span(granule) <= usize::MAX,
        ensures
            r.wf(),
            r.granule_spec() == granule,
            r.exception_level_spec() == ExceptionLevel::El0,
            r.branches_spec().len() == branch_count,
            forall|pn: int| 0 <= pn < r.page_count() ==> #[trigger] r.page_free(pn),
    {
        Self::new(granule, ExceptionLevel::El0, branch_count)
    }
}

} // verus!
