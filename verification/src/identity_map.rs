//! The regions of physical memory that the kernel identity-maps when it sets up its translation
//! tables at boot: the ROM and RAM of the memory map, shrunk to whole pages, the kernel's own
//! sections, and the whole address space as device memory behind them. A byte listed in two or
//! more regions belongs to the first of them.

use vstd::prelude::*;
use crate::memory_map::{MemoryMap, Region, RegionType};
use crate::slab::is_power_of_two;

verus! {

/// The set of other observers with which the hardware keeps a page consistent.
#[derive(Debug, Clone, Copy, PartialEq, Eq, Structural)]
pub enum ShareabilityDomain {
    /// Only one observer (such as one CPU core) ever sees the page.
    NonShareable,
    /// Observers in a tight, implementation-defined cluster.
    Inner,
    /// All observers.
    Outer,
}

/// One region to identity-map: `size` bytes from `base`, of the given type and shareability.
#[derive(Debug, Clone, Copy, PartialEq, Eq, Structural)]
pub struct IdentityRegion {
    pub base: usize,
    pub size: usize,
    pub region_type: RegionType,
    pub shareability: ShareabilityDomain,
}

/// Where the linker put the kernel's sections: its read-only part, its read-write part that all
/// CPUs share, and its read-write part that each CPU keeps to itself. Each end is the first address
/// after the section.
#[derive(Debug, Clone, Copy)]
pub struct KernelSections {
    pub readonly_start: usize,
    pub readonly_end: usize,
    pub rw_shareable_start: usize,
    pub rw_shareable_end: usize,
    pub rw_nonshareable_start: usize,
    pub rw_nonshareable_end: usize,
}

/// `addr` rounded up to a multiple of the power of two `page_size`.
pub open spec fn round_up_spec(addr: usize, page_size: usize) -> usize {
    ((addr + (page_size - 1)) as usize) & !((page_size - 1) as usize)
}

/// The region `r` shrunk to the whole pages it covers: from its base rounded up to a page boundary,
/// for the bytes to its end (computed with wrapping arithmetic) rounded down to whole pages.
pub open spec fn padded_size_spec(r: Region, page_size: usize) -> usize {
    r.base.wrapping_add(r.size).wrapping_sub(round_up_spec(r.base, page_size)) & !((page_size - 1) as usize)
}

/// The present regions of type `region_type` among `s`, in order, each shrunk to the whole pages it
/// covers and dropped if that leaves nothing.
pub open spec fn padded_regions_spec(s: Seq<Region>, region_type: RegionType, page_size: usize) -> Seq<IdentityRegion>
    decreases s.len(),
{
    if s.len() == 0 {
        Seq::empty()
    } else {
        let rest = padded_regions_spec(s.drop_last(), region_type, page_size);
        let r = s.last();
        let size = padded_size_spec(r, page_size);
        if r.present && r.region_type == region_type && size != 0 {
            rest.push(IdentityRegion {
                base: round_up_spec(r.base, page_size),
                size,
                region_type,
                shareability: ShareabilityDomain::Outer,
            })
        } else {
            rest
        }
    }
}

/// The size of the kernel section from `start` to `end`, rounded up to whole pages.
pub open spec fn section_size_spec(start: usize, end: usize, page_size: usize) -> usize {
    ((end - start + (page_size - 1)) as usize) & !((page_size - 1) as usize)
}

/// The one region `(base, size)` if it is not empty, else nothing.
pub open spec fn nonempty_region(
    base: usize,
    size: usize,
    region_type: RegionType,
    shareability: ShareabilityDomain,
) -> Seq<IdentityRegion> {
    if size == 0 {
        Seq::empty()
    } else {
        seq![IdentityRegion { base, size, region_type, shareability }]
    }
}

/// The size of the address space that is mapped as device memory: `1 << max_virt_bits` bytes
/// with a 64-kiB granule, else at most 256 TiB.
pub open spec fn device_space_size_spec(page_size: usize, max_virt_bits: u8) -> usize {
    if page_size == 0x1_0000 {
        1usize << max_virt_bits
    } else if max_virt_bits < 48 {
        1usize << max_virt_bits
    } else {
        1usize << 48u8
    }
}

// The sizes of address spaces of 48 to 52 bits, on a machine whose `usize` holds them.
proof fn lemma_address_space_sizes(bits: u8)
    by (bit_vector)
    requires
        48u8 <= bits <= 52u8,
        (bits as u32) < usize::BITS,
    ensures
        (1usize << 48u8) as u64 == 0x1_0000_0000_0000u64,
        (1usize << bits) as u64 >= 0x1_0000_0000_0000u64,
{
}

/// The last region the kernel identity-maps is the address space as device memory: with a 64-kiB
/// granule the whole `max_virt_bits`-bit address space, and with a smaller granule, whose tables
/// translate no more than 48 bits, exactly its first 256 TiB (`1 << 48` bytes).
pub proof fn lemma_device_space_within_granule_reach(
    regions: Seq<Region>,
    k: KernelSections,
    page_size: usize,
    max_virt_bits: u8,
)
    requires
        48 <= max_virt_bits <= 52,
        (max_virt_bits as u32) < usize::BITS,
    ensures
        ({
            let m = identity_map_spec(regions, k, page_size, max_virt_bits);
            let last = m[m.len() - 1];
            &&& m.len() > 0
            &&& last.base == 0
            &&& last.region_type == RegionType::Mmio
            &&& last.shareability == ShareabilityDomain::Outer
            &&& page_size != 0x1_0000 ==> last.size as u64 == 0x1_0000_0000_0000u64
            &&& page_size == 0x1_0000 ==> last.size == 1usize << max_virt_bits
                && last.size as u64 >= 0x1_0000_0000_0000u64
        }),
{
    lemma_address_space_sizes(max_virt_bits);
    let m = identity_map_spec(regions, k, page_size, max_virt_bits);
    let d = device_space_size_spec(page_size, max_virt_bits);
    assert(d > 0);
    let dev = nonempty_region(0, d, RegionType::Mmio, ShareabilityDomain::Outer);
    assert(dev == seq![IdentityRegion { base: 0, size: d, region_type: RegionType::Mmio, shareability: ShareabilityDomain::Outer }]);
    assert(m[m.len() - 1] == dev[0]);
}

/// The regions to identity-map, in order: the ROM of the memory map, the kernel's read-only section
/// as ROM, its shareable and non-shareable read-write sections as RAM, the RAM of the memory map,
/// and the whole address space as device memory.
pub open spec fn identity_map_spec(
    regions: Seq<Region>,
    k: KernelSections,
    page_size: usize,
    max_virt_bits: u8,
) -> Seq<IdentityRegion> {
    padded_regions_spec(regions, RegionType::Rom, page_size)
        + nonempty_region(k.readonly_start, section_size_spec(k.readonly_start, k.readonly_end, page_size),
            RegionType::Rom, ShareabilityDomain::Outer)
        + nonempty_region(k.rw_shareable_start,
            section_size_spec(k.rw_shareable_start, k.rw_shareable_end, page_size),
            RegionType::Ram, ShareabilityDomain::Outer)
        + nonempty_region(k.rw_nonshareable_start,
            section_size_spec(k.rw_nonshareable_start, k.rw_nonshareable_end, page_size),
            RegionType::Ram, ShareabilityDomain::NonShareable)
        + padded_regions_spec(regions, RegionType::Ram, page_size)
        + nonempty_region(0, device_space_size_spec(page_size, max_virt_bits), RegionType::Mmio,
            ShareabilityDomain::Outer)
}

/// Whether the kernel section from `start` to `end` starts on a page boundary, does not end before
/// it starts, and its size rounded up to whole pages fits in the address space.
pub open spec fn section_ok(start: usize, end: usize, page_size: usize) -> bool {
    &&& start % page_size == 0
    &&& start <= end
    &&& end - start + (page_size - 1) <= usize::MAX
}

/// Whether the kernel's sections are laid out as the boot code requires: each section is valid and
/// both read-write sections start after the end of the read-only one (rounded up to whole pages).
pub open spec fn sections_ok(k: KernelSections, page_size: usize) -> bool {
    &&& section_ok(k.readonly_start, k.readonly_end, page_size)
    &&& section_ok(k.rw_shareable_start, k.rw_shareable_end, page_size)
    &&& section_ok(k.rw_nonshareable_start, k.rw_nonshareable_end, page_size)
    &&& k.readonly_start + section_size_spec(k.readonly_start, k.readonly_end, page_size) <= k.rw_shareable_start
    &&& k.readonly_start + section_size_spec(k.readonly_start, k.readonly_end, page_size)
        <= k.rw_nonshareable_start
}

/// Whether rounding the base of every present region of type `region_type` among `s` up to a page
/// boundary stays within the address space.
pub open spec fn bases_round_up(s: Seq<Region>, region_type: RegionType, page_size: usize) -> bool {
    forall|i: int| 0 <= i < s.len() && (#[trigger] s[i]).present && s[i].region_type == region_type
        ==> s[i].base + (page_size - 1) <= usize::MAX
}

// Appends to `out` the present regions of `map` of type `region_type`, shrunk to whole pages.
fn push_padded_regions(out: &mut Vec<IdentityRegion>, map: &MemoryMap, region_type: RegionType, page_size: usize)
    requires
        page_size > 0,
        bases_round_up(map@, region_type, page_size),
    ensures
        final(out)@ == old(out)@ + padded_regions_spec(map@, region_type, page_size),
{
    let regions = map.regions();
    let ghost start = out@;
    let mut i: usize = 0;
    while i < regions.len()
        invariant
            i <= regions@.len(),
            regions@ == map@,
            page_size > 0,
            bases_round_up(map@, region_type, page_size),
            out@ == start + padded_regions_spec(map@.take(i as int), region_type, page_size),
        decreases regions@.len() - i,
    {
        let r = regions[i];
        proof {
            assert(map@.take(i + 1 as int).drop_last() == map@.take(i as int));
            assert(map@.take(i + 1 as int).last() == r);
        }
        if r.present && r.region_type == region_type {
            assert(map@[i as int] == r);
            let padded_base = (r.base + (page_size - 1)) & !(page_size - 1);
            let padded_size = r.base.wrapping_add(r.size).wrapping_sub(padded_base) & !(page_size - 1);
            if padded_size != 0 {
                out.push(IdentityRegion {
                    base: padded_base,
                    size: padded_size,
                    region_type,
                    shareability: ShareabilityDomain::Outer,
                });
            }
        }
        i += 1;
        proof {
            assert(out@ =~= start + padded_regions_spec(map@.take(i as int), region_type, page_size));
        }
    }
    proof {
        assert(map@.take(regions@.len() as int) == map@);
    }
}

// The size of the kernel section from `start` to `end`, rounded up to whole pages.
fn section_size(start: usize, end: usize, page_size: usize) -> (r: usize)
    requires
        page_size > 0,
        start <= end,
        end - start + (page_size - 1) <= usize::MAX,
    ensures
        r == section_size_spec(start, end, page_size),
{
    (end - start + (page_size - 1)) & !(page_size - 1)
}

/// Lists the regions to identity-map in the kernel's translation tables: the ROM of the memory
/// map, the kernel's read-only section as ROM, its shareable and non-shareable read-write sections
/// as RAM, the RAM of the memory map (the ROM and RAM regions shrunk to the whole pages they cover),
/// and then the whole address space as device memory, so that whatever no earlier region claims is
/// mapped uncacheable. The page size must be a power of two, a virtual address must have 48 to 52
/// bits, and the kernel's sections must start on page boundaries, with the read-write ones after
/// the read-only one.
pub fn identity_map_regions(map: &MemoryMap, sections: &KernelSections, page_size: usize, max_virt_bits: u8)
    -> (r: Vec<IdentityRegion>)
    requires
        is_power_of_two(page_size),
        48 <= max_virt_bits <= 52,
        (max_virt_bits as u32) < usize::BITS,
        bases_round_up(map@, RegionType::Rom, page_size),
        bases_round_up(map@, RegionType::Ram, page_size),
        sections_ok(*sections, page_size),
    ensures
        r@ == identity_map_spec(map@, *sections, page_size, max_virt_bits),
{
    let mut regions: Vec<IdentityRegion> = Vec::new();

    // The system's ROM. A region that doesn't start or end at a page boundary is shrunk; the part
    // left out is mapped as device memory.
    push_padded_regions(&mut regions, map, RegionType::Rom, page_size);
    let ghost rom = regions@;

    // The kernel's read-only part is mapped like ROM and its read-write parts like RAM, whatever the
    // memory map says.
    let ro_base = sections.readonly_start;
    let ro_size = section_size(ro_base, sections.readonly_end, page_size);
    if ro_size != 0 {
        regions.push(IdentityRegion {
            base: ro_base,
            size: ro_size,
            region_type: RegionType::Rom,
            shareability: ShareabilityDomain::Outer,
        });
    }
    let ghost with_ro = regions@;
    let rw_base = sections.rw_shareable_start;
    let rw_size = section_size(rw_base, sections.rw_shareable_end, page_size);
    if rw_size != 0 {
        regions.push(IdentityRegion {
            base: rw_base,
            size: rw_size,
            region_type: RegionType::Ram,
            shareability: ShareabilityDomain::Outer,
        });
    }
    let ghost with_rw = regions@;
    let nonshareable_base = sections.rw_nonshareable_start;
    let nonshareable_size = section_size(nonshareable_base, sections.rw_nonshareable_end, page_size);
    if nonshareable_size != 0 {
        regions.push(IdentityRegion {
            base: nonshareable_base,
            size: nonshareable_size,
            region_type: RegionType::Ram,
            shareability: ShareabilityDomain::NonShareable,
        });
    }
    let ghost with_ns = regions@;

    // The rest of the system's RAM.
    push_padded_regions(&mut regions, map, RegionType::Ram, page_size);
    let ghost with_ram = regions@;

    // Device memory, which also works for RAM but prevents caching.
    let bits: u8 = if page_size == 0x1_0000 || max_virt_bits < 48 { max_virt_bits } else { 48 };
    let addr_space_size = 1usize << bits;
    if addr_space_size != 0 {
        regions.push(IdentityRegion {
            base: 0,
            size: addr_space_size,
            region_type: RegionType::Mmio,
            shareability: ShareabilityDomain::Outer,
        });
    }
    proof {
        let k = *sections;
        assert(rom == padded_regions_spec(map@, RegionType::Rom, page_size));
        assert(with_ro =~= rom + nonempty_region(k.readonly_start,
            section_size_spec(k.readonly_start, k.readonly_end, page_size), RegionType::Rom, ShareabilityDomain::Outer));
        assert(with_rw =~= with_ro + nonempty_region(k.rw_shareable_start,
            section_size_spec(k.rw_shareable_start, k.rw_shareable_end, page_size), RegionType::Ram,
            ShareabilityDomain::Outer));
        assert(with_ns =~= with_rw + nonempty_region(k.rw_nonshareable_start,
            section_size_spec(k.rw_nonshareable_start, k.rw_nonshareable_end, page_size), RegionType::Ram,
            ShareabilityDomain::NonShareable));
        assert(regions@ =~= with_ram + nonempty_region(0, device_space_size_spec(page_size, max_virt_bits),
            RegionType::Mmio, ShareabilityDomain::Outer));
    }
    regions
}

} // verus!
