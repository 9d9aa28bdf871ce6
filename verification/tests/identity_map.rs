use phoenix::identity_map::{identity_map_regions, IdentityRegion, KernelSections, ShareabilityDomain};
use phoenix::memory_map::{MemoryMap, RegionType};

fn region(base: usize, size: usize, region_type: RegionType, shareability: ShareabilityDomain) -> IdentityRegion {
    IdentityRegion { base, size, region_type, shareability }
}

fn sections() -> KernelSections {
    KernelSections {
        readonly_start: 0x4008_0000,
        readonly_end: 0x4008_1234,
        rw_shareable_start: 0x4009_0000,
        rw_shareable_end: 0x4009_0800,
        rw_nonshareable_start: 0x400a_0000,
        rw_nonshareable_end: 0x400a_0000,
    }
}

#[test]
fn kernel_identity_map_lists_rom_kernel_ram_then_devices() {
    let mut map = MemoryMap::new();
    map.add_region(0, 0x1800, RegionType::Rom, false).unwrap();
    map.add_region(0x4000_0000, 0x1000_0000, RegionType::Ram, false).unwrap();
    let regions = identity_map_regions(&map, &sections(), 0x1000, 48);
    assert_eq!(regions, vec![
        region(0, 0x1000, RegionType::Rom, ShareabilityDomain::Outer),
        region(0x4008_0000, 0x2000, RegionType::Rom, ShareabilityDomain::Outer),
        region(0x4009_0000, 0x1000, RegionType::Ram, ShareabilityDomain::Outer),
        region(0x4000_0000, 0x1000_0000, RegionType::Ram, ShareabilityDomain::Outer),
        region(0, 1 << 48, RegionType::Mmio, ShareabilityDomain::Outer),
    ]);
}

#[test]
fn identity_map_with_64k_pages_covers_every_virtual_bit() {
    let map = MemoryMap::new();
    let k = KernelSections {
        readonly_start: 0x4000_0000,
        readonly_end: 0x4000_0010,
        rw_shareable_start: 0x4001_0000,
        rw_shareable_end: 0x4001_0000,
        rw_nonshareable_start: 0x4002_0000,
        rw_nonshareable_end: 0x4002_0001,
    };
    let regions = identity_map_regions(&map, &k, 0x1_0000, 52);
    assert_eq!(regions, vec![
        region(0x4000_0000, 0x1_0000, RegionType::Rom, ShareabilityDomain::Outer),
        region(0x4002_0000, 0x1_0000, RegionType::Ram, ShareabilityDomain::NonShareable),
        region(0, 1 << 52, RegionType::Mmio, ShareabilityDomain::Outer),
    ]);
}

#[test]
fn identity_map_rom_within_one_page_wraps_its_size() {
    // A ROM region that lies inside one page ends before its base rounded up to the next page, and
    // the size is computed with wrapping arithmetic.
    let mut map = MemoryMap::new();
    map.add_region(0x1001, 0x10, RegionType::Rom, false).unwrap();
    let regions = identity_map_regions(&map, &sections(), 0x1000, 48);
    assert_eq!(regions[0], region(0x2000, usize::MAX & !0xfff, RegionType::Rom, ShareabilityDomain::Outer));
    assert_eq!(regions.len(), 4);
}
