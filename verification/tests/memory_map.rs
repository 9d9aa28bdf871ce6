use phoenix::memory_map::{phys_addr_bits_from_mmfr0, MemoryMap, Region, RegionType};

#[test]
fn empty_memory_map() {
    let map = MemoryMap::new();
    println!("map = {:?}", map);
    assert_eq!(map.present_regions().into_iter().next(), None);
}

#[test]
fn too_many_regions() {
    let mut map = MemoryMap::new();
    let mut i = 0;
    while i < 64 {
        if map.add_region(i * 2, 1, RegionType::Ram, false).is_err() {
            panic!("memory map ran out of room after only {} regions were added", i);
        }
        i += 1;
    }
    println!("map = {:?}", map);

    let mut regions = map.present_regions().into_iter();
    let mut j = 0;
    while j < 64 {
        assert_eq!(regions.next(), Some(Region { base: j * 2, size: 1, hotpluggable: false, present: true, region_type: RegionType::Ram }));
        j += 1;
    }
    assert_eq!(regions.next(), None);

    if map.add_region(i * 2, 1, RegionType::Ram, false).is_ok() {
        panic!("memory map did not return an error after {} regions were added; map = {:?}", i, map);
    }
}

#[test]
fn one_region() {
    let mut map = MemoryMap::new();
    map.add_region(0x4000_0000, 0x3f_c000_0000, RegionType::Ram, false).unwrap();
    println!("map = {:?}", map);

    let mut regions = map.present_regions().into_iter();
    assert_eq!(regions.next(), Some(Region { base: 0x4000_0000, size: 0x3f_c000_0000, hotpluggable: false, present: true, region_type: RegionType::Ram }));
    assert_eq!(regions.next(), None);
}

#[test]
fn one_region_hotpluggable() {
    let mut map = MemoryMap::new();
    map.add_region(0x4000_0000, 0x3f_c000_0000, RegionType::Ram, true).unwrap();
    println!("map = {:?}", map);

    let mut regions = map.present_regions().into_iter();
    assert_eq!(regions.next(), None);
}

#[test]
fn two_regions() {
    let mut map = MemoryMap::new();
    map.add_region(0x0, 0x8000_0000, RegionType::Ram, false).unwrap();
    map.add_region(0x1_0000_0000, 0x1_0000_0000, RegionType::Ram, false).unwrap();
    println!("map = {:?}", map);

    let mut regions = map.present_regions().into_iter();
    assert_eq!(regions.next(), Some(Region { base: 0x0, size: 0x8000_0000, hotpluggable: false, present: true, region_type: RegionType::Ram }));
    assert_eq!(regions.next(), Some(Region { base: 0x1_0000_0000, size: 0x1_0000_0000, hotpluggable: false, present: true, region_type: RegionType::Ram }));
    assert_eq!(regions.next(), None);
}

#[test]
fn two_regions_reversed() {
    let mut map = MemoryMap::new();
    map.add_region(0x1_0000_0000, 0x1_0000_0000, RegionType::Ram, false).unwrap();
    map.add_region(0x0, 0x8000_0000, RegionType::Ram, false).unwrap();
    println!("map = {:?}", map);

    let mut regions = map.present_regions().into_iter();
    assert_eq!(regions.next(), Some(Region { base: 0x0, size: 0x8000_0000, hotpluggable: false, present: true, region_type: RegionType::Ram }));
    assert_eq!(regions.next(), Some(Region { base: 0x1_0000_0000, size: 0x1_0000_0000, hotpluggable: false, present: true, region_type: RegionType::Ram }));
    assert_eq!(regions.next(), None);
}

#[test]
fn three_regions_adjacent_123() {
    let mut map = MemoryMap::new();
    map.add_region(0x0, 0x8000_0000, RegionType::Ram, false).unwrap();
    map.add_region(0x8000_0000, 0x8000_0000, RegionType::Ram, false).unwrap();
    map.add_region(0x1_0000_0000, 0x1_0000_0000, RegionType::Ram, false).unwrap();
    println!("map = {:?}", map);

    let mut regions = map.present_regions().into_iter();
    assert_eq!(regions.next(), Some(Region { base: 0x0, size: 0x2_0000_0000, hotpluggable: false, present: true, region_type: RegionType::Ram }));
    assert_eq!(regions.next(), None);
}

#[test]
fn three_regions_adjacent_132() {
    let mut map = MemoryMap::new();
    map.add_region(0x0, 0x8000_0000, RegionType::Ram, false).unwrap();
    map.add_region(0x1_0000_0000, 0x1_0000_0000, RegionType::Ram, false).unwrap();
    map.add_region(0x8000_0000, 0x8000_0000, RegionType::Ram, false).unwrap();
    println!("map = {:?}", map);

    let mut regions = map.present_regions().into_iter();
    assert_eq!(regions.next(), Some(Region { base: 0x0, size: 0x2_0000_0000, hotpluggable: false, present: true, region_type: RegionType::Ram }));
    assert_eq!(regions.next(), None);
}

#[test]
fn three_regions_adjacent_213() {
    let mut map = MemoryMap::new();
    map.add_region(0x8000_0000, 0x8000_0000, RegionType::Ram, false).unwrap();
    map.add_region(0x0, 0x8000_0000, RegionType::Ram, false).unwrap();
    map.add_region(0x1_0000_0000, 0x1_0000_0000, RegionType::Ram, false).unwrap();
    println!("map = {:?}", map);

    let mut regions = map.present_regions().into_iter();
    assert_eq!(regions.next(), Some(Region { base: 0x0, size: 0x2_0000_0000, hotpluggable: false, present: true, region_type: RegionType::Ram }));
    assert_eq!(regions.next(), None);
}

#[test]
fn three_regions_adjacent_231() {
    let mut map = MemoryMap::new();
    map.add_region(0x8000_0000, 0x8000_0000, RegionType::Ram, false).unwrap();
    map.add_region(0x1_0000_0000, 0x1_0000_0000, RegionType::Ram, false).unwrap();
    map.add_region(0x0, 0x8000_0000, RegionType::Ram, false).unwrap();
    println!("map = {:?}", map);

    let mut regions = map.present_regions().into_iter();
    assert_eq!(regions.next(), Some(Region { base: 0x0, size: 0x2_0000_0000, hotpluggable: false, present: true, region_type: RegionType::Ram }));
    assert_eq!(regions.next(), None);
}

#[test]
fn three_regions_adjacent_312() {
    let mut map = MemoryMap::new();
    map.add_region(0x1_0000_0000, 0x1_0000_0000, RegionType::Ram, false).unwrap();
    map.add_region(0x0, 0x8000_0000, RegionType::Ram, false).unwrap();
    map.add_region(0x8000_0000, 0x8000_0000, RegionType::Ram, false).unwrap();
    println!("map = {:?}", map);

    let mut regions = map.present_regions().into_iter();
    assert_eq!(regions.next(), Some(Region { base: 0x0, size: 0x2_0000_0000, hotpluggable: false, present: true, region_type: RegionType::Ram }));
    assert_eq!(regions.next(), None);
}

#[test]
fn three_regions_adjacent_321() {
    let mut map = MemoryMap::new();
    map.add_region(0x1_0000_0000, 0x1_0000_0000, RegionType::Ram, false).unwrap();
    map.add_region(0x8000_0000, 0x8000_0000, RegionType::Ram, false).unwrap();
    map.add_region(0x0, 0x8000_0000, RegionType::Ram, false).unwrap();
    println!("map = {:?}", map);

    let mut regions = map.present_regions().into_iter();
    assert_eq!(regions.next(), Some(Region { base: 0x0, size: 0x2_0000_0000, hotpluggable: false, present: true, region_type: RegionType::Ram }));
    assert_eq!(regions.next(), None);
}

#[test]
fn three_regions_adjacent_123_hotpluggable() {
    let mut map = MemoryMap::new();
    map.add_region(0x0, 0x8000_0000, RegionType::Ram, false).unwrap();
    map.add_region(0x8000_0000, 0x8000_0000, RegionType::Ram, true).unwrap();
    map.add_region(0x1_0000_0000, 0x1_0000_0000, RegionType::Ram, false).unwrap();
    println!("map = {:?}", map);

    let mut regions = map.present_regions().into_iter();
    assert_eq!(regions.next(), Some(Region { base: 0x0, size: 0x8000_0000, hotpluggable: false, present: true, region_type: RegionType::Ram }));
    assert_eq!(regions.next(), Some(Region { base: 0x1_0000_0000, size: 0x1_0000_0000, hotpluggable: false, present: true, region_type: RegionType::Ram }));
    assert_eq!(regions.next(), None);
}

#[test]
fn three_regions_adjacent_321_hotpluggable() {
    let mut map = MemoryMap::new();
    map.add_region(0x1_0000_0000, 0x1_0000_0000, RegionType::Ram, false).unwrap();
    map.add_region(0x8000_0000, 0x8000_0000, RegionType::Ram, true).unwrap();
    map.add_region(0x0, 0x8000_0000, RegionType::Ram, false).unwrap();
    println!("map = {:?}", map);

    let mut regions = map.present_regions().into_iter();
    assert_eq!(regions.next(), Some(Region { base: 0x0, size: 0x8000_0000, hotpluggable: false, present: true, region_type: RegionType::Ram }));
    assert_eq!(regions.next(), Some(Region { base: 0x1_0000_0000, size: 0x1_0000_0000, hotpluggable: false, present: true, region_type: RegionType::Ram }));
    assert_eq!(regions.next(), None);
}

#[test]
fn superset_subset() {
    let mut map = MemoryMap::new();
    map.add_region(0x0, 0x1_0000_0000, RegionType::Ram, false).unwrap();
    map.add_region(0x8000_0000, 0x1000_0000, RegionType::Ram, false).unwrap();
    println!("map = {:?}", map);

    let mut regions = map.present_regions().into_iter();
    assert_eq!(regions.next(), Some(Region { base: 0x0, size: 0x1_0000_0000, hotpluggable: false, present: true, region_type: RegionType::Ram }));
    assert_eq!(regions.next(), None);
}

#[test]
fn subset_superset() {
    let mut map = MemoryMap::new();
    map.add_region(0x8000_0000, 0x1000_0000, RegionType::Ram, false).unwrap();
    map.add_region(0x0, 0x1_0000_0000, RegionType::Ram, false).unwrap();
    println!("map = {:?}", map);

    let mut regions = map.present_regions().into_iter();
    assert_eq!(regions.next(), Some(Region { base: 0x0, size: 0x1_0000_0000, hotpluggable: false, present: true, region_type: RegionType::Ram }));
    assert_eq!(regions.next(), None);
}

#[test]
fn need_non_ram_regions() {
    let mut map = MemoryMap::new();
    map.add_region(0x0, 0x1000, RegionType::Ram, false).unwrap();
    map.add_region(0x1000, 0x1000, RegionType::Rom, false).unwrap();
    map.add_region(0x800, 0x100, RegionType::Mmio, false).unwrap();

    let mut regions = map.present_regions().into_iter();
    assert_eq!(regions.next(), Some(Region { base: 0x0, size: 0x1000, hotpluggable: false, present: true, region_type: RegionType::Ram }));
    assert_eq!(regions.next(), Some(Region { base: 0x800, size: 0x100, hotpluggable: false, present: true, region_type: RegionType::Mmio }));
    assert_eq!(regions.next(), Some(Region { base: 0x1000, size: 0x1000, hotpluggable: false, present: true, region_type: RegionType::Rom }));
    assert_eq!(regions.next(), None);
}

#[test]
fn need_region_removal_tests() {
    let mut map = MemoryMap::new();
    map.add_region(0x0, 0x1_0000, RegionType::Ram, false).unwrap();

    // Removing a piece from the middle splits the region.
    map.remove_region(0x4000, 0x1000).unwrap();
    assert_eq!(map.present_regions(), vec![
        Region { base: 0x0, size: 0x4000, hotpluggable: false, present: true, region_type: RegionType::Ram },
        Region { base: 0x5000, size: 0xb000, hotpluggable: false, present: true, region_type: RegionType::Ram },
    ]);

    // Removing a piece that overlaps both regions' edges shortens them.
    map.remove_region(0x3000, 0x3000).unwrap();
    assert_eq!(map.present_regions(), vec![
        Region { base: 0x0, size: 0x3000, hotpluggable: false, present: true, region_type: RegionType::Ram },
        Region { base: 0x6000, size: 0xa000, hotpluggable: false, present: true, region_type: RegionType::Ram },
    ]);

    // Removing a piece that covers every region empties the map.
    map.remove_region(0x0, 0x2_0000).unwrap();
    assert_eq!(map.present_regions(), vec![]);
}

#[test]
fn regions_of_another_type_are_not_absorbed() {
    let mut map = MemoryMap::new();
    map.add_region(0x1000, 0x1000, RegionType::Ram, false).unwrap();
    map.add_region(0x3000, 0x1000, RegionType::Mmio, false).unwrap();
    map.add_region(0x2000, 0x1000, RegionType::Ram, false).unwrap();
    let regions = map.regions();
    assert_eq!(regions.len(), 2);
    assert_eq!((regions[0].base, regions[0].size, regions[0].region_type), (0x1000, 0x2000, RegionType::Ram));
    assert_eq!((regions[1].base, regions[1].size, regions[1].region_type), (0x3000, 0x1000, RegionType::Mmio));
}

#[test]
fn removal_that_cannot_split_fails() {
    let mut map = MemoryMap::new();
    for i in 1 ..= 64 {
        map.add_region(i * 0x10000, 0x1000, RegionType::Ram, false).unwrap();
    }
    assert_eq!(map.regions().len(), 64);
    assert_eq!(map.remove_region(0x10400, 0x100), Err(()));
    assert_eq!((map.regions()[0].base, map.regions()[0].size), (0x10000, 0x1000));
    // Trimming an end needs no split.
    assert_eq!(map.remove_region(0x10000, 0x100), Ok(()));
    assert_eq!((map.regions()[0].base, map.regions()[0].size), (0x10100, 0xf00));
}

#[test]
fn adding_a_region_over_others_keeps_all_of_it() {
    let mut map = MemoryMap::new();
    map.add_region(0x1000, 0x1000, RegionType::Ram, false).unwrap();
    map.add_region(0x3000, 0x1000, RegionType::Ram, false).unwrap();
    map.add_region(0x1000, 0x4000, RegionType::Ram, false).unwrap();
    let regions = map.regions();
    assert_eq!(regions.len(), 1);
    assert_eq!((regions[0].base, regions[0].size), (0x1000, 0x4000));
}

#[test]
fn adding_a_region_inside_another_keeps_the_larger_one() {
    let mut map = MemoryMap::new();
    map.add_region(0x1000, 0x8000, RegionType::Rom, false).unwrap();
    map.add_region(0x2000, 0x1000, RegionType::Rom, false).unwrap();
    let regions = map.regions();
    assert_eq!(regions.len(), 1);
    assert_eq!((regions[0].base, regions[0].size), (0x1000, 0x8000));
}

fn present(base: usize, size: usize, region_type: RegionType) -> Region {
    Region { base, size, hotpluggable: false, present: true, region_type }
}

#[test]
fn adding_regions_never_takes_present_memory_away() {
    let mut map = MemoryMap::new();
    map.add_region(0x1000, 0x2000, RegionType::Rom, false).unwrap();
    map.add_region(0x8000, 0x1000, RegionType::Ram, false).unwrap();
    // Hotpluggable memory of either type over them, and RAM over the ROM, leave both present.
    map.add_region(0x0, 0x1_0000, RegionType::Ram, true).unwrap();
    map.add_region(0x0, 0x1_0000, RegionType::Rom, true).unwrap();
    map.add_region(0x0, 0x4000, RegionType::Ram, false).unwrap();
    let regions = map.present_regions();
    assert!(regions.contains(&present(0x1000, 0x2000, RegionType::Rom)));
    assert!(regions.iter().any(|r| r.region_type == RegionType::Ram && r.base <= 0x8000 && 0x9000 <= r.base + r.size));
    // The present RAM was joined with the RAM added next to it.
    map.add_region(0x9000, 0x1000, RegionType::Ram, false).unwrap();
    assert!(map.present_regions().contains(&present(0x8000, 0x2000, RegionType::Ram)));
}

#[test]
fn physical_address_widths() {
    let widths: Vec<Option<u8>> = (0u64 .. 8).map(phys_addr_bits_from_mmfr0).collect();
    assert_eq!(widths, vec![Some(32), Some(36), Some(40), Some(42), Some(44), Some(48), Some(52), None]);
    assert_eq!(phys_addr_bits_from_mmfr0(0x1234_5675), Some(48));
    assert_eq!(phys_addr_bits_from_mmfr0(0xf), None);
}

#[test]
fn removed_memory_is_gone_from_every_region() {
    let mut map = MemoryMap::new();
    map.add_region(0x0, 0x1_0000, RegionType::Ram, false).unwrap();
    map.add_region(0x8000, 0x1_0000, RegionType::Rom, false).unwrap();
    map.add_region(0x2_0000, 0x1000, RegionType::Ram, false).unwrap();
    // The RAM region is split, the ROM region loses its front, the last region is untouched.
    map.remove_region(0x4000, 0x6000).unwrap();
    let regions = map.present_regions();
    for r in &regions {
        assert!(r.base + r.size <= 0x4000 || 0xa000 <= r.base, "{:?} overlaps the removed range", r);
    }
    assert!(regions.contains(&present(0x0, 0x4000, RegionType::Ram)));
    assert!(regions.contains(&present(0xa000, 0x6000, RegionType::Ram)));
    assert!(regions.contains(&present(0xa000, 0xe000, RegionType::Rom)));
    assert!(regions.contains(&present(0x2_0000, 0x1000, RegionType::Ram)));
}
