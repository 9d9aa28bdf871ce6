use phoenix::identity_map::{IdentityRegion, ShareabilityDomain};
use phoenix::memory_map::RegionType;
use phoenix::page_table::Granule;
use phoenix::paging::{ExceptionLevel, PageStatus, PagingConfig};
use phoenix::root_table::{branch_step, BranchStep, RootPageTable};

fn config() -> PagingConfig {
    PagingConfig { page_size: 0x1000, max_phys_bits: 48, max_virt_bits: 48 }
}

// A tree with two level-2 entries: 4 MiB of virtual memory in 4-kiB pages.
fn tree() -> RootPageTable {
    RootPageTable::new(Granule::K4, ExceptionLevel::El1, 2)
}

#[test]
fn map_at_a_given_base_translates_each_page() {
    let mut t = tree();
    assert_eq!(t.pages(), 1024);
    assert_eq!(t.map(0x4000_0000, Some(0x3000), 0x2000, RegionType::Ram, &config()), Ok(0x3000));
    assert_eq!(t.translate(0x3000), Some(0x4000_0000));
    assert_eq!(t.translate(0x4abc), Some(0x4000_1000));
    assert_eq!(t.translate(0x2000), None);
    assert_eq!(t.translate(0x5000), None);
}

#[test]
fn map_over_a_mapped_page_fails_and_maps_nothing() {
    let mut t = tree();
    assert_eq!(t.map(0x4000_0000, Some(0x3000), 0x2000, RegionType::Ram, &config()), Ok(0x3000));
    assert_eq!(t.map(0x5000_0000, Some(0x4000), 0x3000, RegionType::Mmio, &config()), Err(()));
    assert_eq!(t.translate(0x4000), Some(0x4000_1000));
    assert_eq!(t.translate(0x5000), None);
    assert_eq!(t.translate(0x6000), None);
}

#[test]
fn map_outside_the_tree_fails() {
    let mut t = tree();
    assert_eq!(t.map(0x4000_0000, Some(0x40_0000), 0x1000, RegionType::Ram, &config()), Err(()));
    assert_eq!(t.map(0x4000_0000, Some(0x3f_f000), 0x2000, RegionType::Ram, &config()), Err(()));
}

#[test]
fn map_without_a_base_takes_the_first_free_range_after_the_zero_page() {
    let mut t = tree();
    assert_eq!(t.map(0x4000_0000, Some(0x3000), 0x1000, RegionType::Ram, &config()), Ok(0x3000));
    assert_eq!(t.map(0x4100_0000, None, 0x1000, RegionType::Ram, &config()), Ok(0x1000));
    // Pages 2 and 3 do not both fit before page 3, which is taken.
    assert_eq!(t.map(0x4200_0000, None, 0x2000, RegionType::Ram, &config()), Ok(0x4000));
    assert_eq!(t.translate(0x1000), Some(0x4100_0000));
    assert_eq!(t.translate(0x5000), Some(0x4200_1000));
    assert_eq!(t.translate(0x2000), None);
    assert_eq!(t.translate(0), None);
}

#[test]
fn map_without_a_base_fails_when_nothing_fits() {
    let mut t = RootPageTable::new(Granule::K4, ExceptionLevel::El0, 1);
    assert_eq!(t.map(0x4000_0000, None, 0x20_0000, RegionType::Ram, &config()), Err(()));
    assert_eq!(t.map(0x4000_0000, None, 0x1f_f000, RegionType::Ram, &config()), Ok(0x1000));
    assert_eq!(t.map(0x4000_0000, None, 0x1000, RegionType::Ram, &config()), Err(()));
}

#[test]
fn map_of_a_whole_aligned_block_translates_through_it() {
    let mut t = tree();
    assert_eq!(t.map(0x4020_0000, Some(0x20_0000), 0x20_0000, RegionType::Ram, &config()), Ok(0x20_0000));
    assert_eq!(t.translate(0x20_0000), Some(0x4020_0000));
    assert_eq!(t.translate(0x3f_f123), Some(0x403f_f000));
    assert_eq!(t.map(0x5000_0000, Some(0x25_0000), 0x1000, RegionType::Ram, &config()), Err(()));
}

#[test]
fn branch_step_chooses_blocks_only_where_they_fit() {
    assert_eq!(branch_step(false, 0x20_0000, 0x40_0000, 0x40_0000, 0x20_0000, true), BranchStep::Block);
    assert_eq!(branch_step(true, 0x20_0000, 0x40_0000, 0x40_0000, 0x20_0000, true), BranchStep::Subtable(0x20_0000));
    assert_eq!(branch_step(false, 0x20_0000, 0x40_0000, 0x40_0000, 0x20_0000, false), BranchStep::Subtable(0x20_0000));
    assert_eq!(branch_step(false, 0x20_1000, 0x40_1000, 0x80_0000, 0x20_0000, true), BranchStep::Subtable(0x1f_f000));
    assert_eq!(branch_step(false, 0x20_0000, 0x40_0000, 0x20_3000, 0x20_0000, true), BranchStep::Subtable(0x3000));
}

#[test]
fn unmap_undoes_map() {
    let mut t = tree();
    assert_eq!(t.map(0x4000_0000, Some(0x3000), 0x2000, RegionType::Ram, &config()), Ok(0x3000));
    t.unmap(0x3000, 0x2000);
    assert_eq!(t.translate(0x3000), None);
    assert_eq!(t.translate(0x4000), None);
    assert_eq!(t.map(0x5000_0000, Some(0x3000), 0x2000, RegionType::Ram, &config()), Ok(0x3000));
    assert_eq!(t.translate(0x4000), Some(0x5000_1000));
}

#[test]
fn unmap_leaves_other_pages_mapped() {
    let mut t = tree();
    assert_eq!(t.map(0x4000_0000, Some(0x3000), 0x3000, RegionType::Ram, &config()), Ok(0x3000));
    t.unmap(0x4000, 0x1000);
    assert_eq!(t.translate(0x3000), Some(0x4000_0000));
    assert_eq!(t.translate(0x4000), None);
    assert_eq!(t.translate(0x5000), Some(0x4000_2000));
}

#[test]
fn unmap_of_part_of_a_block_frees_the_whole_block() {
    let mut t = tree();
    assert_eq!(t.map(0x4020_0000, Some(0x20_0000), 0x20_0000, RegionType::Ram, &config()), Ok(0x20_0000));
    t.unmap(0x21_0000, 0x1000);
    assert_eq!(t.translate(0x20_0000), None);
    assert_eq!(t.translate(0x3f_f000), None);
}

#[test]
fn identity_map_maps_each_listed_page_to_itself() {
    let regions = vec![
        IdentityRegion { base: 0x1000, size: 0x2000, region_type: RegionType::Ram, shareability: ShareabilityDomain::Inner },
        IdentityRegion { base: 0x20_0000, size: 0x20_0000, region_type: RegionType::Mmio, shareability: ShareabilityDomain::Outer },
    ];
    let t = RootPageTable::identity_map(Granule::K4, 2, &regions, &config());
    assert_eq!(t.translate(0x1000), Some(0x1000));
    assert_eq!(t.translate(0x2abc), Some(0x2000));
    assert_eq!(t.translate(0x3000), None);
    assert_eq!(t.translate(0), None);
    assert_eq!(t.translate(0x20_0000), Some(0x20_0000));
    assert_eq!(t.translate(0x3f_f000), Some(0x3f_f000));
}

#[test]
fn identity_map_keeps_the_first_region_of_a_page() {
    let regions = vec![
        IdentityRegion { base: 0x2000, size: 0x1000, region_type: RegionType::Rom, shareability: ShareabilityDomain::NonShareable },
        IdentityRegion { base: 0, size: 0x40_0000, region_type: RegionType::Mmio, shareability: ShareabilityDomain::Outer },
    ];
    let mut t = RootPageTable::identity_map(Granule::K4, 2, &regions, &config());
    assert_eq!(t.translate(0x2000), Some(0x2000));
    assert_eq!(t.translate(0x1000), Some(0x1000));
    assert_eq!(t.translate(0x3f_f000), Some(0x3f_f000));
    // Everything is mapped, so nothing more fits.
    assert_eq!(t.map(0x5000_0000, None, 0x1000, RegionType::Ram, &config()), Err(()));
}

#[test]
fn page_status_follows_map_and_unmap() {
    let mut t = tree();
    assert_eq!(t.page_status(0x3000), PageStatus::Unmapped);
    assert_eq!(t.map(0x4000_0000, Some(0x3000), 0x1000, RegionType::Ram, &config()), Ok(0x3000));
    assert_eq!(t.page_status(0x3000), PageStatus::Mapped);
    assert_eq!(t.page_status(0x4000), PageStatus::Unmapped);
    assert_eq!(t.map(0x4020_0000, Some(0x20_0000), 0x20_0000, RegionType::Ram, &config()), Ok(0x20_0000));
    assert_eq!(t.page_status(0x30_0000), PageStatus::Mapped);
    t.unmap(0x3000, 0x1000);
    assert_eq!(t.page_status(0x3000), PageStatus::Unmapped);
}

#[test]
fn userspace_tables_start_empty() {
    let mut t = RootPageTable::new_userspace(Granule::K4, 1);
    assert_eq!(t.granule(), Granule::K4);
    assert_eq!(t.pages(), 512);
    assert_eq!(t.page_status(0x5000), PageStatus::Unmapped);
    assert_eq!(t.translate(0x5000), None);
    assert_eq!(t.map(0x4000_0000, Some(0x5000), 0x1000, RegionType::Ram, &config()), Ok(0x5000));
    assert_eq!(t.translate(0x5000), Some(0x4000_0000));
}
