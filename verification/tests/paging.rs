use phoenix::memory_map::RegionType;
use phoenix::paging::{
    access_in_one_page, branch_lookup, cow_copy_size, fault_walk_step, FaultWalkStep, cow_remapped_entry, entry_address, entry_from_address, indices_64k,
    leaf_location_in_swapfile, leaf_page_status, mapping_flags, page_size, resolve_write_fault, table_walk_allows,
    trampoline, trampoline_section_mapping, trampoline_stack_ptr, trampoline_stacks_size, trampoline_stacks_virt, with_accessed_flag, BranchLookup, ExceptionLevel, PageStatus, PagingConfig,
    TrampolineLayout, TrampolineMapping, TranslationLevel, WriteFaultAction, PAGE_ACCESSED, PAGE_COW, PAGE_DBM, PAGE_EL0, PAGE_LEVEL_3,
    PAGE_NOT_DIRTY, PAGE_ONE, PAGE_PXN, PAGE_SHAREABLE, PAGE_UXN, TABLE_EL1, TABLE_ONE,
};

#[test]
fn page_size_comes_from_the_config() {
    let config = PagingConfig { page_size: 0x10000, max_phys_bits: 48, max_virt_bits: 48 };
    assert_eq!(page_size(&config), 0x10000);
}

#[test]
fn trampoline_addresses() {
    let layout = TrampolineLayout { start: 0x8_0000, end: 0x8_2000, virt: 0xffff_0000_0000, stacks_virt: 0xffff_1000_0000 };
    assert_eq!(trampoline(0x8_0010, &layout), 0xffff_0000_0010);
    assert_eq!(trampoline(0x8_0000, &layout), 0xffff_0000_0000);
    assert_eq!(trampoline_stack_ptr(&layout, 0), 0xffff_1000_0400);
    assert_eq!(trampoline_stack_ptr(&layout, 3), 0xffff_1000_1000);
}

#[test]
fn descriptor_addresses_round_trip() {
    let addr: u64 = 0x000a_1234_5678_0000;
    let e = entry_from_address(addr);
    assert_eq!(e & 0xf000, 0xa000);
    assert_eq!(entry_address(e, 64), addr);
    let small: u64 = 0x0000_1234_5678_9000;
    assert_eq!(entry_address(entry_from_address(small), 4), small);
    assert_eq!(entry_address(0xffff_ffff_ffff_ffff, 4), 0x0000_ffff_ffff_f000);
}

#[test]
fn mapping_flags_for_each_region_type() {
    let base = PAGE_NOT_DIRTY | PAGE_ONE;
    let ram0 = mapping_flags(base, Some(RegionType::Ram), ExceptionLevel::El0);
    assert_eq!(ram0, base | PAGE_UXN | PAGE_PXN | PAGE_DBM | PAGE_EL0 | PAGE_SHAREABLE);
    let cow1 = mapping_flags(base | PAGE_COW, Some(RegionType::Ram), ExceptionLevel::El1);
    assert_eq!(cow1, base | PAGE_COW | PAGE_UXN | PAGE_PXN | PAGE_ACCESSED | PAGE_SHAREABLE);
    let mmio = mapping_flags(base, Some(RegionType::Mmio), ExceptionLevel::El1);
    assert_eq!(mmio, base | 0x4 | PAGE_UXN | PAGE_ACCESSED | PAGE_SHAREABLE);
    let rom = mapping_flags(base, Some(RegionType::Rom), ExceptionLevel::El0);
    assert_eq!(rom, base | PAGE_PXN | PAGE_EL0 | PAGE_SHAREABLE);
    // A page that is not mapped for the MMU gets no extra flags.
    assert_eq!(mapping_flags(0x4, None, ExceptionLevel::El0), 0x4);
}

#[test]
fn page_status_of_leaf_descriptors() {
    assert_eq!(leaf_page_status(PAGE_ONE | PAGE_LEVEL_3), PageStatus::Mapped);
    assert_eq!(leaf_page_status(0x2), PageStatus::Mapped);
    assert_eq!(leaf_page_status(0x4), PageStatus::Mapped);
    assert_eq!(leaf_page_status(0), PageStatus::Unmapped);
    assert_eq!(leaf_page_status(0x1000), PageStatus::TempUnmapped);
    assert_eq!(leaf_location_in_swapfile(0x1234_5002), Some(0x1234_5000));
    assert_eq!(leaf_location_in_swapfile(PAGE_ONE | PAGE_LEVEL_3), None);
    assert_eq!(leaf_location_in_swapfile(0x4), None);
}

#[test]
fn branch_descriptors() {
    assert_eq!(branch_lookup(0x0000_1234_5678_0003, 4), BranchLookup::Subtable(0x0000_1234_5678_0000));
    assert_eq!(branch_lookup(PAGE_ONE, 4), BranchLookup::Status(PageStatus::Mapped));
    assert_eq!(branch_lookup(0, 4), BranchLookup::Status(PageStatus::Unmapped));
    assert!(table_walk_allows(TABLE_ONE, ExceptionLevel::El0));
    assert!(!table_walk_allows(TABLE_ONE | TABLE_EL1, ExceptionLevel::El0));
    assert!(table_walk_allows(TABLE_ONE | TABLE_EL1, ExceptionLevel::El1));
    assert!(!table_walk_allows(PAGE_ONE, ExceptionLevel::El1));
}

#[test]
fn write_faults() {
    let page = PAGE_ONE | PAGE_LEVEL_3 | PAGE_EL0 | PAGE_NOT_DIRTY;
    assert_eq!(
        resolve_write_fault(ExceptionLevel::El0, TranslationLevel::Level3, page | PAGE_DBM, 0x1000, 4, 0x1000),
        WriteFaultAction::MarkDirty { new: (page | PAGE_DBM) & !PAGE_NOT_DIRTY }
    );
    assert_eq!(
        resolve_write_fault(ExceptionLevel::El0, TranslationLevel::Level3, page | PAGE_COW, 0x1000, 4, 0x1000),
        WriteFaultAction::CopyOnWrite { unmapped: (page | PAGE_COW) & !PAGE_ONE }
    );
    assert_eq!(
        resolve_write_fault(ExceptionLevel::El1, TranslationLevel::Level3, page | PAGE_DBM, 0x1000, 4, 0x1000),
        WriteFaultAction::Deny
    );
    assert_eq!(
        resolve_write_fault(ExceptionLevel::El0, TranslationLevel::Level3, 0, 0x1000, 4, 0x1000),
        WriteFaultAction::AlreadyResolved
    );
    // A table descriptor at level 1 or 2 means the fault was already resolved.
    assert_eq!(
        resolve_write_fault(ExceptionLevel::El0, TranslationLevel::Level2, TABLE_ONE, 0x1000, 4, 0x1000),
        WriteFaultAction::AlreadyResolved
    );
    assert_eq!(
        resolve_write_fault(ExceptionLevel::El0, TranslationLevel::Level2, PAGE_ONE | PAGE_EL0 | PAGE_COW, 0x1000, 4, 0x1000),
        WriteFaultAction::CopyOnWrite { unmapped: PAGE_EL0 | PAGE_COW }
    );
    assert_eq!(cow_remapped_entry(page | PAGE_COW, 0x5000), (page & !PAGE_NOT_DIRTY) | PAGE_DBM | 0x5000);
    assert_eq!(with_accessed_flag(PAGE_ONE), PAGE_ONE | PAGE_ACCESSED);
}

#[test]
fn accesses_within_a_page() {
    assert!(access_in_one_page(0x1000, 0x1000, 0x1000));
    assert!(!access_in_one_page(0x1ffe, 4, 0x1000));
    assert!(access_in_one_page(0x1ffc, 4, 0x1000));
}

#[test]
fn table_indices_64k() {
    let addr: u64 = (5 << 42) | (7 << 29) | (9 << 16) | 0x1234;
    assert_eq!(indices_64k(addr), (5, 7, 9));
}

#[test]
fn exception_levels() {
    assert_eq!(ExceptionLevel::try_from_u8(0).ok(), Some(ExceptionLevel::El0));
    assert_eq!(ExceptionLevel::try_from_u8(1).ok(), Some(ExceptionLevel::El1));
    let e = ExceptionLevel::try_from_u8(2).err().unwrap();
    assert_eq!(*e.value(), 2);
    assert_eq!(ExceptionLevel::El1.to_u8(), 1);
}

#[test]
fn trampoline_tables_map_whole_pages() {
    let layout = TrampolineLayout { start: 0x8_0000, end: 0x8_3000, virt: 0xffff_ffff_0000_0000, stacks_virt: 0xffff_ffff_1000_0000 };
    let ro = trampoline_section_mapping(&layout, 0x8_0000, 0x8_1800, 0x1000, 48).unwrap();
    assert_eq!(ro, TrampolineMapping { phys: 0x8_0000, virt: 0xffff_0000_0000, size: 0x2000 });
    let rw = trampoline_section_mapping(&layout, 0x8_2000, 0x8_2001, 0x1000, 48).unwrap();
    assert_eq!(rw, TrampolineMapping { phys: 0x8_2000, virt: 0xffff_0000_2000, size: 0x1000 });
    assert_eq!(trampoline_section_mapping(&layout, 0x8_3000, 0x8_3000, 0x1000, 48), None);
    assert_eq!(trampoline_stacks_size(4, 0x1000), 0x1000);
    assert_eq!(trampoline_stacks_size(5, 0x1000), 0x2000);
    assert_eq!(trampoline_stacks_virt(&layout, 48), 0xffff_1000_0000);
}

#[test]
fn write_fault_walk_descends_through_valid_tables() {
    let table = 0x0000_0001_2345_0000u64 | TABLE_ONE;
    let addr = (3u64 << 29) | (5u64 << 16);
    assert_eq!(fault_walk_step(table, ExceptionLevel::El0, TranslationLevel::Level1, addr),
        FaultWalkStep::Descend { table: 0x0000_0001_2345_0000, index: 3 });
    assert_eq!(fault_walk_step(table, ExceptionLevel::El0, TranslationLevel::Level2, addr),
        FaultWalkStep::Descend { table: 0x0000_0001_2345_0000, index: 5 });
    assert_eq!(fault_walk_step(table | TABLE_EL1, ExceptionLevel::El0, TranslationLevel::Level2, addr), FaultWalkStep::Deny);
    assert_eq!(fault_walk_step(table | TABLE_EL1, ExceptionLevel::El1, TranslationLevel::Level2, addr),
        FaultWalkStep::Descend { table: 0x0000_0001_2345_0000, index: 5 });
    assert_eq!(fault_walk_step(0, ExceptionLevel::El1, TranslationLevel::Level1, addr), FaultWalkStep::Deny);
    assert_eq!(cow_copy_size(TranslationLevel::Level3), 0x1_0000);
    assert_eq!(cow_copy_size(TranslationLevel::Level2), 0x2000_0000);
}

#[test]
fn paging_configs_that_can_be_set_up() {
    let config = PagingConfig::new(0x4000, 48, 40).unwrap();
    assert_eq!((config.page_size, config.max_virt_bits, config.max_phys_bits), (0x4000, 48, 40));
    assert_eq!(page_size(&config), 0x4000);
    assert!(PagingConfig::new(0x1000, 52, 52).is_some());
    // The page size must be a power of two.
    assert!(PagingConfig::new(0, 48, 48).is_none());
    assert!(PagingConfig::new(0x3000, 48, 48).is_none());
    // Virtual addresses need 48 to 52 bits, physical ones at most 52.
    assert!(PagingConfig::new(0x1000, 47, 48).is_none());
    assert!(PagingConfig::new(0x1000, 53, 48).is_none());
    assert!(PagingConfig::new(0x1000, 48, 53).is_none());
}
