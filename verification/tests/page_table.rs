use phoenix::page_table::{Granule, LeafPageTable};
use phoenix::paging::{
    PageStatus, PagingConfig, PAGE_COW, PAGE_IN_EXE_FILE, PAGE_IN_SWAPFILE, PAGE_LEVEL_3, PAGE_NOT_DIRTY, PAGE_ONE,
    UNMAPPED,
};

const PAGE: usize = 0x1_0000;

fn config() -> PagingConfig {
    PagingConfig { page_size: PAGE, max_phys_bits: 48, max_virt_bits: 48 }
}

#[test]
fn granules() {
    assert_eq!(Granule::from_page_size(0x1000), Some(Granule::K4));
    assert_eq!(Granule::from_page_size(0x4000), Some(Granule::K16));
    assert_eq!(Granule::from_page_size(0x1_0000), Some(Granule::K64));
    assert_eq!(Granule::from_page_size(0x2000), None);
    assert_eq!(Granule::K4.leaf_entries(), 512);
    assert_eq!(Granule::K16.leaf_span(), 0x200_0000);
    assert_eq!(Granule::K64.page_size() * Granule::K64.leaf_entries(), Granule::K64.leaf_span());
}

#[test]
fn mapping_pages_for_the_mmu() {
    let mut table = LeafPageTable::new(Granule::K64);
    let mut tlb = Vec::new();
    let flags = PAGE_NOT_DIRTY | PAGE_ONE;
    let virt = 0x4000_0000 + 3 * PAGE;
    assert_eq!(table.map(0x8_0000_0000, virt, 2 * PAGE, flags, UNMAPPED, &config(), &mut tlb), Ok(()));
    assert!(tlb.is_empty());
    assert_eq!(table.entry(3), flags | PAGE_LEVEL_3 | 0x8_0000_0000);
    assert_eq!(table.entry(4), flags | PAGE_LEVEL_3 | 0x8_0001_0000);
    assert_eq!(table.entry(5), UNMAPPED);
    assert_eq!(table.page_status(virt), PageStatus::Mapped);
    assert_eq!(table.page_status(virt + PAGE + 0x123), PageStatus::Mapped);
    assert_eq!(table.page_status(virt + 2 * PAGE), PageStatus::Unmapped);
    assert_eq!(table.location_in_swapfile(virt), None);

    // Unmapping invalidates the TLB entries of the pages that were mapped.
    table.unmap(virt, 3 * PAGE, UNMAPPED, &mut tlb);
    assert_eq!(tlb, vec![virt, virt + PAGE]);
    assert_eq!(table.page_status(virt), PageStatus::Unmapped);
}

#[test]
fn conflicting_mapping_is_undone() {
    let mut table = LeafPageTable::new(Granule::K64);
    let mut tlb = Vec::new();
    let flags = PAGE_ONE;
    // Something already lives in the third page.
    assert!(table.map(0x10_0000, 2 * PAGE, PAGE, flags, UNMAPPED, &config(), &mut tlb).is_ok());
    let before: Vec<u64> = (0 .. 8).map(|i| table.entry(i)).collect();
    let r = table.map(0x20_0000, 0, 4 * PAGE, flags, UNMAPPED, &config(), &mut tlb);
    // The next virtual address to try is the one after the conflicting page.
    assert_eq!(r, Err(Some(3 * PAGE)));
    let after: Vec<u64> = (0 .. 8).map(|i| table.entry(i)).collect();
    assert_eq!(before, after);
    // The two pages that had been mapped were unmapped again.
    assert_eq!(tlb, vec![0, PAGE]);
}

#[test]
fn conflict_at_the_top_of_the_address_space() {
    let mut table = LeafPageTable::new(Granule::K4);
    let mut tlb = Vec::new();
    let small = PagingConfig { page_size: 0x1000, max_phys_bits: 48, max_virt_bits: 21 };
    let top = (1 << 21) - 0x1000;
    assert!(table.map(0x5000, top, 0x1000, PAGE_ONE, UNMAPPED, &small, &mut tlb).is_ok());
    assert_eq!(table.map(0x6000, top, 0x1000, PAGE_ONE, UNMAPPED, &small, &mut tlb), Err(None));
}

#[test]
fn pages_in_files() {
    let mut table = LeafPageTable::new(Granule::K16);
    let mut tlb = Vec::new();
    let cfg = PagingConfig { page_size: 0x4000, max_phys_bits: 48, max_virt_bits: 48 };
    // Mark two pages as being in the executable file. The entries also get the pages' offsets as
    // addresses, since the mapping starts at physical address 0.
    assert!(table.map(0, 0x8000, 0x8000, PAGE_IN_EXE_FILE, UNMAPPED, &cfg, &mut tlb).is_ok());
    assert_eq!(table.entry(2), PAGE_IN_EXE_FILE);
    assert_eq!(table.entry(3), PAGE_IN_EXE_FILE | 0x4000);
    assert_eq!(table.page_status(0x8000), PageStatus::Mapped);
    assert_eq!(table.page_status(0xc000), PageStatus::Mapped);
    // Load the first one.
    assert!(table.map(0x30_0000, 0x8000, 0x4000, PAGE_ONE | PAGE_COW, PAGE_IN_EXE_FILE, &cfg, &mut tlb).is_ok());
    assert_eq!(table.entry(2), PAGE_ONE | PAGE_COW | PAGE_LEVEL_3 | 0x30_0000);
    // The second one's entry is not exactly `PAGE_IN_EXE_FILE`, so it can't be loaded that way.
    assert_eq!(table.map(0x34_0000, 0xc000, 0x4000, PAGE_ONE, PAGE_IN_EXE_FILE, &cfg, &mut tlb), Err(Some(0x10000)));
    // Loading a page that is not in the executable file fails.
    assert_eq!(table.map(0x40_0000, 0x10000, 0x4000, PAGE_ONE, PAGE_IN_EXE_FILE, &cfg, &mut tlb), Err(Some(0x14000)));
    assert!(tlb.is_empty());
    // Move the loaded page to the swapfile.
    let swapped = (0x1234 << 2) | PAGE_IN_SWAPFILE;
    table.unmap(0x8000, 0x4000, swapped, &mut tlb);
    assert_eq!(tlb, vec![0x8000]);
    assert_eq!(table.location_in_swapfile(0x8000), Some(0x1234 << 2));
    assert_eq!(table.page_status(0x8000), PageStatus::Mapped);
    // An entry that is neither mapped nor unmapped is being remapped.
    table.unmap(0x8000, 0x4000, 0x100, &mut tlb);
    assert_eq!(tlb, vec![0x8000]);
    assert_eq!(table.page_status(0x8000), PageStatus::TempUnmapped);
}
