use phoenix::allocator::{AllMemAlloc, MAX_SLABS_PER_ALLOCATOR};
use phoenix::block::BlockAllocation;
use phoenix::memory_map::{MemoryMap, RegionType};

const RAM_BASE: usize = 0x10_0000;
const RAM_SIZE: usize = 0x40_0000;
const PAGE: usize = 0x1000;

fn allocator() -> AllMemAlloc {
    let mut map = MemoryMap::new();
    map.add_region(RAM_BASE, RAM_SIZE, RegionType::Ram, false).unwrap();
    AllMemAlloc::new(map, PAGE)
}

fn in_ram(base: usize, size: usize) -> bool {
    base >= RAM_BASE && base + size <= RAM_BASE + RAM_SIZE
}

#[test]
fn pages_come_from_a_slab_allocator() {
    let mut alloc = allocator();
    let first = alloc.malloc::<u8>(PAGE, PAGE).unwrap();
    let second = alloc.malloc::<u8>(PAGE, PAGE).unwrap();
    let a = first.base().as_addr_phys();
    let b = second.base().as_addr_phys();
    assert_eq!(a % PAGE, 0);
    assert_eq!(b, a + PAGE);
    assert_eq!(first.size(), PAGE);
    assert!(in_ram(a, PAGE * MAX_SLABS_PER_ALLOCATOR));
    match first.allocation() {
        Some(BlockAllocation::Slab(s)) => assert_eq!(s.base(), a),
        _ => panic!("a page should be a slab"),
    }
}

#[test]
fn freed_page_is_reused() {
    let mut alloc = allocator();
    let a = alloc.malloc::<u8>(PAGE, PAGE).unwrap().base().as_addr_phys();
    let b = alloc.malloc::<u8>(PAGE, PAGE).unwrap().base().as_addr_phys();
    alloc.free(b);
    // The freed slab goes to the back of the line: the other free slabs are handed out first.
    for i in 2 .. MAX_SLABS_PER_ALLOCATOR {
        let c = alloc.malloc::<u8>(PAGE, PAGE).unwrap().base().as_addr_phys();
        assert_eq!(c, a + i * PAGE);
    }
    let c = alloc.malloc::<u8>(PAGE, PAGE).unwrap().base().as_addr_phys();
    assert_eq!(c, b);
}

#[test]
fn other_sizes_come_from_the_heap() {
    let mut alloc = allocator();
    let block = alloc.malloc::<u32>(100, 8).unwrap();
    let base = block.base().as_addr_phys();
    assert_eq!(base % 8, 0);
    assert_eq!(block.size(), 25);
    assert!(in_ram(base, 100));
    match block.allocation() {
        Some(BlockAllocation::Heap(h)) => assert_eq!(*h, base),
        _ => panic!("a small block should come from the heap"),
    }
    alloc.free(base);
    let again = alloc.malloc::<u32>(100, 8).unwrap();
    assert_eq!(again.base().as_addr_phys(), base);
}

#[test]
fn malloc_low_rejects_impossible_alignment() {
    let mut alloc = allocator();
    assert!(alloc.malloc_low::<u8>(16, 0x100, 4).is_err());
    let block = alloc.malloc_low::<u8>(16, 16, 32).unwrap();
    let base = block.base().as_addr_phys();
    assert!(base + 16 <= 1 << 32);
    assert!(in_ram(base, 16));
}

#[test]
fn mmio_is_reserved_once() {
    let mut alloc = allocator();
    let mmio = alloc.mmio_mut::<u32>(0x900_0000, 0x1000).unwrap();
    assert_eq!(mmio.base().as_addr_phys(), 0x900_0000);
    assert_eq!(mmio.size(), 0x400);
    assert!(alloc.mmio_mut::<u32>(0x8ff_f800, 0x1000).is_err());
    assert!(alloc.mmio_mut::<u32>(usize::MAX - 3, 8).is_err());
}

#[test]
fn slab_arena_shrinks_to_what_the_heap_has() {
    let mut map = MemoryMap::new();
    map.add_region(0x40_0000, 64 * PAGE, RegionType::Ram, false).unwrap();
    let mut alloc = AllMemAlloc::new(map, PAGE);
    let first = alloc.malloc::<u8>(PAGE, PAGE).unwrap().base().as_addr_phys();
    assert_eq!(first, 0x40_0000);
    for i in 1 .. 64 {
        let page = alloc.malloc::<u8>(PAGE, PAGE).unwrap().base().as_addr_phys();
        assert_eq!(page, 0x40_0000 + i * PAGE);
    }
    assert!(alloc.malloc::<u8>(PAGE, PAGE).is_err());
}

#[test]
fn malloc_low_stays_below_the_limit() {
    let mut alloc = allocator();
    let block = alloc.malloc_low::<u8>(0x2000, 0x1000, 22).unwrap();
    let base = block.base().as_addr_phys();
    assert_eq!(base % 0x1000, 0);
    assert!(base >= RAM_BASE && base + 0x2000 <= 1 << 22);
    // Only 0x30_0000 bytes of RAM lie below 4 MiB.
    assert!(alloc.malloc_low::<u8>(0x30_0000, 0x1000, 22).is_err());
}
