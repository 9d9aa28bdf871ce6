use phoenix::heap::{Heap, HeapBlock};
use phoenix::memory_map::{MemoryMap, RegionType};

const MEM_BASE: usize = 0x10_0000;
const MEM_SIZE: usize = 0x10_0000;

fn memory_map() -> MemoryMap {
    let mut map = MemoryMap::new();
    map.add_region(MEM_BASE, MEM_SIZE, RegionType::Ram, false).unwrap();
    map
}

// Checks that the blocks are sorted, non-empty, disjoint and inside the memory.
fn validate_heap(heap: &Heap) {
    let blocks: &Vec<HeapBlock> = heap.blocks();
    for i in 0 .. blocks.len() {
        assert!(blocks[i].size > 0);
        assert!(blocks[i].base >= MEM_BASE && blocks[i].base + blocks[i].size <= MEM_BASE + MEM_SIZE);
        if i + 1 < blocks.len() {
            assert!(blocks[i].base + blocks[i].size <= blocks[i + 1].base);
        }
    }
}

fn assert_heap_empty(heap: &Heap) {
    assert!(heap.blocks().is_empty());
}

#[test]
fn should_use_correct_alignment() {
    let size = 1;
    let align = 50;
    let map = memory_map();
    let mut heap = Heap::new();
    let ptr1 = heap.malloc_with_map(size, align, &map).unwrap();
    validate_heap(&heap);
    let ptr2 = heap.malloc_with_map(size, align, &map).unwrap();
    validate_heap(&heap);
    assert_eq!(ptr1 % align, 0);
    assert_eq!(ptr2 % align, 0);
    heap.dealloc(ptr1);
    validate_heap(&heap);
    heap.dealloc(ptr2);
    validate_heap(&heap);
}

fn malloc_then_free(heap: &mut Heap, map: &MemoryMap) {
    let ptr = heap.malloc_with_map(1, 1, map).unwrap();
    validate_heap(heap);
    heap.dealloc(ptr);
    validate_heap(heap);
    assert_heap_empty(heap);
}

#[test]
fn one_time_should_return_to_empty() {
    let map = memory_map();
    let mut heap = Heap::new();
    malloc_then_free(&mut heap, &map);
}

#[test]
fn two_times_should_return_to_empty() {
    let map = memory_map();
    let mut heap = Heap::new();
    malloc_then_free(&mut heap, &map);
    malloc_then_free(&mut heap, &map);
}

#[test]
fn three_times_should_return_to_empty() {
    let map = memory_map();
    let mut heap = Heap::new();
    malloc_then_free(&mut heap, &map);
    malloc_then_free(&mut heap, &map);
    malloc_then_free(&mut heap, &map);
}

#[test]
fn up_to_a_hundred_times_should_return_to_empty() {
    let map = memory_map();
    let mut heap = Heap::new();
    for _ in 0 .. 100 {
        malloc_then_free(&mut heap, &map);
    }
}

#[test]
fn mod_one_time_should_return_to_empty() {
    let map = memory_map();
    let mut heap = Heap::new();
    let ptr = heap.malloc_with_map(1, 1, &map).unwrap();
    heap.dealloc(ptr);
    validate_heap(&heap);
    assert_heap_empty(&heap);
}

#[test]
fn mod_two_times_should_return_to_empty() {
    let map = memory_map();
    let mut heap = Heap::new();
    for _ in 0 .. 2 {
        let ptr = heap.malloc_with_map(1, 1, &map).unwrap();
        heap.dealloc(ptr);
        validate_heap(&heap);
        assert_heap_empty(&heap);
    }
}

#[test]
fn mod_three_times_should_return_to_empty() {
    let map = memory_map();
    let mut heap = Heap::new();
    for _ in 0 .. 3 {
        let ptr = heap.malloc_with_map(1, 1, &map).unwrap();
        heap.dealloc(ptr);
        validate_heap(&heap);
        assert_heap_empty(&heap);
    }
}

#[test]
fn mod_up_to_a_hundred_times_should_return_to_empty() {
    let map = memory_map();
    let mut heap = Heap::new();
    for _ in 0 .. 100 {
        let ptr = heap.malloc_with_map(1, 1, &map).unwrap();
        heap.dealloc(ptr);
        validate_heap(&heap);
        assert_heap_empty(&heap);
    }
}

#[test]
fn should_return_same_address() {
    let map = memory_map();
    let mut heap = Heap::new();
    let ptr1 = heap.malloc_with_map(100, 1, &map).unwrap();
    validate_heap(&heap);
    heap.dealloc(ptr1);
    validate_heap(&heap);
    let ptr2 = heap.malloc_with_map(100, 1, &map).unwrap();
    validate_heap(&heap);
    assert_eq!(ptr1, ptr2);
    heap.dealloc(ptr2);
    validate_heap(&heap);
}

#[test]
fn heap_blocks_stay_disjoint_over_many_allocations() {
    let map = memory_map();
    let mut heap = Heap::new();
    let mut ptrs = Vec::new();
    for i in 1 .. 40 {
        let p = heap.malloc_with_map(i * 3, 8, &map).unwrap();
        assert_eq!(p % 8, 0);
        validate_heap(&heap);
        ptrs.push(p);
    }
    assert_eq!(heap.blocks().len(), 39);
    for p in ptrs {
        heap.dealloc(p);
        validate_heap(&heap);
    }
    assert_heap_empty(&heap);
}

#[test]
fn heap_allocation_never_uses_address_zero() {
    let mut map = MemoryMap::new();
    map.add_region(0, 0x1000, RegionType::Ram, false).unwrap();
    let mut heap = Heap::new();
    let p = heap.malloc_with_map(16, 16, &map).unwrap();
    assert!(p > 0);
    assert_eq!(p % 16, 0);
}

#[test]
fn heap_runs_out_of_memory() {
    let mut map = MemoryMap::new();
    map.add_region(0x1000, 0x100, RegionType::Ram, false).unwrap();
    let mut heap = Heap::new();
    assert!(heap.malloc_with_map(0x101, 1, &map).is_err());
    let p = heap.malloc_with_map(0x100, 1, &map).unwrap();
    assert_eq!(p, 0x1000);
    assert!(heap.malloc_with_map(1, 1, &map).is_err());
}

#[test]
fn heap_skips_non_ram_regions() {
    let mut map = MemoryMap::new();
    map.add_region(0x1000, 0x1000, RegionType::Mmio, false).unwrap();
    map.add_region(0x8000, 0x1000, RegionType::Ram, false).unwrap();
    let mut heap = Heap::new();
    let p = heap.malloc_with_map(0x10, 0x10, &map).unwrap();
    assert!(p >= 0x8000 && p + 0x10 <= 0x9000);
}

#[test]
fn heap_reserves_mmio() {
    let map = memory_map();
    let mut heap = Heap::new();
    heap.reserve_mmio_with_map(0x5000, 0x100, &map).unwrap();
    assert_eq!(heap.blocks().len(), 1);
    assert_eq!(heap.blocks()[0], HeapBlock { base: 0x5000, size: 0x100 });
    // A reservation that runs into the next allocated block fails.
    assert!(heap.reserve_mmio_with_map(0x4f80, 0x100, &map).is_err());
    assert_eq!(heap.blocks().len(), 1);
    // Only the block at or after the new base is checked for overlap.
    assert!(heap.reserve_mmio_with_map(0x50f0, 0x100, &map).is_ok());
    assert_eq!(heap.blocks().len(), 2);
}

#[test]
fn heap_malloc_low_stays_below_the_limit() {
    let mut map = MemoryMap::new();
    map.add_region(0x1000, 0x10_0000, RegionType::Ram, false).unwrap();
    let mut heap = Heap::new();
    let p = heap.malloc_low(0x100, 0x10, 16, &map).unwrap();
    assert!(p + 0x100 <= 1 << 16);
    assert!(heap.malloc_low(0x1_0000, 0x10, 16, &map).is_err());
}

// One thread runs a fixed pseudorandom sequence of allocations, reservations and deallocations,
// and the heap must stay sorted and free of overlaps throughout.
#[test]
fn should_keep_the_heap_valid() {
    let map = memory_map();
    let mut heap = Heap::new();
    let mut state: u64 = 0x9e37_79b9_7f4a_7c15;
    let mut next = move || {
        state ^= state << 13;
        state ^= state >> 7;
        state ^= state << 17;
        state
    };
    let mut allocations: Vec<usize> = Vec::new();
    for _ in 0 .. 2000 {
        match next() % 4 {
            0 => {
                let size = (next() % (MEM_SIZE as u64 - 1) + 1) as usize;
                let align = (next() % (MEM_SIZE as u64 / 2 - 1) + 1) as usize;
                if let Ok(base) = heap.malloc_with_map(size, align, &map) {
                    assert_eq!(base % align, 0);
                    assert!(base >= MEM_BASE && base + size <= MEM_BASE + MEM_SIZE);
                    allocations.push(base);
                }
            },
            1 => {
                let base = next() as usize;
                let size = (next() % (MEM_SIZE as u64 - 1) + 1) as usize;
                if heap.reserve_mmio_with_map(base, size, &map).is_ok() {
                    allocations.push(base);
                }
            },
            _ => {
                if !allocations.is_empty() {
                    let i = (next() as usize) % allocations.len();
                    let base = allocations.swap_remove(i);
                    heap.dealloc(base);
                }
            },
        }
        let blocks = heap.blocks();
        assert_eq!(blocks.len(), allocations.len());
        for i in 0 .. blocks.len() {
            assert!(blocks[i].size > 0);
            if i + 1 < blocks.len() {
                assert!(blocks[i].base + blocks[i].size <= blocks[i + 1].base);
            }
        }
    }
}

#[test]
fn should_find_space_before_the_first_block_of_a_region() {
    let mut low_only = MemoryMap::new();
    low_only.add_region(0x10_0000, 0x2000, RegionType::Ram, false).unwrap();
    let mut both = MemoryMap::new();
    both.add_region(0x10_0000, 0x2000, RegionType::Ram, false).unwrap();
    both.add_region(0x20_0000, 0x10_0000, RegionType::Ram, false).unwrap();
    let mut heap = Heap::new();
    assert_eq!(heap.malloc_with_map(0x1000, 1, &low_only), Ok(0x10_0000));
    assert_eq!(heap.malloc_with_map(0x1_0000, 1, &both), Ok(0x20_0000));
    assert_eq!(heap.malloc_with_map(0x1_0000, 1, &both), Ok(0x21_0000));
    heap.dealloc(0x20_0000);
    // The gap at the start of the second region fits exactly.
    assert_eq!(heap.malloc_with_map(0x1_0000, 1, &both), Ok(0x20_0000));
}

#[test]
fn enough_aligned_free_space_is_always_found() {
    // Two overlapping present regions of different types; the blocks leave one aligned gap of
    // 0x2000 bytes at 0x10_4000, inside both.
    let mut map = MemoryMap::new();
    map.add_region(0x10_0000, 0x1_0000, RegionType::Ram, false).unwrap();
    map.add_region(0x10_2000, 0x4000, RegionType::Rom, false).unwrap();
    let mut heap = Heap::new();
    heap.reserve_mmio_with_map(0x10_0000, 0x4000, &map).unwrap();
    heap.reserve_mmio_with_map(0x10_6000, 0xa000, &map).unwrap();
    assert_eq!(heap.malloc_with_map(0x2000, 0x2000, &map), Ok(0x10_4000));
    // Now no room is left anywhere.
    assert!(heap.malloc_with_map(1, 1, &map).is_err());
    validate_heap(&heap);
}
