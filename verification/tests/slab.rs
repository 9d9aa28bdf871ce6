use phoenix::block::{BlockAllocation, BlockMut};
use phoenix::phys_ptr::{MutPtr, PhysPtr};
use phoenix::slab::{SlabAllocError, SlabAllocator};

fn arena(base: usize, size: usize) -> BlockMut<u8> {
    BlockMut::new(PhysPtr::<u8, MutPtr<u8>>::from_addr_phys(base), size, None)
}

#[test]
fn slab_allocator_hands_out_slabs_in_order() {
    let mut slabs = SlabAllocator::new(arena(0x10000, 4 * 0x1000), 4, 0x1000);
    for i in 0 .. 4 {
        let block = slabs.try_alloc().unwrap();
        assert_eq!(block.base().as_addr_phys(), 0x10000 + i * 0x1000);
        assert_eq!(block.size(), 0x1000);
        match block.allocation() {
            Some(BlockAllocation::Slab(a)) => assert_eq!(a.base(), 0x10000 + i * 0x1000),
            _ => panic!("slab block without a slab allocation"),
        }
    }
    assert_eq!(slabs.try_alloc().err(), Some(SlabAllocError::Empty));
}

#[test]
fn slab_allocator_reuses_freed_slabs() {
    let mut slabs = SlabAllocator::new(arena(0x10000, 2 * 0x1000), 2, 0x1000);
    let a = slabs.try_alloc().unwrap().base().as_addr_phys();
    let b = slabs.try_alloc().unwrap().base().as_addr_phys();
    assert!(slabs.try_alloc().is_err());
    slabs.free(b);
    let c = slabs.try_alloc().unwrap().base().as_addr_phys();
    assert_eq!(c, b);
    slabs.free(a);
    slabs.free(c);
    assert_eq!(slabs.try_alloc().unwrap().base().as_addr_phys(), a);
}

#[test]
fn slab_ownership() {
    let slabs = SlabAllocator::new(arena(0x10000, 4 * 0x100), 4, 0x100);
    assert!(slabs.owns_slab(0x10000));
    assert!(slabs.owns_slab(0x10300));
    assert!(!slabs.owns_slab(0x10400));
    assert!(!slabs.owns_slab(0x10080));
    assert!(!slabs.owns_slab(0xff00));
}

#[test]
fn slab_alloc_then_free_keeps_free_slabs() {
    let mut slabs = SlabAllocator::new(arena(0x10000, 4 * 0x1000), 4, 0x1000);
    let a = slabs.try_alloc().unwrap().base().as_addr_phys();
    slabs.free(a);
    let mut handed_out: Vec<usize> = Vec::new();
    for _ in 0 .. 4 {
        handed_out.push(slabs.try_alloc().unwrap().base().as_addr_phys());
    }
    assert!(slabs.try_alloc().is_err());
    handed_out.sort();
    assert_eq!(handed_out, vec![0x10000, 0x11000, 0x12000, 0x13000]);
}
