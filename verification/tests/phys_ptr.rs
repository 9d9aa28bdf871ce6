use phoenix::phys_ptr::{ConstPtr, MutPtr, PhysPtr, PhysPtrTrait, VirtPtrTrait};
use phoenix::block::BlockMut;

#[test]
fn need_physptr_tests() {
    let p = PhysPtr::<u32, ConstPtr<u32>>::from_addr_phys(0x1000);
    assert_eq!(p.as_addr_phys(), 0x1000);
    assert_eq!(p.as_virt().map(|v| v.as_usize()), Some(0x1000));
    assert_eq!(p.as_virt_unchecked().as_usize(), 0x1000);
    assert_eq!(p.add(3).as_addr_phys(), 0x100c);

    let null = PhysPtr::<u32, ConstPtr<u32>>::from_addr_phys(0);
    assert!(null.as_virt().is_none());
    assert!(null.is_null());
    assert_eq!(null.as_virt_unchecked().as_usize(), 0);

    let m = PhysPtr::<u64, MutPtr<u64>>::from_virt(MutPtr::from_usize(0x2000));
    assert_eq!(m.as_addr_phys(), 0x2000);
    assert_eq!(m.add(2).as_addr_phys(), 0x2010);
    assert_eq!(m.to_const().as_addr_phys(), 0x2000);
    assert!(!m.is_null());
    let n = <PhysPtr<u64, MutPtr<u64>> as PhysPtrTrait<u64, MutPtr<u64>>>::null();
    assert!(n.is_null());
    assert!(n.as_virt().is_none());
}

#[test]
fn virtual_pointers() {
    let c = <ConstPtr<u8> as VirtPtrTrait<u8>>::null();
    assert!(c.is_null());
    let c = ConstPtr::<u8>::from_usize(7);
    assert!(!c.is_null());
    assert_eq!(c.as_usize(), 7);
}

#[test]
fn block_indexing() {
    let base = PhysPtr::<u32, MutPtr<u32>>::from_addr_phys(0x4000);
    let block = BlockMut::new(base, 16, None);
    assert_eq!(block.size(), 16);
    assert_eq!(block.base().as_addr_phys(), 0x4000);
    assert_eq!(block.get_ptr_phys(5).as_addr_phys(), 0x4014);
    assert_eq!(block.index(15).as_usize(), 0x403c);
    let bytes = block.transmute::<u8>();
    assert_eq!(bytes.size(), 64);
    assert_eq!(bytes.base().as_addr_phys(), 0x4000);
    let quads = bytes.transmute::<u64>();
    assert_eq!(quads.size(), 8);
}

#[test]
fn physical_pointers_compare_by_address() {
    let p = PhysPtr::<u8, ConstPtr<u8>>::from_addr_phys(0x1000);
    let q = PhysPtr::<u8, ConstPtr<u8>>::from_addr_phys(0x2000);
    let p2 = p.clone();
    assert!(p == p2);
    assert!(p != q);
    assert!(p < q);
    assert!(q > p);
    assert_eq!(p.partial_cmp(&q), Some(std::cmp::Ordering::Less));
    assert_eq!(p2.as_addr_phys(), 0x1000);
    let copied = q;
    assert_eq!(copied.as_addr_phys(), q.as_addr_phys());
    let mut set = std::collections::HashSet::new();
    set.insert(p);
    assert!(set.contains(&p2));
    assert!(!set.contains(&q));
}
