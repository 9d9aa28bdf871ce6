use core::sync::atomic::Ordering;
use phoenix::tagged_ptr::TaggedPtr;

#[test]
fn need_tests() {
    let unit = TaggedPtr::<u64>::tag_unit();
    assert_eq!(unit, usize::MAX / core::mem::align_of::<u64>() + 1);
    let p = TaggedPtr::<u64>::new(0x1000, unit * 3);
    assert_eq!(p.load(Ordering::Acquire), (0x1000, unit * 3));
    p.store((0x2008, unit), Ordering::Release);
    assert_eq!(p.load(Ordering::Acquire), (0x2008, unit));
    let before = p.fetch_add_tag(unit, Ordering::AcqRel);
    assert_eq!(before, (0x2008, unit));
    assert_eq!(p.load(Ordering::Acquire), (0x2008, unit * 2));
}

#[test]
fn tagged_null_pointer() {
    let unit = TaggedPtr::<u32>::tag_unit();
    let p = TaggedPtr::<u32>::new_null(unit * 5);
    assert_eq!(p.load(Ordering::Acquire), (0, unit * 5));
}

#[test]
fn tag_overflow_keeps_pointer() {
    let unit = TaggedPtr::<u64>::tag_unit();
    let max_tag = unit.wrapping_mul(usize::MAX / unit);
    let p = TaggedPtr::<u64>::new(0x1000, max_tag);
    p.fetch_add_tag(unit, Ordering::AcqRel);
    assert_eq!(p.load(Ordering::Acquire).0, 0x1000);
    assert_eq!(p.load(Ordering::Acquire).1, 0);
}

#[test]
fn tagged_compare_exchange() {
    let unit = TaggedPtr::<u64>::tag_unit();
    let p = TaggedPtr::<u64>::new(0x1000, 0);
    assert!(p.compare_exchange((0x2000, 0), (0x3000, unit), Ordering::AcqRel, Ordering::Acquire).is_err());
    assert_eq!(p.load(Ordering::Acquire), (0x1000, 0));
    let r = p.compare_exchange((0x1000, 0), (0x3000, unit), Ordering::AcqRel, Ordering::Acquire);
    assert_eq!(r, Ok((0x1000, 0)));
    assert_eq!(p.load(Ordering::Acquire), (0x3000, unit));
}
