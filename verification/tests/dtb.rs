use phoenix::dtb::{be_bytes_to_usize, is_dtb, parse, read_be_u32, read_header, DTBRsvMemEntry};
use phoenix::memory_map::{Region, RegionType};

const BEGIN_NODE: u32 = 1;
const END_NODE: u32 = 2;
const PROP: u32 = 3;
const NOP: u32 = 4;
const END: u32 = 9;

fn push_u32(v: &mut Vec<u8>, x: u32) {
    v.extend_from_slice(&x.to_be_bytes());
}

fn push_padded(v: &mut Vec<u8>, bytes: &[u8]) {
    v.extend_from_slice(bytes);
    while v.len() % 4 != 0 {
        v.push(0);
    }
}

struct Strings {
    bytes: Vec<u8>,
}

impl Strings {
    fn offset(&mut self, name: &str) -> u32 {
        let off = self.bytes.len() as u32;
        self.bytes.extend_from_slice(name.as_bytes());
        self.bytes.push(0);
        off
    }
}

fn prop(s: &mut Vec<u8>, strings: &mut Strings, name: &str, value: &[u8]) {
    push_u32(s, PROP);
    push_u32(s, value.len() as u32);
    let off = strings.offset(name);
    push_u32(s, off);
    push_padded(s, value);
}

fn cells(values: &[u32]) -> Vec<u8> {
    let mut v = Vec::new();
    for x in values {
        push_u32(&mut v, *x);
    }
    v
}

// Builds a DTB whose root has `#address-cells = 2`, `#size-cells = 1` and one memory node with
// the given `reg` cells, and which reserves the given regions.
fn build_dtb(reg: &[u32], hotpluggable: bool, reserved: &[(u64, u64)], version: u32) -> Vec<u8> {
    let mut strings = Strings { bytes: Vec::new() };
    let mut s = Vec::new();
    push_u32(&mut s, BEGIN_NODE);
    push_padded(&mut s, b"\0");
    push_u32(&mut s, NOP);
    prop(&mut s, &mut strings, "#address-cells", &cells(&[2]));
    prop(&mut s, &mut strings, "#size-cells", &cells(&[1]));
    prop(&mut s, &mut strings, "model", b"test board\0");
    push_u32(&mut s, BEGIN_NODE);
    push_padded(&mut s, b"memory@80000000\0");
    prop(&mut s, &mut strings, "device_type", b"memory\0");
    push_u32(&mut s, NOP);
    prop(&mut s, &mut strings, "reg", &cells(reg));
    if hotpluggable {
        prop(&mut s, &mut strings, "hotpluggable", b"");
    }
    push_u32(&mut s, END_NODE);
    push_u32(&mut s, BEGIN_NODE);
    push_padded(&mut s, b"cpus\0");
    prop(&mut s, &mut strings, "#address-cells", &cells(&[1]));
    push_u32(&mut s, END_NODE);
    push_u32(&mut s, END_NODE);
    push_u32(&mut s, NOP);
    push_u32(&mut s, END);

    let mut rsv = Vec::new();
    for (addr, size) in reserved {
        rsv.extend_from_slice(&addr.to_be_bytes());
        rsv.extend_from_slice(&size.to_be_bytes());
    }
    rsv.extend_from_slice(&[0u8; 16]);

    let header_size = 40;
    let rsv_off = header_size;
    let struct_off = rsv_off + rsv.len();
    let strings_off = struct_off + s.len();
    let total = strings_off + strings.bytes.len();
    let mut blob = Vec::new();
    push_u32(&mut blob, 0xd00d_feed);
    push_u32(&mut blob, total as u32);
    push_u32(&mut blob, struct_off as u32);
    push_u32(&mut blob, strings_off as u32);
    push_u32(&mut blob, rsv_off as u32);
    push_u32(&mut blob, version);
    push_u32(&mut blob, 0x10);
    push_u32(&mut blob, 0);
    push_u32(&mut blob, strings.bytes.len() as u32);
    push_u32(&mut blob, s.len() as u32);
    blob.extend_from_slice(&rsv);
    blob.extend_from_slice(&s);
    blob.extend_from_slice(&strings.bytes);
    blob
}

fn ram(base: usize, size: usize) -> Region {
    Region { base, size, hotpluggable: false, present: true, region_type: RegionType::Ram }
}

#[test]
fn need_dtb_tests() {
    let blob = build_dtb(&[0, 0x8000_0000, 0x1000_0000], false, &[], 0x11);
    assert!(is_dtb(&blob));
    let parsed = parse(&blob, 48).unwrap();
    assert_eq!(parsed.memory_map.present_regions(), vec![ram(0x8000_0000, 0x1000_0000)]);
}

#[test]
fn dtb_two_memory_ranges_in_one_reg() {
    let blob = build_dtb(&[0, 0x4000_0000, 0x100_0000, 0x1, 0x0, 0x2000_0000], false, &[], 0x11);
    let parsed = parse(&blob, 48).unwrap();
    assert_eq!(
        parsed.memory_map.present_regions(),
        vec![ram(0x4000_0000, 0x100_0000), ram(0x1_0000_0000, 0x2000_0000)]
    );
}

#[test]
fn dtb_reserved_memory_is_removed() {
    let blob = build_dtb(&[0, 0x8000_0000, 0x1000_0000], false, &[(0x8000_0000, 0x1000)], 0x11);
    let parsed = parse(&blob, 48).unwrap();
    assert_eq!(parsed.memory_map.present_regions(), vec![ram(0x8000_1000, 0x0fff_f000)]);
}

#[test]
fn dtb_hotpluggable_memory_is_not_present() {
    let blob = build_dtb(&[0, 0x8000_0000, 0x1000_0000], true, &[], 0x11);
    let parsed = parse(&blob, 48).unwrap();
    assert_eq!(parsed.memory_map.present_regions(), vec![]);
}

#[test]
fn dtb_zero_sized_memory_is_skipped() {
    let blob = build_dtb(&[0, 0x8000_0000, 0], false, &[], 0x11);
    let parsed = parse(&blob, 48).unwrap();
    assert_eq!(parsed.memory_map.present_regions(), vec![]);
}

#[test]
fn dtb_bad_magic_is_rejected() {
    let mut blob = build_dtb(&[0, 0x8000_0000, 0x1000_0000], false, &[], 0x11);
    blob[0] = 0;
    assert!(!is_dtb(&blob));
    assert!(parse(&blob, 48).is_none());
}

#[test]
fn dtb_root_node_must_come_first() {
    // The root node is read at the very start of the structure block, so a leading NOP token
    // makes the tree unreadable.
    let blob = build_dtb(&[0, 0x8000_0000, 0x1000_0000], false, &[], 0x11);
    let struct_off = read_be_u32(&blob, 8).unwrap() as usize;
    let mut shifted = blob[.. struct_off].to_vec();
    shifted.extend_from_slice(&NOP.to_be_bytes());
    shifted.extend_from_slice(&blob[struct_off ..]);
    // Strings move by one token too.
    let strings_off = read_be_u32(&blob, 12).unwrap() + 4;
    shifted[12 .. 16].copy_from_slice(&strings_off.to_be_bytes());
    assert!(parse(&shifted, 48).is_none());
}

#[test]
fn dtb_incompatible_version_is_rejected() {
    let blob = build_dtb(&[0, 0x8000_0000, 0x1000_0000], false, &[], 0);
    assert!(parse(&blob, 48).is_none());
}

#[test]
fn dtb_truncated_is_rejected() {
    let blob = build_dtb(&[0, 0x8000_0000, 0x1000_0000], false, &[], 0x11);
    for cut in [0, 3, 39, 40, 60, blob.len() - 1] {
        assert!(parse(&blob[.. cut], 48).is_none());
    }
}

#[test]
fn dtb_header_fields() {
    let blob = build_dtb(&[0, 0x8000_0000, 0x1000_0000], false, &[], 0x11);
    let header = read_header(&blob).unwrap();
    assert_eq!(header.version, 0x11);
    assert_eq!(header.earliest_compat_version, 0x10);
    assert_eq!(header.reserved_mem_map_offset, 40);
    assert_eq!(read_be_u32(&blob, 0), Some(0xd00d_feed));
    assert_eq!(read_be_u32(&blob, blob.len() - 3), None);
    assert!(read_header(&blob[.. 39]).is_none());
}

#[test]
fn be_bytes_to_usize_values() {
    assert_eq!(be_bytes_to_usize(&[]), Ok(0));
    assert_eq!(be_bytes_to_usize(&[0x12]), Ok(0x12));
    assert_eq!(be_bytes_to_usize(&[0x12, 0x34, 0x56, 0x78]), Ok(0x1234_5678));
    assert_eq!(be_bytes_to_usize(&[0; 9]), Err(()));
    let max = vec![0xffu8; core::mem::size_of::<usize>()];
    assert_eq!(be_bytes_to_usize(&max), Ok(usize::MAX));
}

#[test]
fn reserved_entry_null() {
    assert!(DTBRsvMemEntry::new(0, 0).is_null());
    assert!(!DTBRsvMemEntry::new(1, 0).is_null());
    assert!(!DTBRsvMemEntry::new(0, 1).is_null());
    let e = DTBRsvMemEntry::new(0x1234, 0x5678);
    assert_eq!(e.address(), 0x1234);
    assert_eq!(e.size(), 0x5678);
}

#[test]
fn dtb_memory_beyond_the_cpu_address_width_is_cropped() {
    // 32-bit physical addresses: the second range lies wholly above them, the first straddles.
    let blob = build_dtb(&[0, 0xf000_0000, 0x2000_0000, 0x1, 0x0, 0x1000], false, &[], 0x11);
    let parsed = parse(&blob, 32).unwrap();
    assert_eq!(parsed.memory_map.present_regions(), vec![ram(0xf000_0000, 0x1000_0000)]);
    assert_eq!(parsed.memory_map.max_address(), 1 << 32);
}
