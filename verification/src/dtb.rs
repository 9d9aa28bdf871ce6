//! Parsing of the device tree block (DTB) that Linux-compatible bootloaders provide, to find the
//! physical memory it describes and the memory it reserves.
//!
//! The DTB is read from a byte slice that starts at its header. Every read is checked against the
//! end of the slice: a DTB that points outside of it is rejected.

use vstd::prelude::*;
use crate::ffi::{Be, Endian};
use crate::memory_map::{add_region_spec, remove_region_failed, remove_region_spec, MemoryMap, Region, RegionType};

verus! {

/// The magic number that identifies a DTB.
pub const DTB_MAGIC: u32 = 0xd00d_feed;
/// Marks the beginning of a device.
pub const OF_DT_BEGIN_NODE: u32 = 0x1;
/// Marks the end of a device.
pub const OF_DT_END_NODE: u32 = 0x2;
/// Marks one of a device's properties.
pub const OF_DT_PROP: u32 = 0x3;
/// A token that is ignored.
pub const OF_DT_NOP: u32 = 0x4;
/// Marks the end of the device tree.
pub const OF_DT_END: u32 = 0x9;

/// The size in bytes of the part of the header that is read.
pub const DTB_HEADER_SIZE: usize = 40;

/// Stores all the data retrieved from the DTB.
pub struct ParsedDtb {
    /// The physical memory the DTB describes, less what it reserves.
    pub memory_map: MemoryMap,
}

/// `256` to the power of `n`.
pub open spec fn pow256(n: nat) -> nat
    decreases n,
{
    if n == 0 {
        1
    } else {
        256 * pow256((n - 1) as nat)
    }
}

/// The value of `bytes` read as a big-endian number.
pub open spec fn be_value(bytes: Seq<u8>) -> nat
    decreases bytes.len(),
{
    if bytes.len() == 0 {
        0
    } else {
        (be_value(bytes.drop_last()) * 256 + bytes.last()) as nat
    }
}

/// The big-endian 32-bit number in the four bytes of `b` at `off`.
pub open spec fn be_u32_spec(b: Seq<u8>, off: int) -> u32 {
    (b[off] * 0x100_0000 + b[off + 1] * 0x1_0000 + b[off + 2] * 0x100 + b[off + 3]) as u32
}

/// The big-endian 64-bit number in the eight bytes of `b` at `off`.
pub open spec fn be_u64_spec(b: Seq<u8>, off: int) -> u64 {
    (be_u32_spec(b, off) * 0x1_0000_0000 + be_u32_spec(b, off + 4)) as u64
}

/// The `i`th token of the structure block starting at byte `base` of `b`, or `None` if it lies
/// outside of `b`.
pub open spec fn token_spec(b: Seq<u8>, base: int, i: int) -> Option<u32> {
    if 0 <= base && 0 <= i && base + 4 * i + 4 <= b.len() {
        Some(be_u32_spec(b, base + 4 * i))
    } else {
        None
    }
}

/// The index of the first token at or after `i` that is not `OF_DT_NOP`, or `None` if the tokens
/// run past the end of `b` first.
pub open spec fn first_non_nop(b: Seq<u8>, base: int, i: int) -> Option<int>
    decreases b.len() - base - 4 * i,
{
    match token_spec(b, base, i) {
        None => None,
        Some(t) => if t == OF_DT_NOP {
            first_non_nop(b, base, i + 1)
        } else {
            Some(i)
        },
    }
}

// 256^n grows with n.
proof fn lemma_pow256_mono(m: nat, n: nat)
    requires
        m <= n,
    ensures
        pow256(m) <= pow256(n),
        pow256(m) >= 1,
    decreases n,
{
    if n > m {
        lemma_pow256_mono(m, (n - 1) as nat);
    } else if n > 0 {
        lemma_pow256_mono(0, (n - 1) as nat);
    }
}

// A big-endian number of `n` bytes is less than 256^n.
proof fn lemma_be_value_bound(bytes: Seq<u8>)
    ensures
        be_value(bytes) < pow256(bytes.len()),
    decreases bytes.len(),
{
    if bytes.len() > 0 {
        lemma_be_value_bound(bytes.drop_last());
        let p = pow256((bytes.len() - 1) as nat);
        let v = be_value(bytes.drop_last());
        assert(v * 256 + bytes.last() < 256 * p) by (nonlinear_arith)
            requires v < p, bytes.last() < 256;
    }
}

// A `usize` holds exactly `usize::BITS / 8` bytes.
proof fn lemma_usize_bytes()
    ensures
        pow256((usize::BITS / 8) as nat) == usize::MAX + 1,
{
    reveal_with_fuel(pow256, 9);
    assert(usize::BITS == 32 || usize::BITS == 64);
}

/// Converts a sequence of bytes in big-endian order into a `usize`. Fails if the sequence is too
/// long to fit in a `usize`.
pub fn be_bytes_to_usize(bytes: &[u8]) -> (r: Result<usize, ()>)
    ensures
        r is Ok <==> bytes@.len() <= usize::BITS / 8,
        r is Ok ==> r->Ok_0 == be_value(bytes@),
{
    let n = bytes.len();
    if n > (usize::BITS / 8) as usize {
        return Err(());
    }
    let mut full: usize = 0;
    let mut i: usize = 0;
    while i < n
        invariant
            n == bytes@.len(),
            n <= usize::BITS / 8,
            i <= n,
            full == be_value(bytes@.take(i as int)),
        decreases n - i,
    {
        proof {
            lemma_be_value_bound(bytes@.take(i as int + 1));
            lemma_pow256_mono((i + 1) as nat, (usize::BITS / 8) as nat);
            lemma_usize_bytes();
            assert(bytes@.take(i as int + 1).drop_last() == bytes@.take(i as int));
        }
        full = full * 256 + bytes[i] as usize;
        i += 1;
    }
    assert(bytes@.take(n as int) == bytes@);
    Ok(full)
}

/// Reads the big-endian 32-bit number at byte `off` of `blob`, if it lies within it.
pub fn read_be_u32(blob: &[u8], off: usize) -> (r: Option<u32>)
    ensures
        r is Some <==> off + 4 <= blob@.len(),
        r is Some ==> r->Some_0 == be_u32_spec(blob@, off as int),
{
    let n = blob.len();
    if off > n || n - off < 4 {
        return None;
    }
    let v = (blob[off] as u32) * 0x100_0000 + (blob[off + 1] as u32) * 0x1_0000
        + (blob[off + 2] as u32) * 0x100 + blob[off + 3] as u32;
    Some(v)
}

/// Reads the big-endian 64-bit number at byte `off` of `blob`, if it lies within it.
pub fn read_be_u64(blob: &[u8], off: usize) -> (r: Option<u64>)
    ensures
        r is Some <==> off + 8 <= blob@.len(),
        r is Some ==> r->Some_0 == be_u64_spec(blob@, off as int),
{
    let n = blob.len();
    if off > n || n - off < 8 {
        return None;
    }
    let hi = read_be_u32(blob, off).unwrap();
    let lo = read_be_u32(blob, off + 4).unwrap();
    Some((hi as u64) * 0x1_0000_0000 + lo as u64)
}

// The `i`th token of the structure block at byte `base` of `blob`.
fn token_at(blob: &[u8], base: usize, i: usize) -> (r: Option<u32>)
    requires
        base <= blob@.len(),
    ensures
        r == token_spec(blob@, base as int, i as int),
{
    let rest = blob.len() - base;
    if i >= rest / 4 {
        assert(base + 4 * i + 4 > blob@.len()) by (nonlinear_arith)
            requires i >= rest / 4, rest == blob@.len() - base;
        return None;
    }
    assert(4 * i + 4 <= rest) by (nonlinear_arith) requires i < rest / 4;
    read_be_u32(blob, base + 4 * i)
}

/// The first token that is not `OF_DT_NOP` is one of the tokens, at or after the start.
pub proof fn lemma_first_non_nop(b: Seq<u8>, base: int, i: int)
    ensures
        first_non_nop(b, base, i) matches Some(k) ==> k >= i && token_spec(b, base, k) is Some
            && token_spec(b, base, k) != Some(OF_DT_NOP),
    decreases b.len() - base - 4 * i,
{
    if let Some(t) = token_spec(b, base, i) {
        if t == OF_DT_NOP {
            lemma_first_non_nop(b, base, i + 1);
        }
    }
}

// Skips `OF_DT_NOP` tokens, starting with token `i`, and returns the index of the first other
// token.
fn skip_nops(blob: &[u8], base: usize, i: usize) -> (r: Result<usize, ()>)
    requires
        base <= blob@.len(),
    ensures
        r is Ok <==> first_non_nop(blob@, base as int, i as int) is Some,
        r is Ok ==> first_non_nop(blob@, base as int, i as int) == Some(r->Ok_0 as int),
        r is Ok ==> r->Ok_0 >= i,
        r is Ok ==> token_spec(blob@, base as int, r->Ok_0 as int) is Some
            && token_spec(blob@, base as int, r->Ok_0 as int) != Some(OF_DT_NOP),
{
    proof {
        lemma_first_non_nop(blob@, base as int, i as int);
    }
    let n = blob.len();
    let mut k = i;
    while token_at(blob, base, k) == Some(OF_DT_NOP)
        invariant
            n == blob@.len(),
            base <= blob@.len(),
            k >= i,
            first_non_nop(blob@, base as int, i as int) == first_non_nop(blob@, base as int, k as int),
        decreases blob@.len() - base - 4 * k,
    {
        k += 1;
    }
    match token_at(blob, base, k) {
        None => Err(()),
        Some(_) => Ok(k),
    }
}

/// Returns `Ok` iff the first token of the structure block at byte `base`, after any
/// `OF_DT_NOP` tokens, is `OF_DT_BEGIN_NODE`.
pub fn verify_first_token(blob: &[u8], base: usize) -> (r: Result<(), ()>)
    requires
        base <= blob@.len(),
    ensures
        r is Ok <==> (first_non_nop(blob@, base as int, 0) matches Some(k)
            && token_spec(blob@, base as int, k) == Some(OF_DT_BEGIN_NODE)),
{
    let k = skip_nops(blob, base, 0)?;
    if token_at(blob, base, k) == Some(OF_DT_BEGIN_NODE) {
        Ok(())
    } else {
        Err(())
    }
}

/// Returns `Ok` iff token `i` of the structure block at byte `base`, after any `OF_DT_NOP`
/// tokens, is `OF_DT_END`.
pub fn verify_last_token(blob: &[u8], base: usize, i: usize) -> (r: Result<(), ()>)
    requires
        base <= blob@.len(),
    ensures
        r is Ok <==> (first_non_nop(blob@, base as int, i as int) matches Some(k)
            && token_spec(blob@, base as int, k) == Some(OF_DT_END)),
{
    let k = skip_nops(blob, base, i)?;
    if token_at(blob, base, k) == Some(OF_DT_END) {
        Ok(())
    } else {
        Err(())
    }
}

/// Whether the DTB in `blob` starts with the magic number.
pub fn is_dtb(blob: &[u8]) -> (r: bool)
    ensures
        r == (blob@.len() >= 4 && be_u32_spec(blob@, 0) == DTB_MAGIC),
{
    read_be_u32(blob, 0) == Some(DTB_MAGIC)
}

/// Used by the DTB to represent a single region of reserved memory.
#[derive(Debug, Clone, Copy)]
pub struct DTBRsvMemEntry {
    address: Be<u64>,
    size: Be<u64>,
}

impl DTBRsvMemEntry {
    /// The base address of the reserved region.
    pub closed spec fn address_spec(&self) -> u64 {
        self.address.native()
    }

    /// The size of the reserved region.
    pub closed spec fn size_spec(&self) -> u64 {
        self.size.native()
    }

    /// Makes an entry for the region of `size` bytes at `address`.
    pub fn new(address: u64, size: u64) -> (r: Self)
        ensures
            r.address_spec() == address,
            r.size_spec() == size,
    {
        DTBRsvMemEntry { address: Be::from_native(address), size: Be::from_native(size) }
    }

    /// Whether this is the entry that ends the list (both fields zero).
    pub fn is_null(&self) -> (r: bool)
        ensures
            r == (self.address_spec() == 0 && self.size_spec() == 0),
    {
        self.address.into_native() == 0 && self.size.into_native() == 0
    }

    /// Returns the base address of the reserved region.
    pub fn address(&self) -> (r: u64)
        ensures
            r == self.address_spec(),
    {
        self.address.into_native()
    }

    /// Returns the size of the reserved region.
    pub fn size(&self) -> (r: u64)
        ensures
            r == self.size_spec(),
    {
        self.size.into_native()
    }
}

// Reads the reserved-memory entry at byte `off` of `blob`.
fn read_rsv_entry(blob: &[u8], off: usize) -> (r: Option<DTBRsvMemEntry>)
    ensures
        r is Some <==> off + 16 <= blob@.len(),
        r is Some ==> r->Some_0.address_spec() == be_u64_spec(blob@, off as int)
            && r->Some_0.size_spec() == be_u64_spec(blob@, off + 8),
{
    let n = blob.len();
    if off > n || n - off < 16 {
        return None;
    }
    let address = read_be_u64(blob, off).unwrap();
    let size = read_be_u64(blob, off + 8).unwrap();
    Some(DTBRsvMemEntry::new(address, size))
}

/// The index of the first null byte at or after index `i` of `b`, if there is one.
pub open spec fn c_str_end(b: Seq<u8>, i: int) -> Option<int>
    decreases b.len() - i,
{
    if i < 0 || i >= b.len() {
        None
    } else if b[i] == 0 {
        Some(i)
    } else {
        c_str_end(b, i + 1)
    }
}

/// The length of the C string at byte `start` of `b`, capped at `max`: the distance to its first
/// null byte, or `max` if there is none before that.
pub open spec fn c_str_len_capped_spec(b: Seq<u8>, start: int, max: int) -> int {
    match c_str_end(b, start) {
        Some(e) => if e - start < max { e - start } else { max },
        None => max,
    }
}

// The first null byte at or after `i` is the first one after any non-null bytes from `i` on.
proof fn lemma_c_str_end_skip(b: Seq<u8>, i: int, j: int)
    requires
        0 <= i <= j <= b.len(),
        forall|k: int| i <= k < j ==> b[k] != 0,
    ensures
        c_str_end(b, i) == c_str_end(b, j),
    decreases j - i,
{
    if i < j {
        lemma_c_str_end_skip(b, i + 1, j);
    }
}

// The length of the C string at byte `start` of `blob`, or `Err` if it runs past the end.
fn c_str_len(blob: &[u8], start: usize) -> (r: Result<usize, ()>)
    ensures
        r == (match c_str_end(blob@, start as int) {
            Some(e) => Ok::<usize, ()>((e - start) as usize),
            None => Err(()),
        }),
        r is Ok ==> start + r->Ok_0 < blob@.len(),
        r is Ok ==> c_str_end(blob@, start as int) == Some(start + r->Ok_0),
{
    let n = blob.len();
    let mut i = start;
    while i < n
        invariant
            n == blob@.len(),
            start <= i,
            forall|j: int| start <= j < i ==> blob@[j] != 0,
        decreases n - i,
    {
        if blob[i] == 0 {
            proof {
                lemma_c_str_end_skip(blob@, start as int, i as int);
            }
            return Ok(i - start);
        }
        i += 1;
    }
    proof {
        if start <= n {
            lemma_c_str_end_skip(blob@, start as int, n as int);
        }
    }
    Err(())
}

// The length of the C string at byte `start`, capped at `max` (the property's size).
fn c_str_len_capped(blob: &[u8], start: usize, max: usize) -> (r: usize)
    requires
        start + max <= blob@.len(),
    ensures
        r == c_str_len_capped_spec(blob@, start as int, max as int),
        r <= max,
{
    let n = blob.len();
    let mut i: usize = 0;
    while i < max
        invariant
            n == blob@.len(),
            start + max <= blob@.len(),
            i <= max,
            forall|j: int| start <= j < start + i ==> blob@[j] != 0,
        decreases max - i,
    {
        if blob[start + i] == 0 {
            proof {
                lemma_c_str_end_skip(blob@, start as int, (start + i) as int);
            }
            return i;
        }
        i += 1;
    }
    proof {
        lemma_c_str_end_skip(blob@, start as int, (start + max) as int);
        lemma_c_str_end_beyond(blob@, (start + max) as int);
    }
    max
}

/// The first null byte at or after `i`, if any, is at or after `i`.
pub proof fn lemma_c_str_end_beyond(b: Seq<u8>, i: int)
    ensures
        c_str_end(b, i) matches Some(e) ==> i <= e < b.len() && b[e] == 0,
    decreases b.len() - i,
{
    if 0 <= i < b.len() && b[i] != 0 {
        lemma_c_str_end_beyond(b, i + 1);
    }
}

// Whether the `len` bytes at `start` of `blob` are exactly `expected`.
fn bytes_equal(blob: &[u8], start: usize, len: usize, expected: &[u8]) -> (r: bool)
    requires
        start + len <= blob@.len(),
    ensures
        r == (blob@.subrange(start as int, start + len) == expected@),
{
    if len != expected.len() {
        return false;
    }
    let n = blob.len();
    let mut i: usize = 0;
    while i < len
        invariant
            n == blob@.len(),
            start + len <= blob@.len(),
            len == expected@.len(),
            i <= len,
            forall|j: int| 0 <= j < i ==> blob@[start + j] == expected@[j],
        decreases len - i,
    {
        if blob[start + i] != expected[i] {
            assert(blob@.subrange(start as int, start + len)[i as int] != expected@[i as int]);
            return false;
        }
        i += 1;
    }
    assert(blob@.subrange(start as int, start + len) =~= expected@);
    true
}

/// What the DTB's header gives: where its blocks are and which format it is in.
#[derive(Debug, Clone, Copy)]
pub struct DtbHeader {
    /// Offset of the structure block.
    pub dt_struct_offset: u32,
    /// Offset of the strings block.
    pub dt_strings_offset: u32,
    /// Offset of the reserved-memory map.
    pub reserved_mem_map_offset: u32,
    /// The version of the format.
    pub version: u32,
    /// The earliest version this one is backwards-compatible with.
    pub earliest_compat_version: u32,
}

/// Reads the header at the start of `blob`, if it is long enough to hold one.
pub fn read_header(blob: &[u8]) -> (r: Option<DtbHeader>)
    ensures
        r is Some <==> blob@.len() >= DTB_HEADER_SIZE,
        r is Some ==> r->Some_0.dt_struct_offset == be_u32_spec(blob@, 8)
            && r->Some_0.dt_strings_offset == be_u32_spec(blob@, 12)
            && r->Some_0.reserved_mem_map_offset == be_u32_spec(blob@, 16)
            && r->Some_0.version == be_u32_spec(blob@, 20)
            && r->Some_0.earliest_compat_version == be_u32_spec(blob@, 24),
{
    if blob.len() < DTB_HEADER_SIZE {
        return None;
    }
    Some(DtbHeader {
        dt_struct_offset: read_be_u32(blob, 8).unwrap(),
        dt_strings_offset: read_be_u32(blob, 12).unwrap(),
        reserved_mem_map_offset: read_be_u32(blob, 16).unwrap(),
        version: read_be_u32(blob, 20).unwrap(),
        earliest_compat_version: read_be_u32(blob, 24).unwrap(),
    })
}

/// The name of the property that gives the number of cells in a child's address: `#address-cells`.
pub const NAME_ADDRESS_CELLS: [u8; 14] = [35, 97, 100, 100, 114, 101, 115, 115, 45, 99, 101, 108, 108, 115];
/// The name of the property that gives the number of cells in a child's size: `#size-cells`.
pub const NAME_SIZE_CELLS: [u8; 11] = [35, 115, 105, 122, 101, 45, 99, 101, 108, 108, 115];
/// The name of the property that gives a node's type: `device_type`.
pub const NAME_DEVICE_TYPE: [u8; 11] = [100, 101, 118, 105, 99, 101, 95, 116, 121, 112, 101];
/// The name of the property that gives a node's address ranges: `reg`.
pub const NAME_REG: [u8; 3] = [114, 101, 103];
/// The name of the property that marks memory as hotpluggable: `hotpluggable`.
pub const NAME_HOTPLUGGABLE: [u8; 12] = [104, 111, 116, 112, 108, 117, 103, 103, 97, 98, 108, 101];
/// The device type of a memory node: `memory`.
pub const TYPE_MEMORY: [u8; 6] = [109, 101, 109, 111, 114, 121];

/// The properties of a node that are looked at.
#[derive(Debug, Clone, Copy)]
pub struct NodeProps {
    /// The number of cells in an address of a child node (`#address-cells`).
    pub address_cells: usize,
    /// The number of cells in a size of a child node (`#size-cells`).
    pub size_cells: usize,
    /// Whether the node's `device_type` is `memory`.
    pub is_memory: bool,
    /// The byte offset and number of 32-bit cells of the `reg` property, if present.
    pub reg: Option<(usize, usize)>,
    /// Whether the node has the `hotpluggable` property.
    pub hotpluggable: bool,
}

/// The properties of a node before any is read.
pub open spec fn no_props() -> NodeProps {
    NodeProps { address_cells: 0, size_cells: 0, is_memory: false, reg: None, hotpluggable: false }
}

/// The properties after reading the property named `name` whose `property_size` bytes of value
/// start at byte `value_start` of `b`, in a node whose parent gives addresses of
/// `parent_address_cells` cells and sizes of `parent_size_cells` cells. `Err` if a cell count does
/// not fit in a `usize`, or the `reg` property runs past the end of `b`.
pub open spec fn prop_update(
    b: Seq<u8>,
    props: NodeProps,
    name: Seq<u8>,
    value_start: int,
    property_size: int,
    parent_address_cells: usize,
    parent_size_cells: usize,
) -> Result<NodeProps, ()> {
    let value = b.subrange(value_start, value_start + property_size);
    if name == NAME_ADDRESS_CELLS@ {
        if value.len() > usize::BITS / 8 {
            Err(())
        } else {
            Ok(NodeProps { address_cells: be_value(value) as usize, ..props })
        }
    } else if name == NAME_SIZE_CELLS@ {
        if value.len() > usize::BITS / 8 {
            Err(())
        } else {
            Ok(NodeProps { size_cells: be_value(value) as usize, ..props })
        }
    } else if name == NAME_DEVICE_TYPE@ {
        let len = c_str_len_capped_spec(b, value_start, property_size);
        Ok(NodeProps { is_memory: b.subrange(value_start, value_start + len) == TYPE_MEMORY@, ..props })
    } else if name == NAME_REG@ {
        if parent_address_cells != 0 && parent_size_cells != 0 {
            if parent_address_cells > usize::MAX - parent_size_cells {
                Err(())
            } else {
                // As many whole address/size pairs as the property holds.
                let total = parent_address_cells + parent_size_cells;
                let cells = (property_size + 3) / 4 / total * total;
                if cells > (b.len() - value_start) / 4 {
                    Err(())
                } else {
                    Ok(NodeProps { reg: Some((value_start as usize, cells as usize)), ..props })
                }
            }
        } else {
            Ok(props)
        }
    } else if name == NAME_HOTPLUGGABLE@ {
        Ok(NodeProps { hotpluggable: true, ..props })
    } else {
        Ok(props)
    }
}

/// The properties read from the property tokens from token `offset` on (of the structure block at
/// byte `base` of `b`, with the strings block at byte `strings`), starting from `props`, and the
/// index of the first token after them. `Err` if a property runs past the end of `b`, or its name
/// or value is unreadable.
pub open spec fn props_from(
    b: Seq<u8>,
    base: int,
    strings: int,
    offset: int,
    parent_address_cells: usize,
    parent_size_cells: usize,
    props: NodeProps,
) -> Result<(NodeProps, int), ()>
    decreases b.len() - base - 4 * offset,
{
    if token_spec(b, base, offset) != Some(OF_DT_PROP) {
        Ok((props, offset))
    } else {
        match (token_spec(b, base, offset + 1), token_spec(b, base, offset + 2)) {
            (Some(size_token), Some(name_token)) => {
                let property_size = size_token as int;
                let name_offset = name_token as int;
                let value_start = base + 4 * (offset + 3);
                if property_size > b.len() - value_start || name_offset > b.len() - strings {
                    Err(())
                } else {
                    let name_start = strings + name_offset;
                    match c_str_end(b, name_start) {
                        None => Err(()),
                        Some(name_end) => match prop_update(b, props, b.subrange(name_start, name_end), value_start,
                            property_size, parent_address_cells, parent_size_cells) {
                            Err(()) => Err(()),
                            Ok(next_props) => {
                                let next = offset + 3 + (property_size + 3) / 4;
                                proof {
                                    lemma_first_non_nop(b, base, next);
                                }
                                match first_non_nop(b, base, next) {
                                    None => Err(()),
                                    Some(k) => props_from(b, base, strings, k, parent_address_cells,
                                        parent_size_cells, next_props),
                                }
                            },
                        },
                    }
                }
            },
            _ => Err(()),
        }
    }
}

/// The properties of the node whose property tokens start at token `start` (after any `OF_DT_NOP`
/// tokens), and the index of the first token after them.
pub open spec fn props_spec(
    b: Seq<u8>,
    base: int,
    strings: int,
    start: int,
    parent_address_cells: usize,
    parent_size_cells: usize,
) -> Result<(NodeProps, int), ()> {
    match first_non_nop(b, base, start) {
        None => Err(()),
        Some(k) => props_from(b, base, strings, k, parent_address_cells, parent_size_cells, no_props()),
    }
}

/// The regions of a map, whose addresses stop below `max_address`, after the regions described by
/// entries `index` on of a `reg` property are added: `cells` 32-bit cells at byte `start` of `b`,
/// each region an address of `address_cells` cells and a size of `size_cells` cells. Regions of size
/// zero are skipped. `Err` if a number does not fit in a `usize`, a region runs past the end of the
/// address space, or the map runs out of room.
pub open spec fn regs_from(
    b: Seq<u8>,
    start: int,
    cells: int,
    address_cells: int,
    size_cells: int,
    hotpluggable: bool,
    index: int,
    map: Seq<Region>,
    max_address: usize,
) -> Result<Seq<Region>, ()>
    decreases if index < cells { cells - index } else { 0 },
{
    if index >= cells || address_cells + size_cells <= 0 || index < 0 {
        Ok(map)
    } else {
        let address_start = start + index * 4;
        let size_start = address_start + address_cells * 4;
        let address_bytes = b.subrange(address_start, size_start);
        let size_bytes = b.subrange(size_start, size_start + size_cells * 4);
        if address_bytes.len() > usize::BITS / 8 || size_bytes.len() > usize::BITS / 8 {
            Err(())
        } else {
            let address = be_value(address_bytes);
            let size = be_value(size_bytes);
            if size == 0 {
                regs_from(b, start, cells, address_cells, size_cells, hotpluggable, index + address_cells + size_cells,
                    map, max_address)
            } else if address > usize::MAX - size {
                Err(())
            } else {
                match add_region_spec(map, max_address, address as usize, size as usize, RegionType::Ram, hotpluggable) {
                    None => Err(()),
                    Some(map2) => regs_from(b, start, cells, address_cells, size_cells, hotpluggable,
                        index + address_cells + size_cells, map2, max_address),
                }
            }
        }
    }
}

/// Adds the memory regions that a memory node's `reg` property describes to `memory_map`: the
/// property holds `cells` 32-bit cells at byte `start` of `blob`, each region described by an
/// address of `address_cells` cells followed by a size of `size_cells` cells. Regions of size zero
/// are skipped. Fails if a number does not fit in a `usize`, a region runs past the end of the
/// address space, or the map has no room left.
pub fn add_phys_mem_regions(
    blob: &[u8],
    start: usize,
    cells: usize,
    address_cells: usize,
    size_cells: usize,
    hotpluggable: bool,
    memory_map: &mut MemoryMap,
) -> (r: Result<(), ()>)
    requires
        old(memory_map).wf(),
        address_cells > 0,
        size_cells > 0,
        address_cells + size_cells <= usize::MAX,
        start + 4 * cells <= blob@.len(),
        (cells as int) % ((address_cells + size_cells) as int) == 0,
    ensures
        final(memory_map).wf(),
        final(memory_map).max_address_spec() == old(memory_map).max_address_spec(),
        regs_from(blob@, start as int, cells as int, address_cells as int, size_cells as int, hotpluggable, 0,
            old(memory_map)@, old(memory_map).max_address_spec()) matches Ok(m) ==> r is Ok && final(memory_map)@ == m,
        regs_from(blob@, start as int, cells as int, address_cells as int, size_cells as int, hotpluggable, 0,
            old(memory_map)@, old(memory_map).max_address_spec()) is Err ==> r is Err,
{
    let n = blob.len();
    let entry_cells = address_cells + size_cells;
    let ghost goal = regs_from(blob@, start as int, cells as int, address_cells as int, size_cells as int,
        hotpluggable, 0, memory_map@, memory_map.max_address_spec());
    let mut index: usize = 0;
    while index < cells
        invariant
            n == blob@.len(),
            memory_map.wf(),
            memory_map.max_address_spec() == old(memory_map).max_address_spec(),
            address_cells > 0,
            size_cells > 0,
            entry_cells == address_cells + size_cells,
            start + 4 * cells <= blob@.len(),
            (cells as int) % (entry_cells as int) == 0,
            (index as int) % (entry_cells as int) == 0,
            index <= cells,
            regs_from(blob@, start as int, cells as int, address_cells as int, size_cells as int, hotpluggable,
                index as int, memory_map@, memory_map.max_address_spec()) == goal,
            goal == regs_from(blob@, start as int, cells as int, address_cells as int, size_cells as int,
                hotpluggable, 0, old(memory_map)@, old(memory_map).max_address_spec()),
        decreases cells - index,
    {
        assert(index + entry_cells <= cells) by (nonlinear_arith)
            requires (index as int) % (entry_cells as int) == 0, (cells as int) % (entry_cells as int) == 0,
                index < cells, entry_cells > 0;
        let address_start = start + index * 4;
        let size_start = address_start + address_cells * 4;
        let address = be_bytes_to_usize(vstd::slice::slice_subrange(blob, address_start, size_start))?;
        let size = be_bytes_to_usize(vstd::slice::slice_subrange(blob, size_start, size_start + size_cells * 4))?;
        if size != 0 {
            if address > usize::MAX - size {
                return Err(());
            }
            memory_map.add_region(address, size, RegionType::Ram, hotpluggable)?;
        }
        proof {
            vstd::arithmetic::div_mod::lemma_mod_adds(index as int, entry_cells as int, entry_cells as int);
            vstd::arithmetic::div_mod::lemma_mod_self_0(entry_cells as int);
        }
        index += entry_cells;
    }
    Ok(())
}

// Whether `cells` cells hold whole pairs of `total` cells and fit in `size` bytes rounded up.
proof fn lemma_whole_pairs(size: int, total: int, cells: int)
    requires
        size >= 0,
        total > 0,
        cells == (size + 3) / 4 / total * total,
    ensures
        cells % total == 0,
        0 <= 4 * cells <= size + 3,
{
    let q = (size + 3) / 4 / total;
    assert(q >= 0) by (nonlinear_arith) requires size >= 0, total > 0, q == (size + 3) / 4 / total;
    vstd::arithmetic::div_mod::lemma_mod_multiples_basic(q, total);
    assert(q * total <= (size + 3) / 4) by (nonlinear_arith)
        requires total > 0, q == (size + 3) / 4 / total, size >= 0;
    assert(4 * ((size + 3) / 4) <= size + 3) by (nonlinear_arith) requires size >= 0;
    assert(q * total >= 0) by (nonlinear_arith) requires q >= 0, total > 0;
}

// Reads the properties of the node whose property tokens start at token `start` (after any
// `OF_DT_NOP` tokens), and returns them with the index of the first token after them.
fn parse_props(
    blob: &[u8],
    header: &DtbHeader,
    start: usize,
    parent_address_cells: usize,
    parent_size_cells: usize,
) -> (r: Result<(NodeProps, usize), ()>)
    requires
        header.dt_struct_offset <= blob@.len(),
        header.dt_strings_offset <= blob@.len(),
    ensures
        match props_spec(blob@, header.dt_struct_offset as int, header.dt_strings_offset as int, start as int,
            parent_address_cells, parent_size_cells) {
            Ok((props, next)) => r is Ok && r->Ok_0.0 == props && r->Ok_0.1 == next,
            Err(()) => r is Err,
        },
        r is Ok ==> r->Ok_0.1 >= start,
        r is Ok ==> token_spec(blob@, header.dt_struct_offset as int, r->Ok_0.1 as int) is Some,
        r is Ok && r->Ok_0.0.reg is Some ==> ({
            let (reg_start, reg_cells) = r->Ok_0.0.reg->Some_0;
            &&& reg_start + 4 * reg_cells <= blob@.len()
            &&& parent_address_cells > 0
            &&& parent_size_cells > 0
            &&& parent_address_cells + parent_size_cells <= usize::MAX
            &&& (reg_cells as int) % ((parent_address_cells + parent_size_cells) as int) == 0
        }),
{
    let base = header.dt_struct_offset as usize;
    let strings = header.dt_strings_offset as usize;
    let mut props = NodeProps { address_cells: 0, size_cells: 0, is_memory: false, reg: None, hotpluggable: false };
    let n = blob.len();
    let mut offset = skip_nops(blob, base, start)?;
    let ghost goal = props_from(blob@, base as int, strings as int, offset as int, parent_address_cells,
        parent_size_cells, props);
    while token_at(blob, base, offset) == Some(OF_DT_PROP)
        invariant
            n == blob@.len(),
            base == header.dt_struct_offset,
            base <= blob@.len(),
            strings == header.dt_strings_offset,
            strings <= blob@.len(),
            offset >= start,
            token_spec(blob@, base as int, offset as int) is Some,
            props.reg is Some ==> ({
                let (reg_start, reg_cells) = props.reg->Some_0;
                &&& reg_start + 4 * reg_cells <= blob@.len()
                &&& parent_address_cells > 0
                &&& parent_size_cells > 0
                &&& parent_address_cells + parent_size_cells <= usize::MAX
                &&& (reg_cells as int) % ((parent_address_cells + parent_size_cells) as int) == 0
            }),
            props_from(blob@, base as int, strings as int, offset as int, parent_address_cells, parent_size_cells,
                props) == goal,
            goal == props_spec(blob@, base as int, strings as int, start as int, parent_address_cells,
                parent_size_cells),
        decreases blob@.len() - base - 4 * offset,
    {
        let property_size = match token_at(blob, base, offset + 1) {
            Some(x) => x as usize,
            None => return Err(()),
        };
        let name_offset = match token_at(blob, base, offset + 2) {
            Some(x) => x as usize,
            None => return Err(()),
        };
        // The property's value starts after its three header tokens.
        let value_start = base + 4 * (offset + 3);
        if property_size > blob.len() - value_start {
            return Err(());
        }
        if name_offset > blob.len() - strings {
            return Err(());
        }
        let name_start = strings + name_offset;
        let name_len = c_str_len(blob, name_start)?;
        let ghost name = blob@.subrange(name_start as int, name_start + name_len);
        let ghost expected = prop_update(blob@, props, name, value_start as int, property_size as int,
            parent_address_cells, parent_size_cells);
        if bytes_equal(blob, name_start, name_len, NAME_ADDRESS_CELLS.as_slice()) {
            match be_bytes_to_usize(vstd::slice::slice_subrange(blob, value_start, value_start + property_size)) {
                Ok(v) => props.address_cells = v,
                Err(()) => {
                    assert(expected is Err);
                    return Err(());
                },
            }
        } else if bytes_equal(blob, name_start, name_len, NAME_SIZE_CELLS.as_slice()) {
            match be_bytes_to_usize(vstd::slice::slice_subrange(blob, value_start, value_start + property_size)) {
                Ok(v) => props.size_cells = v,
                Err(()) => {
                    assert(expected is Err);
                    return Err(());
                },
            }
        } else if bytes_equal(blob, name_start, name_len, NAME_DEVICE_TYPE.as_slice()) {
            let len = c_str_len_capped(blob, value_start, property_size);
            props.is_memory = bytes_equal(blob, value_start, len, TYPE_MEMORY.as_slice());
        } else if bytes_equal(blob, name_start, name_len, NAME_REG.as_slice()) {
            if parent_address_cells != 0 && parent_size_cells != 0 {
                if parent_address_cells > usize::MAX - parent_size_cells {
                    return Err(());
                }
                // As many whole address/size pairs as the property holds.
                let total = parent_address_cells + parent_size_cells;
                let rounded = (property_size + 3) / 4;
                let q = rounded / total;
                assert(q * total <= rounded) by (nonlinear_arith)
                    requires total > 0, q == rounded / total;
                assert(q * total >= 0) by (nonlinear_arith) requires total > 0, q >= 0;
                let cells = q * total;
                proof {
                    lemma_whole_pairs(property_size as int, total as int, cells as int);
                }
                if cells > (blob.len() - value_start) / 4 {
                    return Err(());
                }
                assert(value_start + 4 * cells <= blob@.len()) by (nonlinear_arith)
                    requires cells <= (blob@.len() - value_start) / 4, value_start <= blob@.len();
                props.reg = Some((value_start, cells));
            }
        } else if bytes_equal(blob, name_start, name_len, NAME_HOTPLUGGABLE.as_slice()) {
            props.hotpluggable = true;
        }
        assert(expected == Ok::<NodeProps, ()>(props));
        // The next token is aligned on a 4-byte boundary after the property's value.
        assert(offset + 3 + (property_size + 3) / 4 <= blob@.len()) by (nonlinear_arith)
            requires base + 4 * (offset + 3) + property_size <= blob@.len(), property_size >= 0;
        let next = offset + 3 + (property_size + 3) / 4;
        offset = skip_nops(blob, base, next)?;
    }
    Ok((props, offset))
}

/// Reading properties from a token that exists ends at a token that exists, at or after it.
pub proof fn lemma_props_from_progress(
    b: Seq<u8>,
    base: int,
    strings: int,
    offset: int,
    parent_address_cells: usize,
    parent_size_cells: usize,
    props: NodeProps,
)
    requires
        token_spec(b, base, offset) is Some,
    ensures
        props_from(b, base, strings, offset, parent_address_cells, parent_size_cells, props) matches Ok((p, o))
            ==> o >= offset && token_spec(b, base, o) is Some,
    decreases b.len() - base - 4 * offset,
{
    if token_spec(b, base, offset) == Some(OF_DT_PROP) {
        if let (Some(size_token), Some(name_token)) = (token_spec(b, base, offset + 1), token_spec(b, base, offset + 2)) {
            let property_size = size_token as int;
            let name_offset = name_token as int;
            let value_start = base + 4 * (offset + 3);
            if !(property_size > b.len() - value_start || name_offset > b.len() - strings) {
                let name_start = strings + name_offset;
                if let Some(name_end) = c_str_end(b, name_start) {
                    if let Ok(next_props) = prop_update(b, props, b.subrange(name_start, name_end), value_start,
                        property_size, parent_address_cells, parent_size_cells) {
                        let next = offset + 3 + (property_size + 3) / 4;
                        lemma_first_non_nop(b, base, next);
                        if let Some(k) = first_non_nop(b, base, next) {
                            lemma_props_from_progress(b, base, strings, k, parent_address_cells, parent_size_cells,
                                next_props);
                        }
                    }
                }
            }
        }
    }
}

/// The token after the node whose `OF_DT_BEGIN_NODE` token is token `token_offset` (of the
/// structure block at byte `base` of `b`, with the strings block at byte `strings`) and all of its
/// children, and the regions of a map (whose addresses stop below `max_address`) after the memory
/// that the node and its children describe is added: a node's properties come first, then its
/// children, then `OF_DT_END_NODE`; a node whose `device_type` is `memory` adds the regions of its
/// `reg` property, read with the cell counts its parent gives. `Err` if the tree is malformed.
pub open spec fn node_spec(
    b: Seq<u8>,
    base: int,
    strings: int,
    token_offset: int,
    parent_address_cells: usize,
    parent_size_cells: usize,
    map: Seq<Region>,
    max_address: usize,
) -> Result<(int, Seq<Region>), ()>
    decreases b.len() - base - 4 * token_offset, 0int,
{
    if token_offset < 0 || base < 0 || base + 4 * token_offset + 4 > b.len() {
        Err(())
    } else {
        // The node's name follows its opening token, and the properties follow the name.
        let name_start = base + 4 * (token_offset + 1);
        match c_str_end(b, name_start) {
            None => Err(()),
            Some(name_end) => {
                let after_name = token_offset + 1 + (name_end - name_start + 4) / 4;
                match props_spec(b, base, strings, after_name, parent_address_cells, parent_size_cells) {
                    Err(()) => Err(()),
                    Ok((props, next)) => {
                        let regs = if props.is_memory && props.reg is Some {
                            regs_from(b, props.reg->Some_0.0 as int, props.reg->Some_0.1 as int,
                                parent_address_cells as int, parent_size_cells as int, props.hotpluggable, 0, map,
                                max_address)
                        } else {
                            Ok(map)
                        };
                        match regs {
                            Err(()) => Err(()),
                            Ok(map1) => {
                                proof {
                                    lemma_first_non_nop(b, base, after_name);
                                    lemma_c_str_end_beyond(b, name_start);
                                    if let Some(k) = first_non_nop(b, base, after_name) {
                                        lemma_props_from_progress(b, base, strings, k, parent_address_cells,
                                            parent_size_cells, no_props());
                                    }
                                }
                                children_spec(b, base, strings, next, props.address_cells, props.size_cells, map1,
                                    max_address)
                            },
                        }
                    },
                }
            },
        }
    }
}

/// The token after the children from token `offset` on and the closing `OF_DT_END_NODE` of their
/// parent, whose properties give `address_cells` and `size_cells`, and the regions of the map after
/// the children's memory is added. `OF_DT_NOP` tokens between children are skipped.
pub open spec fn children_spec(
    b: Seq<u8>,
    base: int,
    strings: int,
    offset: int,
    address_cells: usize,
    size_cells: usize,
    map: Seq<Region>,
    max_address: usize,
) -> Result<(int, Seq<Region>), ()>
    decreases b.len() - base - 4 * offset, 1int,
{
    match token_spec(b, base, offset) {
        None => Err(()),
        Some(t) => if t == OF_DT_BEGIN_NODE {
            match node_spec(b, base, strings, offset, address_cells, size_cells, map, max_address) {
                Err(()) => Err(()),
                Ok((after, map2)) => {
                    proof {
                        lemma_first_non_nop(b, base, after);
                    }
                    match first_non_nop(b, base, after) {
                        None => Err(()),
                        // A child always ends after it begins.
                        Some(k) => if k > offset {
                            children_spec(b, base, strings, k, address_cells, size_cells, map2, max_address)
                        } else {
                            Err(())
                        },
                    }
                },
            }
        } else if t == OF_DT_END_NODE {
            Ok((offset + 1, map))
        } else {
            Err(())
        },
    }
}

// Parses the node whose `OF_DT_BEGIN_NODE` token is token `token_offset`, and all of its children,
// adding the memory it describes to `memory_map`. Returns the index of the token after the node.
fn parse_node(
    blob: &[u8],
    header: &DtbHeader,
    token_offset: usize,
    parent_address_cells: usize,
    parent_size_cells: usize,
    memory_map: &mut MemoryMap,
) -> (r: Result<usize, ()>)
    requires
        header.dt_struct_offset <= blob@.len(),
        header.dt_strings_offset <= blob@.len(),
        old(memory_map).wf(),
    ensures
        final(memory_map).wf(),
        final(memory_map).max_address_spec() == old(memory_map).max_address_spec(),
        r is Ok ==> r->Ok_0 > token_offset,
        match node_spec(blob@, header.dt_struct_offset as int, header.dt_strings_offset as int, token_offset as int,
            parent_address_cells, parent_size_cells, old(memory_map)@, old(memory_map).max_address_spec()) {
            Ok((next, m)) => r is Ok && r->Ok_0 as int == next && final(memory_map)@ == m,
            Err(()) => r is Err,
        },
    decreases blob@.len() - header.dt_struct_offset - 4 * token_offset,
{
    let base = header.dt_struct_offset as usize;
    let strings = header.dt_strings_offset as usize;
    let rest = blob.len() - base;
    if token_offset >= rest / 4 {
        assert(base + 4 * token_offset + 4 > blob@.len()) by (nonlinear_arith)
            requires token_offset >= rest / 4, rest == blob@.len() - base;
        return Err(());
    }
    assert(base + 4 * token_offset + 4 <= blob@.len()) by (nonlinear_arith)
        requires token_offset < rest / 4, rest == blob@.len() - base;
    // The opening token is known to be `OF_DT_BEGIN_NODE`; the node's name follows it.
    let name_start = base + 4 * (token_offset + 1);
    let name_len = c_str_len(blob, name_start)?;
    // The next field is aligned on a 4-byte boundary after the name and its null terminator.
    assert(token_offset + 1 + (name_len + 4) / 4 <= blob@.len()) by (nonlinear_arith)
        requires name_start + name_len < blob@.len(), name_start == base + 4 * (token_offset + 1);
    let after_name = token_offset + 1 + (name_len + 4) / 4;
    let (props, next) = parse_props(blob, header, after_name, parent_address_cells, parent_size_cells)?;
    let mut offset = next;

    if props.is_memory {
        if let Some((start, cells)) = props.reg {
            add_phys_mem_regions(blob, start, cells, parent_address_cells, parent_size_cells,
                props.hotpluggable, memory_map)?;
        }
    }
    let ghost goal = children_spec(blob@, base as int, strings as int, offset as int, props.address_cells,
        props.size_cells, memory_map@, memory_map.max_address_spec());
    assert(goal == node_spec(blob@, base as int, strings as int, token_offset as int, parent_address_cells,
        parent_size_cells, old(memory_map)@, old(memory_map).max_address_spec()));

    // Parse the node's children.
    let n = blob.len();
    while token_at(blob, base, offset) == Some(OF_DT_BEGIN_NODE)
        invariant
            n == blob@.len(),
            base == header.dt_struct_offset,
            strings == header.dt_strings_offset,
            base <= blob@.len(),
            header.dt_strings_offset <= blob@.len(),
            memory_map.wf(),
            memory_map.max_address_spec() == old(memory_map).max_address_spec(),
            offset > token_offset,
            token_spec(blob@, base as int, offset as int) is Some,
            children_spec(blob@, base as int, strings as int, offset as int, props.address_cells, props.size_cells,
                memory_map@, memory_map.max_address_spec()) == goal,
            goal == node_spec(blob@, base as int, strings as int, token_offset as int, parent_address_cells,
                parent_size_cells, old(memory_map)@, old(memory_map).max_address_spec()),
        decreases blob@.len() - base - 4 * offset,
    {
        let ghost map0 = memory_map@;
        let ghost step = node_spec(blob@, base as int, strings as int, offset as int, props.address_cells,
            props.size_cells, map0, memory_map.max_address_spec());
        assert(children_spec(blob@, base as int, strings as int, offset as int, props.address_cells,
            props.size_cells, map0, memory_map.max_address_spec()) == match step {
            Err(()) => Err(()),
            Ok((after, map2)) => match first_non_nop(blob@, base as int, after) {
                None => Err(()),
                Some(k) => if k > offset {
                    children_spec(blob@, base as int, strings as int, k, props.address_cells, props.size_cells, map2,
                        memory_map.max_address_spec())
                } else {
                    Err(())
                },
            },
        });
        let after_child = match parse_node(blob, header, offset, props.address_cells, props.size_cells, memory_map) {
            Ok(after) => after,
            Err(()) => {
                assert(step is Err);
                return Err(());
            },
        };
        offset = match skip_nops(blob, base, after_child) {
            Ok(k) => k,
            Err(()) => {
                assert(first_non_nop(blob@, base as int, after_child as int) is None);
                return Err(());
            },
        };
    }

    if token_at(blob, base, offset) == Some(OF_DT_END_NODE) {
        Ok(offset + 1)
    } else {
        Err(())
    }
}

/// The regions of a map (whose addresses stop below `max_address`) after the reserved regions
/// listed from byte `off` of `b` on are removed; the list ends with an entry whose address and size
/// are both zero, and entries of size zero are skipped. `None` if the list runs past the end of `b`.
pub open spec fn rsv_from(b: Seq<u8>, off: int, map: Seq<Region>, max_address: usize) -> Option<Seq<Region>>
    decreases b.len() - off,
{
    if off < 0 || off + 16 > b.len() {
        None
    } else {
        let address = be_u64_spec(b, off);
        let size = be_u64_spec(b, off + 8);
        if address == 0 && size == 0 {
            Some(map)
        } else {
            if size as usize != 0 && remove_region_failed(map, max_address, address as usize, size as usize) {
                None
            } else {
                let next = if size as usize != 0 {
                    remove_region_spec(map, max_address, address as usize, size as usize)
                } else {
                    map
                };
                rsv_from(b, off + 16, next, max_address)
            }
        }
    }
}

/// The physical memory described by the DTB in `b` whose header is `header`, if it is in a format
/// compatible with any version from 0x01 to 0x11 and well formed: the memory of its memory nodes,
/// in a map of physical addresses of `phys_addr_bits` bits, less the memory it reserves. The tree
/// must have its root node at the very start of the structure block, and nothing but `OF_DT_NOP`
/// tokens between the root's end and `OF_DT_END`.
pub open spec fn try_parse_spec(b: Seq<u8>, header: DtbHeader, phys_addr_bits: u8) -> Option<Seq<Region>> {
    let base = header.dt_struct_offset as int;
    let strings = header.dt_strings_offset as int;
    let max_address = 1usize << phys_addr_bits;
    if header.version < 1 || header.earliest_compat_version > 0x11 {
        None
    } else if base > b.len() || strings > b.len() {
        None
    } else if !(first_non_nop(b, base, 0) matches Some(k) && token_spec(b, base, k) == Some(OF_DT_BEGIN_NODE)) {
        None
    } else {
        match node_spec(b, base, strings, 0, 0, 0, Seq::empty(), max_address) {
            Err(()) => None,
            Ok((offset, map)) => if first_non_nop(b, base, offset) matches Some(k)
                && token_spec(b, base, k) == Some(OF_DT_END) {
                rsv_from(b, header.reserved_mem_map_offset as int, map, max_address)
            } else {
                None
            },
        }
    }
}

/// The header that the first `DTB_HEADER_SIZE` bytes of `b` hold.
pub open spec fn header_spec(b: Seq<u8>) -> DtbHeader {
    DtbHeader {
        dt_struct_offset: be_u32_spec(b, 8),
        dt_strings_offset: be_u32_spec(b, 12),
        reserved_mem_map_offset: be_u32_spec(b, 16),
        version: be_u32_spec(b, 20),
        earliest_compat_version: be_u32_spec(b, 24),
    }
}

/// The physical memory described by the DTB at the start of `b`, if there is one (it starts with
/// the magic number and has a whole header) and it can be parsed, for physical addresses of
/// `phys_addr_bits` bits.
pub open spec fn parse_spec(b: Seq<u8>, phys_addr_bits: u8) -> Option<Seq<Region>> {
    if !(b.len() >= 4 && be_u32_spec(b, 0) == DTB_MAGIC) || b.len() < DTB_HEADER_SIZE {
        None
    } else {
        try_parse_spec(b, header_spec(b), phys_addr_bits)
    }
}

/// Parses the DTB in `blob` if it is in a format compatible with any version from 0x01 to 0x11:
/// builds the memory map from its memory nodes and removes the memory it reserves. Returns `None`
/// if the DTB is malformed. The map accepts physical addresses of `phys_addr_bits` bits (the
/// CPU's width), and memory beyond them is cropped off.
pub fn try_parse_v11(blob: &[u8], header: &DtbHeader, phys_addr_bits: u8) -> (r: Option<ParsedDtb>)
    requires
        0 < phys_addr_bits,
        (phys_addr_bits as u32) < usize::BITS,
    ensures
        r is Some <==> try_parse_spec(blob@, *header, phys_addr_bits) is Some,
        r is Some ==> r->Some_0.memory_map@ == try_parse_spec(blob@, *header, phys_addr_bits)->Some_0,
        r is Some ==> r->Some_0.memory_map.wf(),
        r is Some ==> r->Some_0.memory_map.max_address_spec() == 1usize << phys_addr_bits,
{
    if header.version < 0x01 || header.earliest_compat_version > 0x11 {
        return None;
    }
    let n = blob.len();
    if header.dt_struct_offset as usize > n || header.dt_strings_offset as usize > n {
        return None;
    }
    let base = header.dt_struct_offset as usize;
    let mut memory_map = MemoryMap::with_phys_addr_bits(phys_addr_bits);
    let max_address = Ghost(memory_map.max_address_spec());

    // There should only be one root node, at the start of the structure block.
    if verify_first_token(blob, base).is_err() {
        return None;
    }
    match parse_node(blob, header, 0, 0, 0, &mut memory_map) {
        Err(()) => return None,
        Ok(offset) => {
            if verify_last_token(blob, base, offset).is_err() {
                return None;
            }
        },
    }
    let ghost goal = try_parse_spec(blob@, *header, phys_addr_bits);
    assert(goal == rsv_from(blob@, header.reserved_mem_map_offset as int, memory_map@, max_address@));

    // Remove any memory the DTB says to reserve.
    let mut entry_offset = header.reserved_mem_map_offset as usize;
    loop
        invariant_except_break
            rsv_from(blob@, entry_offset as int, memory_map@, max_address@) == goal,
        invariant
            memory_map.wf(),
            memory_map.max_address_spec() == max_address@,
            max_address@ == 1usize << phys_addr_bits,
            n == blob@.len(),
            goal == try_parse_spec(blob@, *header, phys_addr_bits),
        ensures
            goal == Some(memory_map@),
        decreases n - entry_offset,
    {
        let entry = match read_rsv_entry(blob, entry_offset) {
            Some(entry) => entry,
            None => return None,
        };
        if entry.is_null() {
            break;
        }
        let address = entry.address() as usize;
        let size = entry.size() as usize;
        if size != 0 {
            if memory_map.remove_region(address, size).is_err() {
                return None;
            }
        }
        entry_offset = entry_offset + 16;
    }

    Some(ParsedDtb { memory_map })
}

/// Parses the DTB at the start of `blob`, or returns `None` if there is none or it is malformed.
/// Physical addresses have `phys_addr_bits` bits (the CPU's width).
pub fn parse(blob: &[u8], phys_addr_bits: u8) -> (r: Option<ParsedDtb>)
    requires
        0 < phys_addr_bits,
        (phys_addr_bits as u32) < usize::BITS,
    ensures
        r is Some <==> parse_spec(blob@, phys_addr_bits) is Some,
        r is Some ==> r->Some_0.memory_map@ == parse_spec(blob@, phys_addr_bits)->Some_0,
        r is Some ==> r->Some_0.memory_map.wf(),
        r is Some ==> r->Some_0.memory_map.max_address_spec() == 1usize << phys_addr_bits,
{
    if !is_dtb(blob) {
        return None;
    }
    let header = read_header(blob)?;
    try_parse_v11(blob, &header, phys_addr_bits)
}

} // verus!
