//! The platform-independent part of aarch64 paging: the bits of translation-table descriptors, the
//! decisions made on them (what state a page is in, what to do about a write fault, which flags a
//! new mapping gets), and address arithmetic for the trampoline that is mapped in every address
//! space. The descriptors themselves live in memory that only the kernel's unverified glue touches;
//! it hands the values it reads to these functions and carries out the action they choose.

use vstd::prelude::*;
use crate::ffi::InvalidVariantError;
use crate::memory_map::RegionType;

verus! {

// Bits of a descriptor that points to a lower-level translation table.
/// Table descriptor: the table holds pages for the secure world.
pub const TABLE_NON_SECURE: u64 = 0x8000_0000_0000_0000;
/// Table descriptor: everything below is read-only.
pub const TABLE_READ_ONLY: u64 = 0x4000_0000_0000_0000;
/// Table descriptor: everything below belongs to exception level 1.
pub const TABLE_EL1: u64 = 0x2000_0000_0000_0000;
/// Table descriptor: unprivileged execute never.
pub const TABLE_UXN: u64 = 0x1000_0000_0000_0000;
/// Table descriptor: privileged execute never.
pub const TABLE_PXN: u64 = 0x0800_0000_0000_0000;
/// Table descriptor: the address of the lower-level table.
pub const TABLE_ADDRESS: u64 = 0x0000_ffff_ffff_f000;
/// Table descriptor: both bits set mark an actual table descriptor.
pub const TABLE_ONE: u64 = 0x0000_0000_0000_0003;

// Bits of a descriptor that maps a page (or a block).
/// Page descriptor: unprivileged execute never.
pub const PAGE_UXN: u64 = 0x0040_0000_0000_0000;
/// Page descriptor: privileged execute never.
pub const PAGE_PXN: u64 = 0x0020_0000_0000_0000;
/// Page descriptor: dirty bit management (writable and not copy-on-write).
pub const PAGE_DBM: u64 = 0x0008_0000_0000_0000;
/// Page descriptor: copy-on-write.
pub const PAGE_COW: u64 = 0x0080_0000_0000_0000;
/// Page descriptor: the physical address of the page.
pub const PAGE_ADDRESS: u64 = 0x0000_ffff_ffff_f000;
/// Descriptor: bits 48 to 51 of the physical address, with a 64-kiB granule.
pub const ADDRESS_48_51: u64 = 0x0000_0000_0000_f000;
/// Page descriptor: the page has been accessed.
pub const PAGE_ACCESSED: u64 = 0x0000_0000_0000_0400;
/// Page descriptor: shareable.
pub const PAGE_SHAREABLE: u64 = 0x0000_0000_0000_0200;
/// Page descriptor: with `PAGE_SHAREABLE`, shareable only within the inner domain.
pub const PAGE_INNER: u64 = 0x0000_0000_0000_0100;
/// Page descriptor: an inverted dirty bit (the hardware reads it as "read-only").
pub const PAGE_NOT_DIRTY: u64 = 0x0000_0000_0000_0080;
/// Page descriptor: accessible at exception level 0.
pub const PAGE_EL0: u64 = 0x0000_0000_0000_0040;
/// Page descriptor: the index of the memory attributes.
pub const PAGE_ATTR_INDEX: u64 = 0x0000_0000_0000_001c;
/// Page descriptor: set in a level-3 table.
pub const PAGE_LEVEL_3: u64 = 0x0000_0000_0000_0002;
/// Page descriptor: set in an actual page descriptor.
pub const PAGE_ONE: u64 = 0x0000_0000_0000_0001;
/// Page descriptor: the page is in the swapfile (if `PAGE_ONE` is clear).
pub const PAGE_IN_SWAPFILE: u64 = 0x0000_0000_0000_0002;
/// Page descriptor: the location in the swapfile.
pub const PAGE_SWAPFILE_LOCATION: u64 = 0xffff_ffff_ffff_fffc;
/// Page descriptor: the page is in the executable file (if `PAGE_ONE` and `PAGE_IN_SWAPFILE` are
/// clear).
pub const PAGE_IN_EXE_FILE: u64 = 0x0000_0000_0000_0004;
/// A descriptor that maps nothing.
pub const UNMAPPED: u64 = 0;

/// The memory-attribute index of normal memory.
pub const ATTR_NORMAL_MEMORY: u8 = 0;
/// The memory-attribute index of device memory.
pub const ATTR_DEVICE_MEMORY: u8 = 1;

/// The size of each CPU's stack in the trampoline.
pub const TRAMPOLINE_STACK_SIZE: usize = 1024;

/// Whether all the bits of `flags` are set in `e`.
pub open spec fn has_flags(e: u64, flags: u64) -> bool {
    e & flags == flags
}

/// Specifies the exception level that will use a given page table.
#[derive(Debug, Clone, Copy, PartialEq, Eq, Structural)]
pub enum ExceptionLevel {
    /// Accessible at EL0 and above.
    El0,
    /// Accessible at EL1 and above.
    El1,
}

impl ExceptionLevel {
    /// Converts the numeric representation of an exception level into the enum.
    pub fn try_from_u8(value: u8) -> (r: Result<ExceptionLevel, InvalidVariantError<u8>>)
        ensures
            value == 0 ==> r == Ok::<ExceptionLevel, InvalidVariantError<u8>>(ExceptionLevel::El0),
            value == 1 ==> r == Ok::<ExceptionLevel, InvalidVariantError<u8>>(ExceptionLevel::El1),
            value > 1 ==> r is Err && r->Err_0.value_spec() == value,
    {
        match value {
            0 => Ok(ExceptionLevel::El0),
            1 => Ok(ExceptionLevel::El1),
            _ => Err(InvalidVariantError::new("ExceptionLevel", value)),
        }
    }

    /// The numeric representation of the exception level.
    pub fn to_u8(self) -> (r: u8)
        ensures
            r == (if self == ExceptionLevel::El0 { 0u8 } else { 1u8 }),
    {
        match self {
            ExceptionLevel::El0 => 0,
            ExceptionLevel::El1 => 1,
        }
    }
}

/// The basic status of a page.
#[derive(Debug, Clone, Copy, PartialEq, Eq, Structural)]
pub enum PageStatus {
    /// The page is mapped (although it might be in a swapfile).
    Mapped,
    /// The page is unmapped, but only temporarily. A CPU is working on remapping it.
    TempUnmapped,
    /// The page is unmapped, and no CPU is working on it.
    Unmapped,
}

/// A level of the tables that map virtual addresses to physical ones.
#[derive(Debug, Clone, Copy, PartialEq, Eq, Structural)]
pub enum TranslationLevel {
    /// Translation using a level-0 table (always a root if it exists).
    Level0,
    /// Translation using a level-1 table (may be a root, depending on translation granule size).
    Level1,
    /// Translation using a level-2 table.
    Level2,
    /// Translation using a level-3 table (which refers to individual pages).
    Level3,
}

/// The sizes of the parts of memory that paging works with, which the boot code determines.
#[derive(Debug, Clone, Copy)]
pub struct PagingConfig {
    /// The number of bytes per translation granule (per smallest page).
    pub page_size: usize,
    /// The number of bits a physical address can use.
    pub max_phys_bits: u8,
    /// The number of bits a virtual address can use.
    pub max_virt_bits: u8,
}

/// Whether `n` is a power of two.
pub open spec fn power_of_two(n: usize) -> bool {
    n != 0 && n & ((n - 1) as usize) == 0
}

impl PagingConfig {
    /// Whether the configuration is one the page tables can be set up with: the page size is a
    /// power of two, virtual addresses have 48 to 52 bits and physical addresses at most 52.
    pub open spec fn wf(&self) -> bool {
        &&& power_of_two(self.page_size)
        &&& 48 <= self.max_virt_bits <= 52
        &&& self.max_phys_bits <= 52
    }

    /// The configuration for the given page size and numbers of virtual and physical address bits,
    /// or `None` if the page tables cannot be set up with them (see `wf`).
    pub fn new(page_size: usize, max_virt_bits: u8, max_phys_bits: u8) -> (r: Option<PagingConfig>)
        ensures
            r is Some <==> (PagingConfig { page_size, max_phys_bits, max_virt_bits }).wf(),
            r matches Some(c) ==> c == (PagingConfig { page_size, max_phys_bits, max_virt_bits }),
    {
        let pow2 = page_size != 0 && page_size & (page_size - 1) == 0;
        if pow2 && 48 <= max_virt_bits && max_virt_bits <= 52 && max_phys_bits <= 52 {
            Some(PagingConfig { page_size, max_phys_bits, max_virt_bits })
        } else {
            None
        }
    }
}

/// Returns the size of a page of virtual memory, which is a power of two in a valid configuration.
pub fn page_size(config: &PagingConfig) -> (r: usize)
    ensures
        r == config.page_size,
        config.wf() ==> power_of_two(r),
{
    config.page_size
}

/// Where the trampoline (the code mapped in every address space) lies.
#[derive(Debug, Clone, Copy)]
pub struct TrampolineLayout {
    /// The address of the trampoline's first byte, as linked.
    pub start: usize,
    /// The address just after the trampoline, as linked.
    pub end: usize,
    /// The virtual address the trampoline is mapped at in every address space.
    pub virt: usize,
    /// The virtual address of the trampoline's stacks.
    pub stacks_virt: usize,
}

/// Converts the given address, which must lie in the trampoline, into the address of the same byte
/// where the trampoline is mapped in every address space.
pub fn trampoline(ptr: usize, layout: &TrampolineLayout) -> (r: usize)
    requires
        layout.start <= ptr < layout.end,
        ptr - layout.start + layout.virt <= usize::MAX,
    ensures
        r == ptr - layout.start + layout.virt,
{
    ptr - layout.start + layout.virt
}

/// Returns the stack pointer for the CPU with the given index when it is in the trampoline and its
/// stack is empty: the stacks are `TRAMPOLINE_STACK_SIZE` bytes each, and grow downwards.
pub fn trampoline_stack_ptr(layout: &TrampolineLayout, cpu_index: usize) -> (r: usize)
    requires
        layout.stacks_virt + (cpu_index + 1) * TRAMPOLINE_STACK_SIZE <= usize::MAX,
    ensures
        r == layout.stacks_virt + (cpu_index + 1) * TRAMPOLINE_STACK_SIZE,
{
    layout.stacks_virt + (cpu_index + 1) * TRAMPOLINE_STACK_SIZE
}

/// Where the trampoline's read-only and read-write parts lie, as linked. Each end is the first
/// address after the part.
#[derive(Debug, Clone, Copy)]
pub struct TrampolineSections {
    pub ro_start: usize,
    pub ro_end: usize,
    pub rw_start: usize,
    pub rw_end: usize,
}

/// One mapping in the trampoline's translation tables: `size` bytes at physical address `phys`,
/// mapped at virtual address `virt`.
#[derive(Debug, Clone, Copy, PartialEq, Eq, Structural)]
pub struct TrampolineMapping {
    pub phys: usize,
    pub virt: usize,
    pub size: usize,
}

/// The mask of the bits a virtual address can use.
pub open spec fn virt_mask_spec(max_virt_bits: u8) -> usize {
    ((1usize << max_virt_bits) - 1) as usize
}

/// The number of bytes `n` rounded up to whole pages of `page_size` bytes.
pub open spec fn whole_pages_spec(n: usize, page_size: usize) -> usize {
    ((n + page_size - 1) / (page_size as int) * page_size) as usize
}

/// The mapping of the part of the trampoline from `section_start` to `section_end` in the
/// trampoline's tables: the part rounded up to whole pages, from its linked address to the same
/// offset from the trampoline's virtual address, cut to the bits a virtual address can use; `None`
/// if the part is empty. The number of virtual-address bits must be 48 to 52.
pub fn trampoline_section_mapping(
    layout: &TrampolineLayout,
    section_start: usize,
    section_end: usize,
    page_size: usize,
    max_virt_bits: u8,
) -> (r: Option<TrampolineMapping>)
    requires
        48 <= max_virt_bits <= 52,
        (max_virt_bits as u32) < usize::BITS,
        page_size > 0,
        layout.start <= section_start <= section_end,
        section_end - section_start + page_size - 1 <= usize::MAX,
        layout.virt + (section_start - layout.start) <= usize::MAX,
    ensures
        ({
            let size = whole_pages_spec((section_end - section_start) as usize, page_size);
            if size == 0 {
                r is None
            } else {
                r == Some(TrampolineMapping {
                    phys: section_start,
                    virt: ((layout.virt + (section_start - layout.start)) as usize) & virt_mask_spec(max_virt_bits),
                    size,
                })
            }
        }),
{
    let len = section_end - section_start;
    let total = len + (page_size - 1);
    let pages = total / page_size;
    assert(pages * page_size <= total) by (nonlinear_arith)
        requires pages == total / page_size, page_size > 0;
    let size = pages * page_size;
    if size == 0 {
        return None;
    }
    proof {
        lemma_virt_mask(max_virt_bits);
    }
    let mask = (1usize << max_virt_bits) - 1;
    Some(TrampolineMapping {
        phys: section_start,
        virt: (layout.virt + (section_start - layout.start)) & mask,
        size,
    })
}

/// The size of the stacks that the trampoline's tables map for `cpu_count` CPUs, rounded up to
/// whole pages.
pub fn trampoline_stacks_size(cpu_count: usize, page_size: usize) -> (r: usize)
    requires
        page_size > 0,
        TRAMPOLINE_STACK_SIZE * cpu_count + page_size - 1 <= usize::MAX,
    ensures
        r == whole_pages_spec((TRAMPOLINE_STACK_SIZE * cpu_count) as usize, page_size),
{
    let n = TRAMPOLINE_STACK_SIZE * cpu_count;
    let total = n + (page_size - 1);
    let pages = total / page_size;
    assert(pages * page_size <= total) by (nonlinear_arith)
        requires pages == total / page_size, page_size > 0;
    pages * page_size
}

/// The virtual address the trampoline's stacks are mapped at, cut to the bits a virtual address
/// can use.
pub fn trampoline_stacks_virt(layout: &TrampolineLayout, max_virt_bits: u8) -> (r: usize)
    requires
        48 <= max_virt_bits <= 52,
        (max_virt_bits as u32) < usize::BITS,
    ensures
        r == layout.stacks_virt & virt_mask_spec(max_virt_bits),
{
    proof {
        lemma_virt_mask(max_virt_bits);
    }
    layout.stacks_virt & ((1usize << max_virt_bits) - 1)
}

// A shift of one by the number of virtual-address bits is not zero.
proof fn lemma_virt_mask(max_virt_bits: u8)
    requires
        max_virt_bits <= 52,
        (max_virt_bits as u32) < usize::BITS,
    ensures
        (1usize << max_virt_bits) >= 1,
{
    assert(max_virt_bits <= 52 && (max_virt_bits as u32) < usize::BITS ==> (1usize << max_virt_bits) >= 1usize)
        by (bit_vector);
}

/// The physical address in a descriptor, for a translation granule of `granule_kib` kiB: with a
/// 64-kiB granule, bits 48 to 51 of the address are stored in bits 12 to 15.
pub open spec fn entry_address_spec(e: u64, granule_kib: u8) -> u64 {
    let addr = e & PAGE_ADDRESS;
    if granule_kib == 64 {
        (addr & !ADDRESS_48_51) | ((e & ADDRESS_48_51) << 36u64)
    } else {
        addr
    }
}

/// The address bits of a descriptor for the physical address `addr`.
pub open spec fn entry_from_address_spec(addr: u64) -> u64 {
    (addr & 0x0000_ffff_ffff_ffff) | ((addr & !0x0000_ffff_ffff_ffffu64) >> 36u64)
}

/// Returns the physical address in the descriptor `e`.
pub fn entry_address(e: u64, granule_kib: u8) -> (r: u64)
    ensures
        r == entry_address_spec(e, granule_kib),
{
    let addr = e & PAGE_ADDRESS;
    if granule_kib == 64 {
        (addr & !ADDRESS_48_51) | ((e & ADDRESS_48_51) << 36u64)
    } else {
        addr
    }
}

/// Returns the address bits of a descriptor for the physical address `addr`, which may use at most
/// 52 bits.
pub fn entry_from_address(addr: u64) -> (r: u64)
    requires
        addr < 0x10_0000_0000_0000,
    ensures
        r == entry_from_address_spec(addr),
{
    (addr & 0x0000_ffff_ffff_ffff) | ((addr & !0x0000_ffff_ffff_ffffu64) >> 36u64)
}

/// With a 64-kiB granule, the address stored in a descriptor is read back unchanged, for every
/// 64-kiB-aligned address of at most 52 bits.
pub proof fn lemma_address_round_trip_64k(addr: u64)
    requires
        addr < 0x10_0000_0000_0000,
        addr % 0x1_0000 == 0,
    ensures
        entry_address_spec(entry_from_address_spec(addr), 64) == addr,
{
    assert(addr % 0x1_0000 == 0 ==> addr & 0xffff == 0) by (bit_vector);
    assert((addr < 0x10_0000_0000_0000 && addr & 0xffff == 0) ==>
        ((((addr & 0x0000_ffff_ffff_ffff) | ((addr & !0x0000_ffff_ffff_ffffu64) >> 36u64)) & 0x0000_ffff_ffff_f000)
            & !0x0000_0000_0000_f000u64)
        | ((((addr & 0x0000_ffff_ffff_ffff) | ((addr & !0x0000_ffff_ffff_ffffu64) >> 36u64)) & 0x0000_0000_0000_f000u64) << 36u64)
        == addr) by (bit_vector);
}

/// With a 4-kiB or 16-kiB granule, the address stored in a descriptor is read back unchanged, for
/// every page-aligned address of at most 48 bits.
pub proof fn lemma_address_round_trip_small(addr: u64, granule_kib: u8)
    requires
        addr < 0x1_0000_0000_0000,
        addr % 0x1000 == 0,
        granule_kib != 64,
    ensures
        entry_address_spec(entry_from_address_spec(addr), granule_kib) == addr,
{
    assert(addr % 0x1000 == 0 ==> addr & 0xfff == 0) by (bit_vector);
    assert((addr < 0x1_0000_0000_0000 && addr & 0xfff == 0) ==>
        (((addr & 0x0000_ffff_ffff_ffff) | ((addr & !0x0000_ffff_ffff_ffffu64) >> 36u64)) & 0x0000_ffff_ffff_f000)
        == addr) by (bit_vector);
}

/// The memory-attribute bits for normal memory.
pub fn normal_memory() -> (r: u64)
    ensures
        r == PAGE_ATTR_INDEX & ((ATTR_NORMAL_MEMORY as u64) << 2u64),
{
    PAGE_ATTR_INDEX & ((ATTR_NORMAL_MEMORY as u64) << 2u64)
}

/// The memory-attribute bits for device memory.
pub fn device_memory() -> (r: u64)
    ensures
        r == PAGE_ATTR_INDEX & ((ATTR_DEVICE_MEMORY as u64) << 2u64),
{
    PAGE_ATTR_INDEX & ((ATTR_DEVICE_MEMORY as u64) << 2u64)
}

/// The flags of a new mapping: if `page_flags` maps the page for the MMU (has `PAGE_ONE`), the
/// memory type's attributes, the exception level's permissions and `PAGE_SHAREABLE` are added.
pub open spec fn mapping_flags_spec(page_flags: u64, reg_type: Option<RegionType>, level: ExceptionLevel) -> u64 {
    if has_flags(page_flags, PAGE_ONE) {
        let type_flags = match reg_type {
            Some(RegionType::Ram) => (PAGE_ATTR_INDEX & ((ATTR_NORMAL_MEMORY as u64) << 2u64)) | PAGE_UXN | PAGE_PXN
                | if has_flags(page_flags, PAGE_COW) { 0u64 } else { PAGE_DBM },
            Some(RegionType::Rom) => PAGE_ATTR_INDEX & ((ATTR_NORMAL_MEMORY as u64) << 2u64),
            Some(RegionType::Mmio) => PAGE_ATTR_INDEX & ((ATTR_DEVICE_MEMORY as u64) << 2u64),
            None => 0u64,
        };
        let level_flags = match level {
            ExceptionLevel::El0 => PAGE_PXN | PAGE_EL0,
            ExceptionLevel::El1 => PAGE_UXN | PAGE_ACCESSED,
        };
        page_flags | type_flags | level_flags | PAGE_SHAREABLE
    } else {
        page_flags
    }
}

/// Returns the flags a new mapping of a region of the given type gets in an address space of the
/// given exception level.
pub fn mapping_flags(page_flags: u64, reg_type: Option<RegionType>, level: ExceptionLevel) -> (r: u64)
    ensures
        r == mapping_flags_spec(page_flags, reg_type, level),
{
    if page_flags & PAGE_ONE == PAGE_ONE {
        let type_flags = match reg_type {
            Some(RegionType::Ram) => normal_memory() | PAGE_UXN | PAGE_PXN
                | if page_flags & PAGE_COW == PAGE_COW { 0u64 } else { PAGE_DBM },
            Some(RegionType::Rom) => normal_memory(),
            Some(RegionType::Mmio) => device_memory(),
            None => 0u64,
        };
        let level_flags = match level {
            ExceptionLevel::El0 => PAGE_PXN | PAGE_EL0,
            ExceptionLevel::El1 => PAGE_UXN | PAGE_ACCESSED,
        };
        page_flags | type_flags | level_flags | PAGE_SHAREABLE
    } else {
        page_flags
    }
}

// Facts about the descriptor bits: how `|` acts on the dirty-bit-modifier bit and on the memory
// attribute index, and which of the fixed flags hold either.
pub(crate) proof fn lemma_descriptor_bits(x: u64, y: u64)
    by (bit_vector)
    ensures
        ((x | y) & 0x0008_0000_0000_0000u64 == 0x0008_0000_0000_0000u64)
            == ((x & 0x0008_0000_0000_0000u64 == 0x0008_0000_0000_0000u64)
                || (y & 0x0008_0000_0000_0000u64 == 0x0008_0000_0000_0000u64)),
        x & 0x1cu64 == 0 ==> (x | y) & 0x1cu64 == y & 0x1cu64,
        y & 0x1cu64 == 0 ==> (x | y) & 0x1cu64 == x & 0x1cu64,
        0x0040_0000_0000_0000u64 & 0x1cu64 == 0,
        0x0020_0000_0000_0000u64 & 0x1cu64 == 0,
        0x0008_0000_0000_0000u64 & 0x1cu64 == 0,
        0x400u64 & 0x1cu64 == 0,
        0x200u64 & 0x1cu64 == 0,
        0x100u64 & 0x1cu64 == 0,
        0x80u64 & 0x1cu64 == 0,
        0x40u64 & 0x1cu64 == 0,
        1u64 & 0x1cu64 == 0,
        0u64 & 0x1cu64 == 0,
        (0x1cu64 & (0u64 << 2u64)) & 0x1cu64 == 0x1cu64 & (0u64 << 2u64),
        (0x1cu64 & (1u64 << 2u64)) & 0x1cu64 == 0x1cu64 & (1u64 << 2u64),
        0x1cu64 & (1u64 << 2u64) != 0x1cu64 & (0u64 << 2u64),
        0x0040_0000_0000_0000u64 & 0x0008_0000_0000_0000u64 != 0x0008_0000_0000_0000u64,
        0x0020_0000_0000_0000u64 & 0x0008_0000_0000_0000u64 != 0x0008_0000_0000_0000u64,
        0x400u64 & 0x0008_0000_0000_0000u64 != 0x0008_0000_0000_0000u64,
        0x200u64 & 0x0008_0000_0000_0000u64 != 0x0008_0000_0000_0000u64,
        0x40u64 & 0x0008_0000_0000_0000u64 != 0x0008_0000_0000_0000u64,
        0u64 & 0x0008_0000_0000_0000u64 != 0x0008_0000_0000_0000u64,
        (0x1cu64 & (0u64 << 2u64)) & 0x0008_0000_0000_0000u64 != 0x0008_0000_0000_0000u64,
        (0x1cu64 & (1u64 << 2u64)) & 0x0008_0000_0000_0000u64 != 0x0008_0000_0000_0000u64,
        0x0008_0000_0000_0000u64 & 0x0008_0000_0000_0000u64 == 0x0008_0000_0000_0000u64,
{
}

/// Whether `b` is one of the single-bit descriptor flags: `PAGE_UXN`, `PAGE_PXN`, `PAGE_DBM`,
/// `PAGE_ACCESSED`, `PAGE_SHAREABLE`, `PAGE_INNER`, `PAGE_NOT_DIRTY`, `PAGE_EL0` or `PAGE_ONE`.
pub open spec fn single_flag(b: u64) -> bool {
    b == 0x0040_0000_0000_0000 || b == 0x0020_0000_0000_0000 || b == 0x0008_0000_0000_0000 || b == 0x400
        || b == 0x200 || b == 0x100 || b == 0x80 || b == 0x40 || b == 1
}

// A single-bit flag is in `x | y` exactly when it is in `x` or in `y`; the single-bit flags are
// distinct; and neither 0 nor a memory attribute index holds any of them.
pub(crate) proof fn lemma_single_flags()
    by (bit_vector)
    ensures
        forall|x: u64, y: u64, b: u64| single_flag(b) ==> ((#[trigger] ((x | y) & b)) == b) == ((x & b == b) || (y & b == b)),
        forall|c: u64, b: u64| single_flag(c) && single_flag(b) ==> ((#[trigger] (c & b)) == b) == (c == b),
        forall|b: u64| single_flag(b) ==> #[trigger] (0u64 & b) != b,
        forall|b: u64| single_flag(b) ==> #[trigger] ((0x1cu64 & (0u64 << 2u64)) & b) != b,
        forall|b: u64| single_flag(b) ==> #[trigger] ((0x1cu64 & (1u64 << 2u64)) & b) != b,
{
}

/// What a new mapping's descriptor holds when `page_flags` maps the page for the MMU: the page is
/// shareable; at EL0 it belongs to EL0 and the kernel never executes it, at EL1 userspace never
/// executes it and it counts as accessed; RAM is never executed at all; MMIO gets the
/// device-memory attribute index and RAM and ROM the normal-memory one. Flags that do not map the
/// page for the MMU are kept as they are.
pub proof fn lemma_mapping_flags_permissions(page_flags: u64, reg_type: Option<RegionType>, level: ExceptionLevel)
    ensures
        !has_flags(page_flags, PAGE_ONE) ==> mapping_flags_spec(page_flags, reg_type, level) == page_flags,
        ({
            let f = mapping_flags_spec(page_flags, reg_type, level);
            has_flags(page_flags, PAGE_ONE) ==> {
                &&& has_flags(f, PAGE_ONE)
                &&& has_flags(f, PAGE_SHAREABLE)
                &&& level == ExceptionLevel::El0 ==> has_flags(f, PAGE_EL0) && has_flags(f, PAGE_PXN)
                &&& level == ExceptionLevel::El1 ==> has_flags(f, PAGE_UXN) && has_flags(f, PAGE_ACCESSED)
                &&& reg_type == Some(RegionType::Ram) ==> has_flags(f, PAGE_UXN) && has_flags(f, PAGE_PXN)
                &&& page_flags & PAGE_ATTR_INDEX == 0 && reg_type == Some(RegionType::Mmio)
                    ==> f & PAGE_ATTR_INDEX == PAGE_ATTR_INDEX & ((ATTR_DEVICE_MEMORY as u64) << 2u64)
                &&& page_flags & PAGE_ATTR_INDEX == 0 && (reg_type == Some(RegionType::Ram) || reg_type == Some(RegionType::Rom))
                    ==> f & PAGE_ATTR_INDEX == PAGE_ATTR_INDEX & ((ATTR_NORMAL_MEMORY as u64) << 2u64)
            }
        }),
{
    lemma_single_flags();
    if has_flags(page_flags, PAGE_ONE) {
        let normal = PAGE_ATTR_INDEX & ((ATTR_NORMAL_MEMORY as u64) << 2u64);
        let device = PAGE_ATTR_INDEX & ((ATTR_DEVICE_MEMORY as u64) << 2u64);
        let dirty = if has_flags(page_flags, PAGE_COW) { 0u64 } else { PAGE_DBM };
        let t = match reg_type {
            Some(RegionType::Ram) => normal | PAGE_UXN | PAGE_PXN | dirty,
            Some(RegionType::Rom) => normal,
            Some(RegionType::Mmio) => device,
            None => 0u64,
        };
        let l = match level {
            ExceptionLevel::El0 => PAGE_PXN | PAGE_EL0,
            ExceptionLevel::El1 => PAGE_UXN | PAGE_ACCESSED,
        };
        let f = page_flags | t | l | PAGE_SHAREABLE;
        assert(mapping_flags_spec(page_flags, reg_type, level) == f);
        assert(has_flags(f, PAGE_ONE));
        assert(has_flags(f, PAGE_SHAREABLE));
        if level == ExceptionLevel::El0 {
            assert(has_flags(l, PAGE_EL0) && has_flags(l, PAGE_PXN));
        } else {
            assert(has_flags(l, PAGE_UXN) && has_flags(l, PAGE_ACCESSED));
        }
        if reg_type == Some(RegionType::Ram) {
            assert(has_flags(t, PAGE_UXN) && has_flags(t, PAGE_PXN));
        }
        if page_flags & PAGE_ATTR_INDEX == 0 {
            lemma_descriptor_bits(normal, PAGE_UXN);
            lemma_descriptor_bits(normal | PAGE_UXN, PAGE_PXN);
            lemma_descriptor_bits(normal | PAGE_UXN | PAGE_PXN, dirty);
            lemma_descriptor_bits(PAGE_PXN, PAGE_EL0);
            lemma_descriptor_bits(PAGE_UXN, PAGE_ACCESSED);
            lemma_descriptor_bits(page_flags, t);
            lemma_descriptor_bits(page_flags | t, l);
            lemma_descriptor_bits(page_flags | t | l, PAGE_SHAREABLE);
        }
    }
}

/// Only RAM mapped for the MMU gets the dirty-bit modifier (`PAGE_DBM`, which lets the hardware
/// make a clean page writable in place), and never a copy-on-write mapping: a copy-on-write page
/// stays read-only at every exception level, so a write to it faults and the page is copied.
pub proof fn lemma_only_private_ram_is_writable_in_place(page_flags: u64, reg_type: Option<RegionType>, level: ExceptionLevel)
    ensures
        has_flags(page_flags, PAGE_COW) && !has_flags(page_flags, PAGE_DBM)
            ==> !has_flags(mapping_flags_spec(page_flags, reg_type, level), PAGE_DBM),
        reg_type != Some(RegionType::Ram) && !has_flags(page_flags, PAGE_DBM)
            ==> !has_flags(mapping_flags_spec(page_flags, reg_type, level), PAGE_DBM),
        has_flags(page_flags, PAGE_ONE) && !has_flags(page_flags, PAGE_COW) && reg_type == Some(RegionType::Ram)
            ==> has_flags(mapping_flags_spec(page_flags, reg_type, level), PAGE_DBM),
{
    if has_flags(page_flags, PAGE_ONE) {
        let normal = PAGE_ATTR_INDEX & ((ATTR_NORMAL_MEMORY as u64) << 2u64);
        let device = PAGE_ATTR_INDEX & ((ATTR_DEVICE_MEMORY as u64) << 2u64);
        let dirty = if has_flags(page_flags, PAGE_COW) { 0u64 } else { PAGE_DBM };
        let t = match reg_type {
            Some(RegionType::Ram) => normal | PAGE_UXN | PAGE_PXN | dirty,
            Some(RegionType::Rom) => normal,
            Some(RegionType::Mmio) => device,
            None => 0u64,
        };
        let l = match level {
            ExceptionLevel::El0 => PAGE_PXN | PAGE_EL0,
            ExceptionLevel::El1 => PAGE_UXN | PAGE_ACCESSED,
        };
        lemma_descriptor_bits(normal, PAGE_UXN);
        lemma_descriptor_bits(normal | PAGE_UXN, PAGE_PXN);
        lemma_descriptor_bits(normal | PAGE_UXN | PAGE_PXN, dirty);
        lemma_descriptor_bits(PAGE_PXN, PAGE_EL0);
        lemma_descriptor_bits(PAGE_UXN, PAGE_ACCESSED);
        lemma_descriptor_bits(page_flags, t);
        lemma_descriptor_bits(page_flags | t, l);
        lemma_descriptor_bits(page_flags | t | l, PAGE_SHAREABLE);
        assert(mapping_flags_spec(page_flags, reg_type, level) == page_flags | t | l | PAGE_SHAREABLE);
    }
}

/// The status of the page that the level-3 descriptor `e` describes.
pub open spec fn leaf_page_status_spec(e: u64) -> PageStatus {
    if has_flags(e, PAGE_ONE | PAGE_LEVEL_3) || has_flags(e, PAGE_IN_SWAPFILE) || has_flags(e, PAGE_IN_EXE_FILE) {
        PageStatus::Mapped
    } else if e == UNMAPPED {
        PageStatus::Unmapped
    } else {
        PageStatus::TempUnmapped
    }
}

/// Returns the status of the page that the level-3 descriptor `e` describes. A descriptor that
/// has `PAGE_ONE` must also have `PAGE_LEVEL_3` (or be in the swapfile or the executable file).
pub fn leaf_page_status(e: u64) -> (r: PageStatus)
    requires
        !(has_flags(e, PAGE_ONE) && !has_flags(e, PAGE_LEVEL_3) && !has_flags(e, PAGE_IN_EXE_FILE)),
    ensures
        r == leaf_page_status_spec(e),
{
    if e & (PAGE_ONE | PAGE_LEVEL_3) == PAGE_ONE | PAGE_LEVEL_3 {
        PageStatus::Mapped
    } else if e & PAGE_IN_SWAPFILE == PAGE_IN_SWAPFILE {
        PageStatus::Mapped
    } else if e & PAGE_IN_EXE_FILE == PAGE_IN_EXE_FILE {
        PageStatus::Mapped
    } else if e == UNMAPPED {
        PageStatus::Unmapped
    } else {
        PageStatus::TempUnmapped
    }
}

/// What a descriptor in a table above level 3 says about an address.
#[derive(Debug, Clone, Copy, PartialEq, Eq, Structural)]
pub enum BranchLookup {
    /// The address is translated by the lower-level table at this physical address.
    Subtable(u64),
    /// The descriptor maps a block (or nothing), so the page has this status.
    Status(PageStatus),
}

/// Returns what the descriptor `e`, in a table above level 3, says about an address: the table to
/// look in next, or the status of the page.
pub fn branch_lookup(e: u64, granule_kib: u8) -> (r: BranchLookup)
    ensures
        has_flags(e, TABLE_ONE) ==> r == BranchLookup::Subtable(entry_address_spec(e, granule_kib)),
        !has_flags(e, TABLE_ONE) ==> r == BranchLookup::Status(
            if has_flags(e, PAGE_ONE) || has_flags(e, PAGE_IN_SWAPFILE) || has_flags(e, PAGE_IN_EXE_FILE) {
                PageStatus::Mapped
            } else {
                PageStatus::Unmapped
            }),
{
    if e & TABLE_ONE == TABLE_ONE {
        BranchLookup::Subtable(entry_address(e, granule_kib))
    } else if e & PAGE_ONE == PAGE_ONE || e & PAGE_IN_SWAPFILE == PAGE_IN_SWAPFILE
        || e & PAGE_IN_EXE_FILE == PAGE_IN_EXE_FILE {
        BranchLookup::Status(PageStatus::Mapped)
    } else {
        BranchLookup::Status(PageStatus::Unmapped)
    }
}

/// Returns the location in the swapfile of the page that the level-3 descriptor `e` describes, or
/// `None` if it is not in the swapfile.
pub fn leaf_location_in_swapfile(e: u64) -> (r: Option<u64>)
    ensures
        has_flags(e, PAGE_ONE | PAGE_LEVEL_3) ==> r is None,
        !has_flags(e, PAGE_ONE | PAGE_LEVEL_3) && has_flags(e, PAGE_IN_SWAPFILE) ==> r == Some(e & PAGE_SWAPFILE_LOCATION),
        !has_flags(e, PAGE_ONE | PAGE_LEVEL_3) && !has_flags(e, PAGE_IN_SWAPFILE) ==> r is None,
{
    if e & (PAGE_ONE | PAGE_LEVEL_3) == PAGE_ONE | PAGE_LEVEL_3 {
        None
    } else if e & PAGE_IN_SWAPFILE == PAGE_IN_SWAPFILE {
        Some(e & PAGE_SWAPFILE_LOCATION)
    } else {
        None
    }
}

/// The indices, in the level-1, level-2 and level-3 tables of the 64-kiB granule, of the entries
/// that translate the virtual address `addr`: its bits 42 to 51, 29 to 41 and 16 to 28.
pub fn indices_64k(addr: u64) -> (r: (usize, usize, usize))
    ensures
        r.0 == (addr >> 42u64) % 1024,
        r.1 == (addr >> 29u64) % 8192,
        r.2 == (addr >> 16u64) % 8192,
{
    (((addr >> 42u64) % 1024) as usize, ((addr >> 29u64) % 8192) as usize, ((addr >> 16u64) % 8192) as usize)
}

/// Whether a table descriptor puts everything below it at the wrong exception level for an access
/// from `level`.
pub open spec fn table_el_mismatch_spec(e: u64, level: ExceptionLevel) -> bool {
    match level {
        ExceptionLevel::El0 => has_flags(e, TABLE_EL1),
        // An EL0 page table can contain EL1 pages.
        ExceptionLevel::El1 => false,
    }
}

/// Whether a page descriptor puts the page at the wrong exception level for an access from
/// `level`. The kernel is not allowed to use EL0's virtual addresses.
pub open spec fn page_el_mismatch_spec(e: u64, level: ExceptionLevel) -> bool {
    match level {
        ExceptionLevel::El0 => !has_flags(e, PAGE_EL0),
        ExceptionLevel::El1 => has_flags(e, PAGE_EL0),
    }
}

/// Whether a walk of the tables from `level` may go on through the table descriptor `e`: the table
/// exists and is at the right exception level.
pub fn table_walk_allows(e: u64, level: ExceptionLevel) -> (r: bool)
    ensures
        r == (has_flags(e, TABLE_ONE) && !table_el_mismatch_spec(e, level)),
{
    let mismatch = match level {
        ExceptionLevel::El0 => e & TABLE_EL1 == TABLE_EL1,
        ExceptionLevel::El1 => false,
    };
    e & TABLE_ONE == TABLE_ONE && !mismatch
}

/// A step down the 64-kiB-granule translation tables, on the way to the descriptor that a write
/// fault is about.
#[derive(Debug, Clone, Copy, PartialEq, Eq, Structural)]
pub enum FaultWalkStep {
    /// Read the descriptor at `index` in the table at physical address `table`, one level down.
    Descend {
        /// The address of the lower-level table.
        table: u64,
        /// The index of the entry to read in it.
        index: usize,
    },
    /// The access is denied: the page no longer exists, or the table puts it at the wrong
    /// exception level.
    Deny,
}

/// The step down from the table descriptor `entry` at translation level `level` for the address
/// `addr`: to the table it points to, at the index for `addr` at the next level.
pub open spec fn fault_walk_descend(entry: u64, level: TranslationLevel, addr: u64) -> FaultWalkStep {
    FaultWalkStep::Descend {
        table: entry_address_spec(entry, 64),
        index: if level == TranslationLevel::Level1 {
            ((addr >> 29u64) % 8192) as usize
        } else {
            ((addr >> 16u64) % 8192) as usize
        },
    }
}

/// Decides where the walk for a write fault at `addr` from `exc_level` goes after reading the table
/// descriptor `entry` at translation level `level` (1 or 2), when the fault is at a lower level:
/// down to the table the descriptor points to, at the index for `addr` at the next level, if the
/// table exists and is at the right exception level.
pub fn fault_walk_step(entry: u64, exc_level: ExceptionLevel, level: TranslationLevel, addr: u64) -> (r: FaultWalkStep)
    requires
        level == TranslationLevel::Level1 || level == TranslationLevel::Level2,
    ensures
        !(has_flags(entry, TABLE_ONE) && !table_el_mismatch_spec(entry, exc_level)) ==> r == FaultWalkStep::Deny,
        has_flags(entry, TABLE_ONE) && !table_el_mismatch_spec(entry, exc_level) ==> r == fault_walk_descend(entry, level, addr),
{
    if !table_walk_allows(entry, exc_level) {
        return FaultWalkStep::Deny;
    }
    let (_, index2, index3) = indices_64k(addr);
    let index = match level {
        TranslationLevel::Level1 => index2,
        _ => index3,
    };
    FaultWalkStep::Descend { table: entry_address(entry, 64), index }
}

/// The size of the page or block that a descriptor at translation level `level` maps with a
/// 64-kiB granule, which is how much a copy-on-write fault copies: 4 TiB at level 1, 512 MiB at
/// level 2 and 64 kiB at level 3.
pub fn cow_copy_size(level: TranslationLevel) -> (r: u64)
    requires
        level != TranslationLevel::Level0,
    ensures
        level == TranslationLevel::Level1 ==> r == 1u64 << 42u64,
        level == TranslationLevel::Level2 ==> r == 1u64 << 29u64,
        level == TranslationLevel::Level3 ==> r == 1u64 << 16u64,
{
    match level {
        TranslationLevel::Level1 => 1u64 << 42u64,
        TranslationLevel::Level2 => 1u64 << 29u64,
        _ => 1u64 << 16u64,
    }
}

/// What to do about a write that caused a permission fault on a page.
#[derive(Debug, Clone, Copy, PartialEq, Eq, Structural)]
pub enum WriteFaultAction {
    /// Nothing: the descriptor no longer describes a present page, so another CPU must have
    /// resolved the fault first.
    AlreadyResolved,
    /// The access is denied: the page belongs to the wrong exception level.
    Deny,
    /// The page is writable: replace the descriptor with `new` (the same with its not-dirty bit
    /// cleared) if it has not changed meanwhile, then invalidate the TLB entry.
    MarkDirty {
        /// The new descriptor.
        new: u64,
    },
    /// The page is copy-on-write: replace the descriptor with `unmapped` (the same without its
    /// valid bit) if it has not changed meanwhile, copy the page and map the copy with
    /// `cow_remapped_entry`.
    CopyOnWrite {
        /// The descriptor that temporarily unmaps the page.
        unmapped: u64,
    },
}

/// Whether the page descriptor `d` describes a present page (in a level-3 table if `leaf`).
pub open spec fn present_spec(d: u64, leaf: bool) -> bool {
    if leaf {
        has_flags(d, PAGE_ONE | PAGE_LEVEL_3)
    } else {
        !has_flags(d, TABLE_ONE) && has_flags(d, PAGE_ONE)
    }
}

/// Whether a write fault on the descriptor `d` would leave nothing to do but wait: the page is
/// present and at the right level but neither writable nor copy-on-write.
pub open spec fn write_fault_stalls(d: u64, leaf: bool, level: ExceptionLevel) -> bool {
    present_spec(d, leaf) && !page_el_mismatch_spec(d, level) && !has_flags(d, PAGE_DBM) && !has_flags(d, PAGE_COW)
}

/// Returns whether a write fault on the descriptor `d` leaves nothing to do but wait for another
/// CPU to change the descriptor.
pub fn write_fault_would_stall(d: u64, leaf: bool, level: ExceptionLevel) -> (r: bool)
    ensures
        r == write_fault_stalls(d, leaf, level),
{
    let present = if leaf {
        d & (PAGE_ONE | PAGE_LEVEL_3) == PAGE_ONE | PAGE_LEVEL_3
    } else {
        d & TABLE_ONE != TABLE_ONE && d & PAGE_ONE == PAGE_ONE
    };
    let mismatch = match level {
        ExceptionLevel::El0 => d & PAGE_EL0 != PAGE_EL0,
        ExceptionLevel::El1 => d & PAGE_EL0 == PAGE_EL0,
    };
    present && !mismatch && d & PAGE_DBM != PAGE_DBM && d & PAGE_COW != PAGE_COW
}

/// The action for a write fault on the descriptor `d`.
pub open spec fn write_fault_action_spec(d: u64, leaf: bool, level: ExceptionLevel) -> WriteFaultAction {
    if !present_spec(d, leaf) {
        WriteFaultAction::AlreadyResolved
    } else if page_el_mismatch_spec(d, level) {
        WriteFaultAction::Deny
    } else if has_flags(d, PAGE_DBM) {
        WriteFaultAction::MarkDirty { new: d & !PAGE_NOT_DIRTY }
    } else {
        WriteFaultAction::CopyOnWrite { unmapped: d & !PAGE_ONE }
    }
}

/// Whether an access of `access_size` bytes at `addr` lies within one page of `page_size` bytes
/// (the last byte is found with wrapping arithmetic).
pub fn access_in_one_page(addr: u64, access_size: u64, page_size: u64) -> (r: bool)
    requires
        access_size > 0,
        page_size > 0,
    ensures
        r == (addr.wrapping_add(access_size).wrapping_sub(1) / page_size == addr / page_size),
{
    addr.wrapping_add(access_size).wrapping_sub(1) / page_size == addr / page_size
}

/// Decides how to resolve a permission fault caused by a write of `access_size` bytes at `addr`,
/// given the descriptor `d` found at translation level `trans_level` for the faulting exception
/// level. The access may not span pages, level 0 has no pages, and a present page at the right
/// level must be writable or copy-on-write.
pub fn resolve_write_fault(
    exc_level: ExceptionLevel,
    trans_level: TranslationLevel,
    d: u64,
    addr: u64,
    access_size: u64,
    page_size: u64,
) -> (r: WriteFaultAction)
    requires
        access_size > 0,
        page_size > 0,
        addr.wrapping_add(access_size).wrapping_sub(1) / page_size == addr / page_size,
        trans_level != TranslationLevel::Level0,
        !write_fault_stalls(d, trans_level == TranslationLevel::Level3, exc_level),
    ensures
        r == write_fault_action_spec(d, trans_level == TranslationLevel::Level3, exc_level),
{
    let leaf = match trans_level {
        TranslationLevel::Level3 => true,
        _ => false,
    };
    let present = if leaf {
        d & (PAGE_ONE | PAGE_LEVEL_3) == PAGE_ONE | PAGE_LEVEL_3
    } else {
        d & TABLE_ONE != TABLE_ONE && d & PAGE_ONE == PAGE_ONE
    };
    if !present {
        return WriteFaultAction::AlreadyResolved;
    }
    let mismatch = match exc_level {
        ExceptionLevel::El0 => d & PAGE_EL0 != PAGE_EL0,
        ExceptionLevel::El1 => d & PAGE_EL0 == PAGE_EL0,
    };
    if mismatch {
        WriteFaultAction::Deny
    } else if d & PAGE_DBM == PAGE_DBM {
        WriteFaultAction::MarkDirty { new: d & !PAGE_NOT_DIRTY }
    } else {
        WriteFaultAction::CopyOnWrite { unmapped: d & !PAGE_ONE }
    }
}

/// The descriptor that maps the copy of a copy-on-write page at physical address `copy_addr`: the
/// old descriptor `d` without its copy-on-write and not-dirty bits, with dirty-bit management, and
/// with the copy's address bits added.
pub open spec fn cow_remapped_entry_spec(d: u64, copy_addr: u64) -> u64 {
    (d & !PAGE_COW & !PAGE_NOT_DIRTY) | (PAGE_DBM & !PAGE_ADDRESS) | copy_addr
}

/// Returns the descriptor that maps the copy of a copy-on-write page.
pub fn cow_remapped_entry(d: u64, copy_addr: u64) -> (r: u64)
    ensures
        r == cow_remapped_entry_spec(d, copy_addr),
{
    (d & !PAGE_COW & !PAGE_NOT_DIRTY) | (PAGE_DBM & !PAGE_ADDRESS) | copy_addr
}

/// A descriptor with the accessed flag set, as the access-flag fault handler stores it.
pub fn with_accessed_flag(d: u64) -> (r: u64)
    ensures
        r == d | PAGE_ACCESSED,
{
    d | PAGE_ACCESSED
}

/// Resolving a write fault on a writable page only ever clears its not-dirty bit, and on a
/// copy-on-write page only unmaps it: every other bit of the descriptor is kept.
pub proof fn lemma_write_fault_keeps_other_bits(d: u64, leaf: bool, level: ExceptionLevel)
    ensures
        write_fault_action_spec(d, leaf, level) matches WriteFaultAction::MarkDirty { new }
            ==> new | PAGE_NOT_DIRTY == d | PAGE_NOT_DIRTY && !has_flags(new, PAGE_NOT_DIRTY),
        write_fault_action_spec(d, leaf, level) matches WriteFaultAction::CopyOnWrite { unmapped }
            ==> unmapped | PAGE_ONE == d && !has_flags(unmapped, PAGE_ONE),
{
    assert((d & !0x80u64) | 0x80u64 == d | 0x80u64) by (bit_vector);
    assert((d & !0x80u64) & 0x80u64 != 0x80u64) by (bit_vector);
    assert(d & 1u64 == 1u64 ==> (d & !1u64) | 1u64 == d) by (bit_vector);
    assert((d & !1u64) & 1u64 != 1u64) by (bit_vector);
    assert(d & (1u64 | 2u64) == (1u64 | 2u64) ==> d & 1u64 == 1u64) by (bit_vector);
}

} // verus!
