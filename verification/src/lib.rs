//! The platform-independent core of the Phoenix kernel: the physical memory map, the heap's
//! placement logic, page-table entry encoding, time keeping and assorted low-level helpers.

pub mod allocator;
pub mod block;
pub mod cpu;
pub mod dtb;
pub mod ffi;
pub mod fs;
pub mod gic;
pub mod gpu;
pub mod heap;
pub mod identity_map;
pub mod irqs;
pub mod master_block;
pub mod memory_map;
pub mod page_table;
pub mod paging;
pub mod phys_ptr;
pub mod root_table;
pub mod scheduler;
pub mod shell;
pub mod slab;
pub mod std_fs;
pub mod sync;
pub mod tagged_ptr;
pub mod time;
pub mod userspace;
pub mod timers;
pub mod virtq;
