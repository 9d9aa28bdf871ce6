//! Which registers of the generic interrupt controller (GIC) may be read or written, and the
//! values written to configure an interrupt. The accesses themselves are left to the caller.

use vstd::prelude::*;
use crate::irqs::IrqTrigger;

verus! {

// Offsets of the distributor's registers (`GICD_*`).
/// Distributor control register.
pub const GICD_CTLR: usize = 0x0000;
/// Interrupt controller type register.
pub const GICD_TYPER: usize = 0x0004;
/// Implementer identification register.
pub const GICD_IIDR: usize = 0x0008;
/// Error reporting status register.
pub const GICD_STATUSR: usize = 0x0010;
/// Set non-secure SPI pending register.
pub const GICD_SETSPI_NSR: usize = 0x0040;
/// Clear non-secure SPI pending register.
pub const GICD_CLRSPI_NSR: usize = 0x0048;
/// Set secure SPI pending register.
pub const GICD_SETSPI_SR: usize = 0x0050;
/// Clear secure SPI pending register.
pub const GICD_CLRSPI_SR: usize = 0x0058;
/// The first interrupt group register.
pub const GICD_IGROUPR0: usize = 0x0080;
/// The first interrupt set-enable register.
pub const GICD_ISENABLER0: usize = 0x0100;
/// The first interrupt clear-enable register.
pub const GICD_ICENABLER0: usize = 0x0180;
/// The last interrupt priority register.
pub const GICD_IPRIORITYR254: usize = 0x07f8;
/// The first interrupt processor targets register.
pub const GICD_ITARGETSR0: usize = 0x0800;
/// The first interrupt configuration register.
pub const GICD_ICFGR0: usize = 0x0c00;
/// The last interrupt group modifier register.
pub const GICD_IGRPMODR31: usize = 0x0d7c;
/// The first non-secure access control register.
pub const GICD_NSACR0: usize = 0x0e00;
/// The last non-secure access control register.
pub const GICD_NSACR63: usize = 0x0efc;
/// Software generated interrupt register.
pub const GICD_SIGR: usize = 0x0f00;
/// The first SGI clear-pending register.
pub const GICD_CPENDSGIR0: usize = 0x0f10;
/// The last SGI set-pending register.
pub const GICD_SPENDSGIR3: usize = 0x0f2c;
/// The first interrupt routing register.
pub const GICD_IROUTER32: usize = 0x6100;
/// The last interrupt routing register.
pub const GICD_IROUTER1019: usize = 0x7fd8;
/// Peripheral ID2 register.
pub const GICD_PIDR2: usize = 0xffe8;

/// Whether the distributor register at offset `reg` may be read.
pub open spec fn dist_reg_readable_spec(reg: usize) -> bool {
    reg % 4 == 0 && (
        reg == GICD_CTLR || reg == GICD_TYPER || reg == GICD_IIDR || reg == GICD_STATUSR || reg == GICD_PIDR2
        || (GICD_IGROUPR0 <= reg <= GICD_IPRIORITYR254) || (GICD_ITARGETSR0 <= reg <= GICD_IGRPMODR31)
        || (GICD_NSACR0 <= reg <= GICD_NSACR63) || (GICD_CPENDSGIR0 <= reg <= GICD_SPENDSGIR3)
        || (GICD_IROUTER32 <= reg <= GICD_IROUTER1019))
}

/// Whether the distributor register at offset `reg` may be written.
pub open spec fn dist_reg_writable_spec(reg: usize) -> bool {
    reg % 4 == 0 && (
        reg == GICD_CTLR || reg == GICD_STATUSR || reg == GICD_SETSPI_NSR || reg == GICD_CLRSPI_NSR
        || reg == GICD_SETSPI_SR || reg == GICD_CLRSPI_SR
        || (GICD_IGROUPR0 <= reg <= GICD_IPRIORITYR254) || (GICD_ITARGETSR0 <= reg <= GICD_IGRPMODR31)
        || (GICD_NSACR0 <= reg <= GICD_SIGR) || (GICD_CPENDSGIR0 <= reg <= GICD_SPENDSGIR3)
        || (GICD_IROUTER32 <= reg <= GICD_IROUTER1019))
}

/// Returns whether the distributor register at offset `reg` may be read.
pub fn dist_reg_readable(reg: usize) -> (r: bool)
    ensures
        r == dist_reg_readable_spec(reg),
{
    if reg % 4 != 0 {
        return false;
    }
    reg == GICD_CTLR || reg == GICD_TYPER || reg == GICD_IIDR || reg == GICD_STATUSR || reg == GICD_PIDR2
        || (reg >= GICD_IGROUPR0 && reg <= GICD_IPRIORITYR254) || (reg >= GICD_ITARGETSR0 && reg <= GICD_IGRPMODR31)
        || (reg >= GICD_NSACR0 && reg <= GICD_NSACR63) || (reg >= GICD_CPENDSGIR0 && reg <= GICD_SPENDSGIR3)
        || (reg >= GICD_IROUTER32 && reg <= GICD_IROUTER1019)
}

/// Returns whether the distributor register at offset `reg` may be written.
pub fn dist_reg_writable(reg: usize) -> (r: bool)
    ensures
        r == dist_reg_writable_spec(reg),
{
    if reg % 4 != 0 {
        return false;
    }
    reg == GICD_CTLR || reg == GICD_STATUSR || reg == GICD_SETSPI_NSR || reg == GICD_CLRSPI_NSR
        || reg == GICD_SETSPI_SR || reg == GICD_CLRSPI_SR
        || (reg >= GICD_IGROUPR0 && reg <= GICD_IPRIORITYR254) || (reg >= GICD_ITARGETSR0 && reg <= GICD_IGRPMODR31)
        || (reg >= GICD_NSACR0 && reg <= GICD_SIGR) || (reg >= GICD_CPENDSGIR0 && reg <= GICD_SPENDSGIR3)
        || (reg >= GICD_IROUTER32 && reg <= GICD_IROUTER1019)
}

/// A register of the CPU interface (`GICC_*`).
#[derive(Debug, Clone, Copy, PartialEq, Eq, Structural)]
pub enum CpuMmio {
    /// Control register.
    CTLR,
    /// Priority mask register.
    PMR,
    /// Binary point register, group 0.
    BPR0,
    /// Interrupt acknowledge register, group 0.
    IAR0,
    /// End of interrupt register, group 0.
    EOIR0,
    /// Running priority register.
    RPR,
    /// Highest priority pending interrupt register, group 0.
    HPPIR0,
    /// Binary point register, group 1.
    BPR1,
    /// Interrupt acknowledge register, group 1.
    IAR1,
    /// End of interrupt register, group 1.
    EOIR1,
    /// Highest priority pending interrupt register, group 1.
    HPPIR1,
    /// Error reporting status register.
    STATUSR,
    /// Active priorities register 0, group 0.
    AP0R0,
    /// Active priorities register 1, group 0.
    AP0R1,
    /// Active priorities register 2, group 0.
    AP0R2,
    /// Active priorities register 3, group 0.
    AP0R3,
    /// Active priorities register 0, group 1.
    AP1R0,
    /// Active priorities register 1, group 1.
    AP1R1,
    /// Active priorities register 2, group 1.
    AP1R2,
    /// Active priorities register 3, group 1.
    AP1R3,
    /// Interface identification register.
    IIDR,
    /// Deactivate interrupt register.
    DIR,
}

/// The offset of each CPU interface register.
pub open spec fn cpu_reg_offset(reg: CpuMmio) -> usize {
    match reg {
        CpuMmio::CTLR => 0x0000,
        CpuMmio::PMR => 0x0004,
        CpuMmio::BPR0 => 0x0008,
        CpuMmio::IAR0 => 0x000c,
        CpuMmio::EOIR0 => 0x0010,
        CpuMmio::RPR => 0x0014,
        CpuMmio::HPPIR0 => 0x0018,
        CpuMmio::BPR1 => 0x001c,
        CpuMmio::IAR1 => 0x0020,
        CpuMmio::EOIR1 => 0x0024,
        CpuMmio::HPPIR1 => 0x0028,
        CpuMmio::STATUSR => 0x002c,
        CpuMmio::AP0R0 => 0x00d0,
        CpuMmio::AP0R1 => 0x00d4,
        CpuMmio::AP0R2 => 0x00d8,
        CpuMmio::AP0R3 => 0x00dc,
        CpuMmio::AP1R0 => 0x00e0,
        CpuMmio::AP1R1 => 0x00e4,
        CpuMmio::AP1R2 => 0x00e8,
        CpuMmio::AP1R3 => 0x00ec,
        CpuMmio::IIDR => 0x00fc,
        CpuMmio::DIR => 0x1000,
    }
}

impl CpuMmio {
    /// Returns the register's offset in the CPU interface.
    pub fn offset(self) -> (r: usize)
        ensures
            r == cpu_reg_offset(self),
    {
        match self {
            CpuMmio::CTLR => 0x0000,
            CpuMmio::PMR => 0x0004,
            CpuMmio::BPR0 => 0x0008,
            CpuMmio::IAR0 => 0x000c,
            CpuMmio::EOIR0 => 0x0010,
            CpuMmio::RPR => 0x0014,
            CpuMmio::HPPIR0 => 0x0018,
            CpuMmio::BPR1 => 0x001c,
            CpuMmio::IAR1 => 0x0020,
            CpuMmio::EOIR1 => 0x0024,
            CpuMmio::HPPIR1 => 0x0028,
            CpuMmio::STATUSR => 0x002c,
            CpuMmio::AP0R0 => 0x00d0,
            CpuMmio::AP0R1 => 0x00d4,
            CpuMmio::AP0R2 => 0x00d8,
            CpuMmio::AP0R3 => 0x00dc,
            CpuMmio::AP1R0 => 0x00e0,
            CpuMmio::AP1R1 => 0x00e4,
            CpuMmio::AP1R2 => 0x00e8,
            CpuMmio::AP1R3 => 0x00ec,
            CpuMmio::IIDR => 0x00fc,
            CpuMmio::DIR => 0x1000,
        }
    }
}

/// Whether the CPU interface register `reg` is one of the active priorities registers.
pub open spec fn is_active_priorities(reg: CpuMmio) -> bool {
    let off = cpu_reg_offset(reg);
    (cpu_reg_offset(CpuMmio::AP0R0) <= off <= cpu_reg_offset(CpuMmio::AP0R3))
        || (cpu_reg_offset(CpuMmio::AP1R0) <= off <= cpu_reg_offset(CpuMmio::AP1R3))
}

/// Returns whether the CPU interface register `reg` may be read.
pub fn cpu_reg_readable(reg: CpuMmio) -> (r: bool)
    ensures
        r == (cpu_reg_offset(reg) % 4 == 0 && (
            reg == CpuMmio::CTLR || reg == CpuMmio::PMR || reg == CpuMmio::BPR0 || reg == CpuMmio::IAR0
            || reg == CpuMmio::RPR || reg == CpuMmio::HPPIR0 || reg == CpuMmio::BPR1 || reg == CpuMmio::IAR1
            || reg == CpuMmio::HPPIR1 || reg == CpuMmio::STATUSR || reg == CpuMmio::IIDR
            || is_active_priorities(reg))),
{
    let off = reg.offset();
    if off % 4 != 0 {
        return false;
    }
    match reg {
        CpuMmio::CTLR | CpuMmio::PMR | CpuMmio::BPR0 | CpuMmio::IAR0 | CpuMmio::RPR | CpuMmio::HPPIR0
        | CpuMmio::BPR1 | CpuMmio::IAR1 | CpuMmio::HPPIR1 | CpuMmio::STATUSR | CpuMmio::IIDR => true,
        _ => (off >= CpuMmio::AP0R0.offset() && off <= CpuMmio::AP0R3.offset())
            || (off >= CpuMmio::AP1R0.offset() && off <= CpuMmio::AP1R3.offset()),
    }
}

/// Returns whether the CPU interface register `reg` may be written.
pub fn cpu_reg_writable(reg: CpuMmio) -> (r: bool)
    ensures
        r == (cpu_reg_offset(reg) % 4 == 0 && (
            reg == CpuMmio::CTLR || reg == CpuMmio::PMR || reg == CpuMmio::BPR0 || reg == CpuMmio::EOIR0
            || reg == CpuMmio::BPR1 || reg == CpuMmio::EOIR1 || reg == CpuMmio::STATUSR || reg == CpuMmio::DIR
            || is_active_priorities(reg))),
{
    let off = reg.offset();
    if off % 4 != 0 {
        return false;
    }
    match reg {
        CpuMmio::CTLR | CpuMmio::PMR | CpuMmio::BPR0 | CpuMmio::EOIR0 | CpuMmio::BPR1 | CpuMmio::EOIR1
        | CpuMmio::STATUSR | CpuMmio::DIR => true,
        _ => (off >= CpuMmio::AP0R0.offset() && off <= CpuMmio::AP0R3.offset())
            || (off >= CpuMmio::AP1R0.offset() && off <= CpuMmio::AP1R3.offset()),
    }
}

/// The register that configures `irq` as edge- or level-triggered, and the value it gets given its
/// old value: the interrupt's two bits are cleared, then set to `0b10` for an edge trigger.
pub fn icfgr_write(irq: usize, trigger: IrqTrigger, old_value: u32) -> (r: (usize, u32))
    requires
        irq < 1020,
    ensures
        r.0 == GICD_ICFGR0 + (irq / 16) * 4,
        r.1 == match trigger {
            IrqTrigger::Level => old_value & !(3u32 << ((irq % 16) * 2) as u32),
            IrqTrigger::Edge => (old_value & !(3u32 << ((irq % 16) * 2) as u32)) | (2u32 << ((irq % 16) * 2) as u32),
        },
{
    let reg_index = irq / 16;
    let bit_index = ((irq % 16) * 2) as u32;
    let cleared = old_value & !(3u32 << bit_index);
    let value = match trigger {
        IrqTrigger::Level => cleared,
        IrqTrigger::Edge => cleared | (2u32 << bit_index),
    };
    (GICD_ICFGR0 + reg_index * 4, value)
}

/// The register written to enable `irq`, and the value written: its bit in the set-enable
/// registers.
pub fn isenabler_write(irq: usize) -> (r: (usize, u32))
    requires
        irq < 1020,
    ensures
        r.0 == GICD_ISENABLER0 + (irq / 32) * 4,
        r.1 == 1u32 << (irq % 32) as u32,
{
    (GICD_ISENABLER0 + (irq / 32) * 4, 1u32 << (irq % 32) as u32)
}

/// The register written to disable `irq`, and the value written: its bit in the clear-enable
/// registers.
pub fn icenabler_write(irq: usize) -> (r: (usize, u32))
    requires
        irq < 1020,
    ensures
        r.0 == GICD_ICENABLER0 + (irq / 32) * 4,
        r.1 == 1u32 << (irq % 32) as u32,
{
    (GICD_ICENABLER0 + (irq / 32) * 4, 1u32 << (irq % 32) as u32)
}

// Bits of the distributor control register (GICD_CTLR).
/// Enable Group 0 interrupts.
pub const GICD_CTLR_ENABLE_GRP_0: u32 = 0x01;
/// Enable Non-Secure Group 1 interrupts.
pub const GICD_CTLR_ENABLE_GRP_1_NS: u32 = 0x02;
/// Enable affinity routing for the Non-Secure state.
pub const GICD_CTLR_ARE_NS: u32 = 0x20;
/// Enable "1 of N" wakeup: a sleeping CPU can be woken for a 1-of-N interrupt.
pub const GICD_CTLR_E1NWF: u32 = 0x80;
/// A register write is still pending.
pub const GICD_CTLR_RWP: u32 = 0x8000_0000;

// Bits of the CPU interface's registers.
/// ICC_SRE: the system-register interface is enabled.
pub const ICC_SRE_SRE: u32 = 0x1;
/// ICC_SRE: FIQ bypass disabled.
pub const ICC_SRE_DFB: u32 = 0x2;
/// ICC_SRE: IRQ bypass disabled.
pub const ICC_SRE_DIB: u32 = 0x4;
/// ICC_CTLR: EOI mode.
pub const ICC_CTLR_EOI_MODE: u32 = 0x2;
/// ICC_CTLR: priority masks are hints for interrupt routing.
pub const ICC_CTLR_PMHE: u32 = 0x40;
/// ICC_IGRPEN: the group is enabled.
pub const ICC_IGRPEN_ENABLE: u32 = 0x1;
/// GICC_CTLR: enable the interrupts of the group (Group 1 in the Non-Secure view).
pub const GICC_CTLR_ENABLE_GRP_0: u32 = 0x001;
/// GICC_CTLR: FIQ bypass disabled.
pub const GICC_CTLR_FIQ_BYPASS_DISABLE: u32 = 0x020;
/// GICC_CTLR: IRQ bypass disabled.
pub const GICC_CTLR_IRQ_BYPASS_DISABLE: u32 = 0x040;
/// GICC_CTLR: EOI mode.
pub const GICC_CTLR_EOI_MODE: u32 = 0x200;

/// Whether a write to the distributor control register, whose value is `ctlr`, is still pending;
/// the next write waits until it is not.
pub fn gicd_write_pending(ctlr: u32) -> (r: bool)
    ensures
        r == (ctlr & GICD_CTLR_RWP == GICD_CTLR_RWP),
{
    ctlr & GICD_CTLR_RWP == GICD_CTLR_RWP
}

/// The distributor control register with the sending of interrupts to CPUs disabled.
pub fn gicd_ctlr_disabled(ctlr: u32) -> (r: u32)
    ensures
        r == ctlr & !GICD_CTLR_ENABLE_GRP_0 & !GICD_CTLR_ENABLE_GRP_1_NS,
{
    ctlr & !GICD_CTLR_ENABLE_GRP_0 & !GICD_CTLR_ENABLE_GRP_1_NS
}

/// The distributor control register with affinity routing and "1 of N" wakeup enabled.
pub fn gicd_ctlr_routed(ctlr: u32) -> (r: u32)
    ensures
        r == ctlr | GICD_CTLR_ARE_NS | GICD_CTLR_E1NWF,
{
    ctlr | GICD_CTLR_ARE_NS | GICD_CTLR_E1NWF
}

/// The distributor control register with the sending of interrupts to CPUs enabled.
pub fn gicd_ctlr_enabled(ctlr: u32) -> (r: u32)
    ensures
        r == ctlr | GICD_CTLR_ENABLE_GRP_0 | GICD_CTLR_ENABLE_GRP_1_NS,
{
    ctlr | GICD_CTLR_ENABLE_GRP_0 | GICD_CTLR_ENABLE_GRP_1_NS
}

/// The priority mask register set to let interrupts of every priority through.
pub fn pmr_accept_all(pmr: u32) -> (r: u32)
    ensures
        r == pmr | 0xff,
{
    pmr | 0xff
}

/// Whether the CPU interface is used through system registers, given the value of ICC_SRE; if
/// not, the memory-mapped legacy interface is used.
pub fn uses_system_registers(icc_sre: u32) -> (r: bool)
    ensures
        r == (icc_sre & ICC_SRE_SRE == ICC_SRE_SRE),
{
    icc_sre & ICC_SRE_SRE == ICC_SRE_SRE
}

/// ICC_SRE with FIQ and IRQ bypass disabled.
pub fn icc_sre_enabled(icc_sre: u32) -> (r: u32)
    ensures
        r == icc_sre | ICC_SRE_DFB | ICC_SRE_DIB,
{
    icc_sre | ICC_SRE_DFB | ICC_SRE_DIB
}

/// ICC_CTLR with priority masks used as routing hints. (The EOI mode is meant to be cleared too,
/// but the mask only ever clears it from the flag that is set.)
pub fn icc_ctlr_enabled(icc_ctlr: u32) -> (r: u32)
    ensures
        r == icc_ctlr | (ICC_CTLR_PMHE & !ICC_CTLR_EOI_MODE),
        r == icc_ctlr | ICC_CTLR_PMHE,
{
    assert(0x40u32 & !0x2u32 == 0x40u32) by (bit_vector);
    icc_ctlr | (ICC_CTLR_PMHE & !ICC_CTLR_EOI_MODE)
}

/// ICC_IGRPEN0 with the group enabled.
pub fn icc_igrpen_enabled(icc_igrpen: u32) -> (r: u32)
    ensures
        r == icc_igrpen | ICC_IGRPEN_ENABLE,
{
    icc_igrpen | ICC_IGRPEN_ENABLE
}

/// The legacy CPU interface control register (GICC_CTLR) with interrupts enabled and FIQ and IRQ
/// bypass disabled, and with bit 1 (Group 1 in the Secure view) set. (As with ICC_CTLR, the EOI
/// mode is only cleared from the flag that is set.)
pub fn gicc_ctlr_enabled(gicc_ctlr: u32) -> (r: u32)
    ensures
        r == (gicc_ctlr | GICC_CTLR_ENABLE_GRP_0 | GICC_CTLR_FIQ_BYPASS_DISABLE
            | (GICC_CTLR_IRQ_BYPASS_DISABLE & !GICC_CTLR_EOI_MODE)) | 2,
        r == gicc_ctlr | 0x63,
{
    assert(forall|c: u32| ((c | 0x001u32 | 0x020u32 | (0x040u32 & !0x200u32)) | 2u32) == c | 0x63u32) by (bit_vector);
    (gicc_ctlr | GICC_CTLR_ENABLE_GRP_0 | GICC_CTLR_FIQ_BYPASS_DISABLE
        | (GICC_CTLR_IRQ_BYPASS_DISABLE & !GICC_CTLR_EOI_MODE)) | 2
}

} // verus!
