use phoenix::block::BlockMut;
use phoenix::cpu::{count_cpus, cpu_affinity, cpu_index};
use phoenix::gic::{
    cpu_reg_readable, cpu_reg_writable, dist_reg_readable, dist_reg_writable, gicc_ctlr_enabled, gicd_ctlr_disabled,
    gicd_ctlr_enabled, gicd_ctlr_routed, gicd_write_pending, icc_ctlr_enabled, icc_igrpen_enabled, icc_sre_enabled,
    icenabler_write, icfgr_write, isenabler_write, pmr_accept_all, uses_system_registers, CpuMmio, GICD_ICENABLER0,
    GICD_ICFGR0, GICD_ISENABLER0,
};
use phoenix::irqs::{
    cpu_count_without_affinity_routing, intid_to_handle, run_loaded_isr, irq_exit_code, max_irq, register_irq, registration_result, IsrPtr, round_robin_target,
    GiccIidr, IrqTrigger, IsrPtrNodeHeap, IsrResult, Priority, IRQ_COUNT,
};
use phoenix::master_block::{MasterBlock, GUARDS_PER_MASTER_BLOCK, MAX_VISITORS};
use phoenix::phys_ptr::{MutPtr, PhysPtr};
use phoenix::scheduler::{SharedMemory, ThreadCreationError};
use phoenix::time::{Duration, Hertz};
use phoenix::timers::{
    clock_irq_result, id_from_bytes, is_pl031, PRIMECELL_ID, cntkctl_setup, get_time_elapsed, init_clock_per_cpu, init_per_cpu, scheduling_timer_finished, timer_irq_result, Timer,
    CNTKCTL_EL0PCTEN, CNTKCTL_EL0PTEN, CNTKCTL_EL0VCTEN, CNTKCTL_EL0VTEN, CNTKCTL_EVNTEN,
};

#[test]
fn one_cpu() {
    assert_eq!(count_cpus(), 1);
    assert_eq!(cpu_index(), 0);
    assert_eq!(cpu_affinity(0x1234_5678_9abc_def0), 0x0000_0078_00bc_def0);
    assert_eq!(cpu_affinity(-1), 0x0000_00ff_00ff_ffff);
}

#[test]
fn timer_countdowns() {
    let timer = Timer::new();
    // A million ticks per second: one tick per microsecond.
    assert_eq!(timer.interrupt_after(Duration::new(0, 5_000_000), Hertz(1_000_000)), 5_000);
    // Less than a millisecond still interrupts.
    assert_eq!(timer.interrupt_after(Duration::new(0, 999_999), Hertz(1_000_000)), 1000);
    assert_eq!(timer.interrupt_after(Duration::new(0, 1_500_000), Hertz(1_000_000)), 1500);
    assert_eq!(timer.interrupt_after(Duration::new(0, 1), Hertz(1_000_000)), 1);
    assert_eq!(timer.interrupt_after(Duration::new(0, 0), Hertz(62_500_000)), 1);
    // Far in the future: saturates.
    assert_eq!(timer.interrupt_after(Duration::new(1_000_000, 0), Hertz(62_500_000)), u32::MAX);
}

#[test]
fn timer_control_setup() {
    // 62.5 MHz: 62500 per millisecond, which needs 16 bits.
    let r = cntkctl_setup(CNTKCTL_EL0PCTEN | CNTKCTL_EL0VCTEN | 0x8, 62_500_000);
    assert_eq!(r, 0x8 | CNTKCTL_EVNTEN | (16 << 16) | CNTKCTL_EL0VTEN | CNTKCTL_EL0PTEN);
    let r = cntkctl_setup(0, 0);
    assert_eq!(r, CNTKCTL_EVNTEN | CNTKCTL_EL0VTEN | CNTKCTL_EL0PTEN);
}

#[test]
fn timer_interrupts() {
    assert_eq!(timer_irq_result(0x5), IsrResult::PreemptThread);
    assert_eq!(timer_irq_result(0x7), IsrResult::WrongIsr);
    assert_eq!(timer_irq_result(0x1), IsrResult::WrongIsr);
    assert!(init_clock_per_cpu().is_ok());
    assert!(!scheduling_timer_finished());
}

#[test]
fn elapsed_time() {
    assert_eq!(get_time_elapsed(62_500_000, Hertz(62_500_000)).0, 1_000_000_000);
    assert_eq!(get_time_elapsed(1, Hertz(3)).0, 333_333_333);
    assert_eq!(get_time_elapsed(u64::MAX, Hertz(1_000_000_000)).0, u64::MAX);
}

#[test]
fn distributor_register_access() {
    assert!(dist_reg_readable(0x0000));
    assert!(dist_reg_readable(0x0004));
    assert!(!dist_reg_writable(0x0004));
    assert!(dist_reg_writable(0x0040));
    assert!(!dist_reg_readable(0x0040));
    assert!(!dist_reg_readable(0x0002));
    assert!(dist_reg_readable(0x6100));
    assert!(!dist_reg_readable(0x8000));
}

#[test]
fn cpu_interface_register_access() {
    assert!(cpu_reg_readable(CpuMmio::IAR1));
    assert!(!cpu_reg_writable(CpuMmio::IAR1));
    assert!(cpu_reg_writable(CpuMmio::EOIR1));
    assert!(!cpu_reg_readable(CpuMmio::EOIR1));
    assert!(cpu_reg_readable(CpuMmio::AP1R2));
    assert!(cpu_reg_writable(CpuMmio::AP0R0));
    assert!(cpu_reg_writable(CpuMmio::DIR));
    assert_eq!(CpuMmio::DIR.offset(), 0x1000);
}

#[test]
fn gic_register_writes() {
    assert_eq!(icfgr_write(33, IrqTrigger::Edge, 0xffff_ffff), (GICD_ICFGR0 + 8, 0xffff_fffb));
    assert_eq!(icfgr_write(33, IrqTrigger::Level, 0xffff_ffff), (GICD_ICFGR0 + 8, 0xffff_fff3));
    assert_eq!(isenabler_write(40), (GICD_ISENABLER0 + 4, 1 << 8));
    assert_eq!(icenabler_write(31), (GICD_ICENABLER0, 1 << 31));
}

#[test]
fn irq_registration() {
    let heap = IsrPtrNodeHeap::new();
    assert!(register_irq(&heap, 27, 0x1000, 1019).is_ok());
    // The same ISR can be registered again, but not another one.
    assert_eq!(heap.insert_node(27, 0x1000).ok().map(|p| p.irq), Some(27));
    assert!(heap.insert_node(27, 0x2000).is_err());
    assert_eq!(heap.handle_irq(27, |isr| if isr == 0x1000 { IsrResult::PreemptThread } else { IsrResult::WrongIsr }),
        IsrResult::PreemptThread);
    assert_eq!(heap.handle_irq(28, |_| IsrResult::Serviced), IsrResult::WrongIsr);
    heap.remove_node(27);
    assert_eq!(heap.handle_irq(27, |_| IsrResult::Serviced), IsrResult::WrongIsr);
    assert!(heap.insert_node(27, 0x2000).is_ok());
    assert!(IRQ_COUNT > 1018);
}

#[test]
fn irq_decoding() {
    assert_eq!(intid_to_handle(0x0000_001b), Some(27));
    assert_eq!(intid_to_handle(0xff00_03fb), Some(1019));
    assert_eq!(intid_to_handle(0x0000_03ff), None);
    assert_eq!(irq_exit_code(IsrResult::PreemptThread, false), 1);
    assert_eq!(irq_exit_code(IsrResult::Serviced, true), 1);
    assert_eq!(irq_exit_code(IsrResult::WrongIsr, false), 0);
    assert_eq!(GiccIidr { bits: 0x0004_043b }.arch_version(), 4);
    assert_eq!(max_irq(0x0000_0003), 127);
    assert_eq!(max_irq(0x0000_0000), 31);
    assert_eq!(max_irq(0x0000_001f), 1019);
    assert_eq!(cpu_count_without_affinity_routing(0x0000_00e0), 8);
    assert_eq!(cpu_count_without_affinity_routing(0), 1);
    assert_eq!(round_robin_target(5, 4), 2);
    assert_eq!(Priority::Medium.to_u8(), 0x70);
    assert_eq!(Priority::Lowest.to_u8(), 0xe0);
}

#[test]
fn master_block_slots() {
    let mut block = MasterBlock::new_dynamic();
    assert_eq!(block.claim_node(), Some(0));
    assert_eq!(block.claim_node(), Some(1));
    assert_eq!(block.nodes_used(), 0b11);
    let mut unused = MAX_VISITORS + GUARDS_PER_MASTER_BLOCK;
    assert!(!block.unuse_node(0, &mut unused));
    assert_eq!(block.nodes_used(), 0b10);
    assert_eq!(block.claim_node(), Some(0));
    assert!(!block.unuse_node(0, &mut unused));
    // Giving back the last slot frees the block.
    assert!(block.unuse_node(1, &mut unused));
    assert_eq!(unused, MAX_VISITORS);
    assert_eq!(block.nodes_used(), u64::MAX);
    assert_eq!(block.claim_node(), None);
}

#[test]
fn first_master_block_is_never_freed() {
    let mut block = MasterBlock::make_first();
    assert_eq!(block.nodes_used(), 1);
    assert_eq!(block.claim_node(), Some(1));
    let mut unused = 1000;
    assert!(!block.unuse_node(1, &mut unused));
    assert!(!block.unuse_node(0, &mut unused));
    assert_eq!(block.nodes_used(), 0);
    assert_eq!(unused, 1000);
}

#[test]
fn scheduler_records() {
    let block = BlockMut::new(PhysPtr::<u8, MutPtr<u8>>::from_addr_phys(0x4000), 0x1000, None);
    let shared = SharedMemory::new(block, 0x7000_0000);
    assert_eq!(shared.virt_addr, 0x7000_0000);
    assert_eq!(shared.block.size(), 0x1000);
    assert_eq!(ThreadCreationError::OutOfMemory.description(), "ran out of memory when allocating the thread");
    assert_eq!(ThreadCreationError::StackAddrConflict.description(),
        "failed to map virtual memory for the thread's stack");
}

#[test]
fn gic_control_values() {
    assert!(gicd_write_pending(0x8000_0003));
    assert!(!gicd_write_pending(0x0000_0003));
    assert_eq!(gicd_ctlr_disabled(0x0000_00f3), 0x0000_00f0);
    assert_eq!(gicd_ctlr_routed(0x0000_0001), 0x0000_00a1);
    assert_eq!(gicd_ctlr_enabled(0x0000_00a0), 0x0000_00a3);
    assert_eq!(pmr_accept_all(0x10), 0xff);
    assert!(uses_system_registers(0x7));
    assert!(!uses_system_registers(0x6));
    assert_eq!(icc_sre_enabled(0x1), 0x7);
    // The EOI mode bit is left as it was.
    assert_eq!(icc_ctlr_enabled(0x2), 0x42);
    assert_eq!(icc_igrpen_enabled(0), 1);
    assert_eq!(gicc_ctlr_enabled(0x200), 0x263);
}

#[test]
fn real_time_clock_identification() {
    let periph = id_from_bytes(0x31, 0x10, 0x14, 0x00);
    assert_eq!(periph, 0x0014_1031);
    let cell = id_from_bytes(0x10d, 0xf0, 0x05, 0xb1);
    assert_eq!(cell, PRIMECELL_ID);
    assert!(is_pl031(periph, cell));
    assert!(!is_pl031(0x0014_1032, cell));
    assert!(!is_pl031(periph, 0));
    assert_eq!(clock_irq_result(0x1), IsrResult::Serviced);
    assert_eq!(clock_irq_result(0x2), IsrResult::WrongIsr);
}

#[test]
fn every_cpu_registers_the_same_clock() {
    let mut registered: Option<usize> = None;
    init_per_cpu(&mut registered, 7);
    assert_eq!(registered, Some(7));
    init_per_cpu(&mut registered, 7);
    assert_eq!(registered, Some(7));
}

#[test]
fn registering_an_isr_twice_is_fine_but_not_a_different_one() {
    assert_eq!(registration_result(5, 0x1000, Ok(None)), Ok(IsrPtr { irq: 5 }));
    assert_eq!(registration_result(5, 0x1000, Err(Some(0x1000))), Ok(IsrPtr { irq: 5 }));
    assert_eq!(registration_result(5, 0x1000, Err(Some(0x2000))), Err(()));
}

#[test]
fn loaded_isr_answers_for_the_interrupt() {
    // No ISR in the slot: the interrupt is not ours, and nothing runs.
    assert_eq!(run_loaded_isr(None, |_isr: usize| -> IsrResult { panic!("no ISR should run") }), IsrResult::WrongIsr);
    // The ISR's own answer is passed on, and it is called with the loaded value.
    assert_eq!(run_loaded_isr(Some(0x40), |isr: usize| if isr == 0x40 { IsrResult::PreemptThread } else { IsrResult::WrongIsr }),
        IsrResult::PreemptThread);
    assert_eq!(run_loaded_isr(Some(0x40), |_isr: usize| IsrResult::Serviced), IsrResult::Serviced);
    assert_eq!(run_loaded_isr(Some(0x40), |_isr: usize| IsrResult::WrongIsr), IsrResult::WrongIsr);
}
