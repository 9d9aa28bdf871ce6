//! The routing of IRQs to interrupt service routines (ISRs) for a Generic Interrupt Controller
//! (GIC), and the decoding of the GIC's identification registers.
//!
//! An ISR is identified here by a non-zero number (its entry address); the caller keeps the map from
//! those numbers to the routines themselves.

use vstd::prelude::*;
use core::sync::atomic::{AtomicUsize, Ordering};
use crate::sync::{load_ordering, store_ordering};

verus! {

/// The number of IRQ numbers that can have an ISR.
pub const IRQ_COUNT: usize = 1019;

/// The required return value of an ISR.
#[derive(Debug, Clone, Copy, PartialEq, Eq, Structural)]
pub enum IsrResult {
    /// The IRQ has been successfully serviced.
    Serviced,
    /// The IRQ wasn't serviced because this was the wrong ISR.
    WrongIsr,
    /// The IRQ was successfully serviced, and the current thread should be pre-empted.
    PreemptThread,
}

/// A handle to a registered interrupt service routine.
#[derive(Debug, PartialEq, Eq, Structural)]
pub struct IsrPtr {
    pub irq: usize,
}

/// The priority of an IRQ as compared to other IRQs. Higher-priority IRQs can pre-empt
/// lower-priority IRQs.
#[derive(Debug, Clone, Copy, PartialEq, Eq, Structural)]
pub enum Priority {
    /// The highest priority possible. This should probably never be used.
    Highest,
    /// The highest priority that should probably be used.
    High,
    /// Pre-empts most interrupts but not all.
    MedHigh,
    /// The middle priority, which should be the default.
    Medium,
    /// Is pre-empted by most interrupts but not all.
    MedLow,
    /// The lowest priority that should probably be used.
    Low,
    /// The lowest priority possible. This should probably never be used.
    Lowest,
}

/// The value a priority has in the GIC's priority registers.
pub open spec fn priority_value(p: Priority) -> u8 {
    match p {
        Priority::Highest => 0x00,
        Priority::High => 0x20,
        Priority::MedHigh => 0x40,
        Priority::Medium => 0x70,
        Priority::MedLow => 0xa0,
        Priority::Low => 0xc0,
        Priority::Lowest => 0xe0,
    }
}

impl Priority {
    /// Returns the value this priority has in the GIC's priority registers.
    pub fn to_u8(self) -> (r: u8)
        ensures
            r == priority_value(self),
    {
        match self {
            Priority::Highest => 0x00,
            Priority::High => 0x20,
            Priority::MedHigh => 0x40,
            Priority::Medium => 0x70,
            Priority::MedLow => 0xa0,
            Priority::Low => 0xc0,
            Priority::Lowest => 0xe0,
        }
    }
}

/// How the hardware signals a given IRQ.
#[derive(Debug, Clone, Copy, PartialEq, Eq, Structural)]
pub enum IrqTrigger {
    /// A level-sensitive IRQ remains pending as long as the device maintains the signal.
    Level,
    /// An edge-sensitive IRQ remains pending until the software acknowledges it with the GIC.
    Edge,
}

/// Atomic storage for an optional ISR, stored as its number (0 for none).
#[derive(Debug)]
pub struct AtomicOptionIsrFnPtr {
    ptr: AtomicUsize,
}

/// The raw representation of an optional ISR.
pub open spec fn isr_to_raw(val: Option<usize>) -> usize {
    match val {
        None => 0,
        Some(v) => v,
    }
}

/// The optional ISR that a raw value stands for.
pub open spec fn isr_from_raw(raw: usize) -> Option<usize> {
    if raw == 0 { None } else { Some(raw) }
}

fn to_raw(val: Option<usize>) -> (r: usize)
    ensures
        r == isr_to_raw(val),
{
    match val {
        None => 0,
        Some(v) => v,
    }
}

fn from_raw(raw: usize) -> (r: Option<usize>)
    ensures
        r == isr_from_raw(raw),
{
    if raw == 0 { None } else { Some(raw) }
}

impl AtomicOptionIsrFnPtr {
    /// Makes storage holding no ISR.
    pub fn new() -> (r: Self) {
        AtomicOptionIsrFnPtr { ptr: AtomicUsize::new(0) }
    }

    /// Loads the stored ISR.
    pub fn load(&self, order: Ordering) -> (r: Option<usize>)
        requires
            load_ordering(order),
        ensures
            r is Some ==> r.unwrap() != 0,
    {
        from_raw(self.ptr.load(order))
    }

    /// Stores the given ISR (which must not be 0).
    pub fn store(&self, val: Option<usize>, order: Ordering)
        requires
            store_ordering(order),
            val != Some(0usize),
    {
        self.ptr.store(to_raw(val), order)
    }

    /// Replaces the stored ISR with `new` if it is `current`. Returns the ISR found, in `Ok` if
    /// the replacement was made.
    pub fn compare_exchange(&self, current: Option<usize>, new: Option<usize>, success: Ordering, failure: Ordering)
        -> (r: Result<Option<usize>, Option<usize>>)
        requires
            load_ordering(failure),
            current != Some(0usize),
            new != Some(0usize),
        ensures
            r is Ok ==> r->Ok_0 == current,
            r is Err ==> r->Err_0 != current,
    {
        let cur_raw = to_raw(current);
        match crate::sync::usize_compare_exchange(&self.ptr, cur_raw, to_raw(new), success, failure) {
            Ok(raw) => Ok(from_raw(raw)),
            Err(raw) => Err(from_raw(raw)),
        }
    }
}

/// The ISR registered for one IRQ.
#[derive(Debug)]
pub struct IsrPtrNode {
    isr: AtomicOptionIsrFnPtr,
}

impl IsrPtrNode {
    /// Makes a node with no ISR.
    pub fn new() -> (r: IsrPtrNode) {
        IsrPtrNode { isr: AtomicOptionIsrFnPtr::new() }
    }
}

/// Decides whether registering the ISR `isr` for `irq` succeeded, given what the attempt to store
/// it where no ISR was found (`Ok`) or found another value there (`Err`): it succeeded if it was
/// stored, or if the same ISR was already registered.
pub fn registration_result(irq: usize, isr: usize, found: Result<Option<usize>, Option<usize>>)
    -> (r: Result<IsrPtr, ()>)
    ensures
        found is Ok ==> r == Ok::<IsrPtr, ()>(IsrPtr { irq }),
        found is Err ==> (r is Ok <==> found->Err_0 == Some(isr)),
        r is Ok ==> r->Ok_0.irq == irq,
{
    match found {
        Ok(_) => Ok(IsrPtr { irq }),
        Err(existing) => {
            if existing == Some(isr) {
                Ok(IsrPtr { irq })
            } else {
                Err(())
            }
        },
    }
}

/// The ISRs registered for all the IRQs.
pub struct IsrPtrNodeHeap {
    nodes: Vec<IsrPtrNode>,
}

impl IsrPtrNodeHeap {
    /// The number of IRQs the heap has room for.
    pub closed spec fn len(&self) -> nat {
        self.nodes@.len()
    }

    /// Makes a heap with no ISR registered for any IRQ.
    pub fn new() -> (h: IsrPtrNodeHeap)
        ensures
            h.len() == IRQ_COUNT,
    {
        let mut nodes: Vec<IsrPtrNode> = Vec::new();
        let mut i: usize = 0;
        while i < IRQ_COUNT
            invariant
                nodes@.len() == i,
                i <= IRQ_COUNT,
            decreases IRQ_COUNT - i,
        {
            nodes.push(IsrPtrNode::new());
            i += 1;
        }
        IsrPtrNodeHeap { nodes }
    }

    /// Registers the ISR `isr` for `irq`. Fails if a different ISR is already registered for it.
    pub fn insert_node(&self, irq: usize, isr: usize) -> (r: Result<IsrPtr, ()>)
        requires
            irq < self.len(),
            isr != 0,
        ensures
            r is Ok ==> r->Ok_0.irq == irq,
    {
        let found = self.nodes[irq].isr.compare_exchange(None, Some(isr), Ordering::AcqRel, Ordering::Acquire);
        registration_result(irq, isr, found)
    }

    /// Unregisters the ISR for `irq`.
    pub fn remove_node(&self, irq: usize)
        requires
            irq < self.len(),
    {
        self.nodes[irq].isr.store(None, Ordering::Release);
    }

    /// Runs the ISR registered for `irq`, if any, through `run`, and returns its result, or
    /// `IsrResult::WrongIsr` if there is none.
    pub fn handle_irq<F: Fn(usize) -> IsrResult>(&self, irq: usize, run: F) -> (r: IsrResult)
        requires
            irq < self.len(),
            forall|isr: usize| isr != 0 ==> run.requires((isr,)),
        ensures
            r == IsrResult::WrongIsr || exists|isr: usize| isr != 0 && run.ensures((isr,), r),
    {
        let loaded = self.nodes[irq].isr.load(Ordering::Acquire);
        run_loaded_isr(loaded, run)
    }
}

/// Runs the ISR `loaded` (as read from an IRQ's slot) through `run`: with no ISR there the
/// interrupt was not for us (`IsrResult::WrongIsr`); otherwise the ISR's own answer is returned.
pub fn run_loaded_isr<F: Fn(usize) -> IsrResult>(loaded: Option<usize>, run: F) -> (r: IsrResult)
    requires
        loaded matches Some(isr) ==> run.requires((isr,)),
    ensures
        loaded is None ==> r == IsrResult::WrongIsr,
        loaded matches Some(isr) ==> run.ensures((isr,), r),
{
    match loaded {
        Some(isr) => {
            // We have an ISR. Run it and see if it's correct.
            match run(isr) {
                IsrResult::Serviced => IsrResult::Serviced,
                IsrResult::PreemptThread => IsrResult::PreemptThread,
                IsrResult::WrongIsr => IsrResult::WrongIsr,
            }
        },
        // No ISR is registered, so it cannot have been the right one.
        None => IsrResult::WrongIsr,
    }
}

/// Registers the ISR `isr` for `irq` in `heap`, given that the GIC supports IRQs up to `max_irq`.
pub fn register_irq(heap: &IsrPtrNodeHeap, irq: u64, isr: usize, max_irq: u64) -> (r: Result<IsrPtr, ()>)
    requires
        irq <= max_irq,
        irq < heap.len(),
        isr != 0,
    ensures
        r is Ok ==> r->Ok_0.irq == irq,
{
    let room = heap.nodes.len();
    assert(irq < room);
    heap.insert_node(irq as usize, isr)
}

/// The IRQ number (INTID) in the value of the interrupt acknowledge register, or `None` if it is
/// above 1019 (in which case the interrupt is to be ignored).
pub fn intid_to_handle(icc_iar: u32) -> (r: Option<usize>)
    ensures
        (icc_iar & 0x00ff_ffff) > 1019 ==> r is None,
        (icc_iar & 0x00ff_ffff) <= 1019 ==> r == Some((icc_iar & 0x00ff_ffff) as usize),
{
    let intid = (icc_iar & 0x00ff_ffff) as usize;
    if intid > 1019 {
        None
    } else {
        Some(intid)
    }
}

/// The value the IRQ entry point returns: 1 if the current thread should be pre-empted (because
/// the ISR asked for it or the scheduling timer finished meanwhile), else 0.
pub fn irq_exit_code(result: IsrResult, scheduling_timer_finished: bool) -> (r: u8)
    ensures
        r == (if result == IsrResult::PreemptThread || scheduling_timer_finished { 1u8 } else { 0u8 }),
{
    let code: u8 = match result {
        IsrResult::Serviced => 0,
        IsrResult::PreemptThread => 1,
        IsrResult::WrongIsr => 0,
    };
    if code == 1 {
        code
    } else if scheduling_timer_finished {
        1
    } else {
        code
    }
}

/// The bits of the GIC CPU interface identification register (GICC_IIDR).
#[derive(Debug, Clone, Copy, PartialEq, Eq, Structural)]
pub struct GiccIidr {
    pub bits: u32,
}

impl GiccIidr {
    /// Returns the version of the GIC architecture that the CPU interface implements.
    pub fn arch_version(&self) -> (r: u32)
        ensures
            r == (self.bits & 0x000f_0000) >> 16,
    {
        (self.bits & 0x000f_0000) >> 16
    }
}

/// Returns the highest IRQ number that the GIC supports, given the value of its interrupt
/// controller type register (GICD_TYPER): the GIC has 32 times (ITLinesNumber + 1) interrupt IDs,
/// and the IDs from 1020 up are special.
pub fn max_irq(typer: u32) -> (r: u64)
    ensures
        r == (if 32 * ((typer & 0x1f) + 1) - 1 < 1019 { 32 * ((typer & 0x1f) + 1) - 1 } else { 1019 }),
{
    proof {
        assert(typer & 0x1f <= 0x1f) by (bit_vector);
    }
    let calculated = 32 * ((typer & 0x1f) as u64 + 1) - 1;
    if calculated < 1019 { calculated } else { 1019 }
}

/// Returns the number of CPUs that can receive interrupts if affinity routing isn't enabled, given
/// the value of the GIC's interrupt controller type register (GICD_TYPER).
pub fn cpu_count_without_affinity_routing(typer: u32) -> (r: u8)
    ensures
        r == ((typer & 0xe0) >> 5) + 1,
        1 <= r <= 8,
{
    proof {
        assert((typer & 0xe0) >> 5 <= 7) by (bit_vector);
    }
    (((typer & 0xe0) >> 5) + 1) as u8
}

/// The target byte that routes an IRQ to one CPU, chosen round-robin by `counter`, when `cpu_count`
/// CPUs can receive interrupts.
pub fn round_robin_target(counter: u8, cpu_count: u8) -> (r: u8)
    requires
        1 <= cpu_count <= 8,
    ensures
        r == 1u8 << (counter % cpu_count),
{
    1u8 << (counter % cpu_count)
}

} // verus!
