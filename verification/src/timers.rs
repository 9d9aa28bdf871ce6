//! The decisions behind the ARM generic timer (how long to count down for a delay, how to set up
//! its control register, whether an interrupt came from it) and behind the PL031 real-time clock
//! (whether the device is one, whether an interrupt came from it). Reading and writing the devices'
//! registers is left to the caller.

use vstd::prelude::*;
use crate::irqs::IsrResult;
use crate::time::{Duration, Hertz, Nanosecs, SystemTime};

verus! {

/// Counter-timer kernel control: trap accesses to physical counter registers from EL0.
pub const CNTKCTL_EL0PCTEN: u32 = 0x001;
/// Counter-timer kernel control: trap accesses to virtual counter registers from EL0.
pub const CNTKCTL_EL0VCTEN: u32 = 0x002;
/// Counter-timer kernel control: event stream enable.
pub const CNTKCTL_EVNTEN: u32 = 0x004;
/// Counter-timer kernel control: trap accesses to virtual timer registers from EL0.
pub const CNTKCTL_EL0VTEN: u32 = 0x100;
/// Counter-timer kernel control: trap accesses to physical timer registers from EL0.
pub const CNTKCTL_EL0PTEN: u32 = 0x200;

/// Timer control: the timer is enabled.
pub const CNTV_CTL_ENABLE: u32 = 0x1;
/// Timer control: the timer's interrupt is masked.
pub const CNTV_CTL_IMASK: u32 = 0x2;
/// Timer control: the timer's condition is met.
pub const CNTV_CTL_ISTATUS: u32 = 0x4;

/// Represents a one-shot timer, useful for things like schedulers.
#[derive(Debug)]
pub struct Timer;

/// The countdown that makes a counter running at `freq_hz` interrupt after at least `nanos`
/// nanoseconds: the number of ticks in that time, rounded up, at most `u32::MAX`, and at least 1
/// so that an interrupt does happen.
pub open spec fn countdown_spec(freq_hz: u32, nanos: int) -> u32 {
    let ticks = (freq_hz * nanos + 999_999_999) / 1_000_000_000;
    if ticks == 0 {
        1
    } else if ticks > u32::MAX {
        u32::MAX
    } else {
        ticks as u32
    }
}

impl Timer {
    /// Makes the timer.
    pub fn new() -> (r: Timer) {
        Timer
    }

    /// Returns the countdown to load into the timer for it to interrupt after at least `delay`,
    /// given the counter's frequency: the ticks in `delay`, rounded up, and at least one.
    pub fn interrupt_after(&self, delay: Duration, counter_freq: Hertz) -> (r: u32)
        requires
            delay.wf(),
        ensures
            r == countdown_spec(counter_freq.0, delay.total_nanos()),
            r >= 1,
            r == u32::MAX || r * 1_000_000_000 >= counter_freq.0 * delay.total_nanos(),
    {
        let nanos = delay.as_nanos();
        let f = counter_freq.0 as u128;
        proof {
            delay.lemma_total_nanos_bounds();
            assert(f * nanos <= u32::MAX as int * ((u64::MAX as int + 1) * 1_000_000_000)) by (nonlinear_arith)
                requires f <= u32::MAX, nanos < (u64::MAX as int + 1) * 1_000_000_000, nanos >= 0;
        }
        let ticks = (f * nanos + 999_999_999) / 1_000_000_000;
        proof {
            let x = f * nanos;
            assert(ticks * 1_000_000_000 >= x) by (nonlinear_arith)
                requires ticks == (x + 999_999_999) / 1_000_000_000, x >= 0;
        }
        if ticks == 0 {
            1
        } else if ticks > u32::MAX as u128 {
            u32::MAX
        } else {
            ticks as u32
        }
    }
}

/// The value of the counter-timer kernel control register after setup, given its value before:
/// EL0 may not touch the counter or timer registers, and the event stream is enabled with a period
/// of about a millisecond for a counter running at `counter_freq`.
pub open spec fn cntkctl_setup_spec(control: u32, counter_freq: u32) -> u32 {
    (control & !CNTKCTL_EL0PCTEN & !CNTKCTL_EL0VCTEN) | CNTKCTL_EVNTEN
        | (((32 - vstd::std_specs::bits::u32_leading_zeros(counter_freq / 1000)) as u32) << 16u32)
        | CNTKCTL_EL0VTEN | CNTKCTL_EL0PTEN
}

/// Returns the value of the counter-timer kernel control register after setup.
pub fn cntkctl_setup(control: u32, counter_freq: u32) -> (r: u32)
    ensures
        r == cntkctl_setup_spec(control, counter_freq),
{
    let lz = (counter_freq / 1000).leading_zeros();
    proof {
        vstd::std_specs::bits::axiom_u32_leading_zeros(counter_freq / 1000);
    }
    (control & !CNTKCTL_EL0PCTEN & !CNTKCTL_EL0VCTEN) | CNTKCTL_EVNTEN | ((32 - lz) << 16u32)
        | CNTKCTL_EL0VTEN | CNTKCTL_EL0PTEN
}

/// Decides whether the timer raised an interrupt, from its control register: it did unless the
/// interrupt is masked or the timer's condition is not met. The timer's only job is then to
/// pre-empt the running thread.
pub fn timer_irq_result(cntv_ctl: u32) -> (r: IsrResult)
    ensures
        r == if cntv_ctl & CNTV_CTL_IMASK == CNTV_CTL_IMASK || cntv_ctl & CNTV_CTL_ISTATUS != CNTV_CTL_ISTATUS {
            IsrResult::WrongIsr
        } else {
            IsrResult::PreemptThread
        },
{
    if cntv_ctl & CNTV_CTL_IMASK == CNTV_CTL_IMASK || cntv_ctl & CNTV_CTL_ISTATUS != CNTV_CTL_ISTATUS {
        IsrResult::WrongIsr
    } else {
        IsrResult::PreemptThread
    }
}

/// Initializes the generic timer as a real-time clock. The counter is already running, so there is
/// nothing to do.
pub fn init_clock_per_cpu() -> (r: Result<(), ()>)
    ensures
        r is Ok,
{
    Ok(())
}

/// Initializes the time-related functions on this CPU: registers the clock identified by
/// `elapsed_source` (the generic timer's elapsed-time reader) as the source of the raw current time
/// in the slot `registered`, and starts the real-time clock. Every CPU registers the same clock.
pub fn init_per_cpu(registered: &mut Option<usize>, elapsed_source: usize)
    requires
        *old(registered) is None || *old(registered) == Some(elapsed_source),
    ensures
        *final(registered) == Some(elapsed_source),
{
    SystemTime::set_now_raw(registered, elapsed_source);
    let started = init_clock_per_cpu();
    assert(started is Ok);
}

/// Whether an interrupt has happened since the timer was last set. The interrupt always arrives
/// after this check is made, so the answer is always `false`.
pub fn scheduling_timer_finished() -> (r: bool)
    ensures
        !r,
{
    false
}

/// The time that `ticks` ticks of a counter running at `counter_freq` take, in nanoseconds
/// (truncated to 64 bits).
pub fn get_time_elapsed(ticks: u64, counter_freq: Hertz) -> (r: Nanosecs)
    requires
        counter_freq.0 > 0,
    ensures
        r.0 == (ticks as int * 1_000_000_000 / counter_freq.0 as int) as u64,
{
    proof {
        assert(ticks as int * 1_000_000_000 <= u64::MAX as int * 1_000_000_000) by (nonlinear_arith)
            requires ticks <= u64::MAX;
    }
    let nanos = (ticks as u128) * 1_000_000_000u128 / (counter_freq.0 as u128);
    Nanosecs(nanos as u64)
}

/// PL031 masked interrupt status: the clock has raised an interrupt.
pub const RTC_MIS_INTERRUPT: u32 = 0x1;

/// The bits of the PL031's peripheral ID that identify a PL031 designed by ARM Ltd.
pub const PL031_PERIPH_ID: u32 = 0x41031;

/// The PrimeCell ID of every PrimeCell device.
pub const PRIMECELL_ID: u32 = 0xb105_f00d;

/// The identification value held, a byte at a time, in the low bytes of four consecutive ID
/// registers, least significant first.
pub open spec fn id_from_bytes_spec(r0: u32, r1: u32, r2: u32, r3: u32) -> u32 {
    (r0 & 0xff) | ((r1 & 0xff) << 8u32) | ((r2 & 0xff) << 16u32) | ((r3 & 0xff) << 24u32)
}

/// Returns the identification value held in the low bytes of four consecutive ID registers, least
/// significant first (the PL031's peripheral ID and PrimeCell ID are read this way).
pub fn id_from_bytes(r0: u32, r1: u32, r2: u32, r3: u32) -> (r: u32)
    ensures
        r == id_from_bytes_spec(r0, r1, r2, r3),
{
    (r0 & 0xff) | ((r1 & 0xff) << 8u32) | ((r2 & 0xff) << 16u32) | ((r3 & 0xff) << 24u32)
}

/// Whether the device with the given peripheral and PrimeCell IDs is a PL031 designed by ARM Ltd.
pub fn is_pl031(periph_id: u32, primecell_id: u32) -> (r: bool)
    ensures
        r == (periph_id & 0xfffff == PL031_PERIPH_ID && primecell_id == PRIMECELL_ID),
{
    periph_id & 0xfffff == PL031_PERIPH_ID && primecell_id == PRIMECELL_ID
}

/// Decides whether the PL031 raised an interrupt, from its masked interrupt status register: if
/// so, the interrupt is serviced (acknowledged, and the clock resynchronized).
pub fn clock_irq_result(rtc_mis: u32) -> (r: IsrResult)
    ensures
        r == if rtc_mis & RTC_MIS_INTERRUPT == RTC_MIS_INTERRUPT { IsrResult::Serviced } else { IsrResult::WrongIsr },
{
    if rtc_mis & RTC_MIS_INTERRUPT == RTC_MIS_INTERRUPT {
        IsrResult::Serviced
    } else {
        IsrResult::WrongIsr
    }
}

} // verus!
