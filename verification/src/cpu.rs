//! Identification of the CPUs.

use vstd::prelude::*;

verus! {

/// The bits of the multiprocessor affinity register (MPIDR) that identify the CPU: affinity
/// levels 0 to 3.
pub const MPIDR_AFFINITY: i64 = 0x0000_00ff_00ff_ffff;

/// Returns the number of CPUs in the system. Only one is used so far.
pub fn count_cpus() -> (r: usize)
    ensures
        r == 1,
{
    1
}

/// Returns the index of this CPU, in the range `0 .. count_cpus()`.
pub fn cpu_index() -> (r: usize)
    ensures
        r == 0,
        r < 1,
{
    0
}

/// Returns a number that represents the CPU whose multiprocessor affinity register holds `mpidr`,
/// for the purpose of affinity: its affinity fields. The closer two such numbers are, the better
/// the fit between the CPUs.
pub fn cpu_affinity(mpidr: i64) -> (r: i64)
    ensures
        r == mpidr & MPIDR_AFFINITY,
{
    mpidr & MPIDR_AFFINITY
}

} // verus!
