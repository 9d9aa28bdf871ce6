//! Records that the scheduler keeps about processes and threads.

use vstd::prelude::*;
use crate::block::BlockMut;
use crate::ffi::InvalidVariantError;
use crate::time::Duration;

verus! {

/// A record of a block of memory being shared.
#[derive(Debug)]
pub struct SharedMemory {
    /// The block of memory.
    pub block: BlockMut<u8>,
    /// The virtual address of the block in the address space of the process that allocated it.
    pub virt_addr: usize,
}

impl SharedMemory {
    /// Creates a new record of shared memory from the given block and virtual address.
    pub fn new(block: BlockMut<u8>, virt_addr: usize) -> (r: SharedMemory)
        ensures
            r.block == block,
            r.virt_addr == virt_addr,
    {
        SharedMemory { block, virt_addr }
    }
}

/// An error that can occur when creating a new thread.
#[derive(Debug, Clone, Copy, PartialEq, Eq, Structural)]
pub enum ThreadCreationError {
    /// Virtual memory for the stack could not be mapped (probably already mapped).
    StackAddrConflict,
    /// The kernel ran out of memory when allocating the thread.
    OutOfMemory,
}

impl ThreadCreationError {
    /// Returns the description of the error.
    pub fn description(&self) -> (r: &'static str)
        ensures
            *self == ThreadCreationError::StackAddrConflict ==> r@ == "failed to map virtual memory for the thread's stack"@,
            *self == ThreadCreationError::OutOfMemory ==> r@ == "ran out of memory when allocating the thread"@,
    {
        match self {
            ThreadCreationError::StackAddrConflict => "failed to map virtual memory for the thread's stack",
            ThreadCreationError::OutOfMemory => "ran out of memory when allocating the thread",
        }
    }
}

/// What became of a thread after it ran for its time slice.
#[derive(Debug, Clone, Copy, PartialEq, Eq, Structural)]
pub enum ThreadStatus {
    /// The thread is running or waiting to run again.
    Running,
    /// The thread is sleeping and should not run until its wake time.
    Sleeping,
    /// The thread has been terminated and will never run again.
    Terminated,
}

impl ThreadStatus {
    /// Converts the number a thread returns to the scheduler into its status: 0 for running, 1
    /// for sleeping and 255 for terminated.
    pub fn try_from_u8(value: u8) -> (r: Result<ThreadStatus, InvalidVariantError<u8>>)
        ensures
            value == 0 ==> r == Ok::<ThreadStatus, InvalidVariantError<u8>>(ThreadStatus::Running),
            value == 1 ==> r == Ok::<ThreadStatus, InvalidVariantError<u8>>(ThreadStatus::Sleeping),
            value == 255 ==> r == Ok::<ThreadStatus, InvalidVariantError<u8>>(ThreadStatus::Terminated),
            value != 0 && value != 1 && value != 255 ==> r is Err && r->Err_0.value_spec() == value,
    {
        match value {
            0 => Ok(ThreadStatus::Running),
            1 => Ok(ThreadStatus::Sleeping),
            255 => Ok(ThreadStatus::Terminated),
            _ => Err(InvalidVariantError::new("ThreadStatus", value)),
        }
    }

    /// The number that stands for the status.
    pub fn to_u8(self) -> (r: u8)
        ensures
            self == ThreadStatus::Running ==> r == 0,
            self == ThreadStatus::Sleeping ==> r == 1,
            self == ThreadStatus::Terminated ==> r == 255,
    {
        match self {
            ThreadStatus::Running => 0,
            ThreadStatus::Sleeping => 1,
            ThreadStatus::Terminated => 255,
        }
    }
}

/// The registers a new thread starts with: its argument in the first, its stack pointer in the
/// last, and zero in the other thirty.
pub fn initial_register_store(x0: usize, stack_ptr: usize) -> (r: [u64; 32])
    requires
        x0 <= u64::MAX,
        stack_ptr <= u64::MAX,
    ensures
        r@.len() == 32,
        r@[0] == x0,
        r@[31] == stack_ptr,
        forall|i: int| 0 < i < 31 ==> #[trigger] r@[i] == 0,
{
    let r = [x0 as u64, 0, 0, 0, 0, 0, 0, 0,
        0, 0, 0, 0, 0, 0, 0, 0,
        0, 0, 0, 0, 0, 0, 0, 0,
        0, 0, 0, 0, 0, 0, 0, stack_ptr as u64];
    proof {
        vstd::array::array_len_matches_n(&r);
    }
    r
}

/// The size of the stack reserved for a new thread: at least `max_stack_size` bytes, rounded up
/// to whole pages (with wrapping arithmetic, so a size within a page of the top of the address
/// space comes out small).
pub fn thread_stack_size(max_stack_size: usize, page_size: usize) -> (r: usize)
    requires
        page_size > 0,
    ensures
        r == max_stack_size.wrapping_add((page_size - 1) as usize) / page_size * page_size,
{
    let rounded = max_stack_size.wrapping_add(page_size - 1);
    let pages = rounded / page_size;
    assert(pages * page_size <= rounded) by (nonlinear_arith)
        requires pages == rounded / page_size, page_size > 0;
    pages * page_size
}

/// Checks that a thread ID can stand for a thread, whose records are aligned on `align` bytes:
/// returns the ID if it is a multiple of the alignment.
pub fn thread_from_id(id: usize, align: usize) -> (r: Result<usize, ()>)
    requires
        align > 0,
    ensures
        r is Ok <==> id % align == 0,
        r is Ok ==> r->Ok_0 == id,
{
    if id % align == 0 {
        Ok(id)
    } else {
        Err(())
    }
}

/// The time slice of a thread of priority `priority`: that many milliseconds.
pub fn quantum(priority: u8) -> (r: Duration)
    ensures
        r.total_nanos() == priority * 1_000_000,
        r.wf(),
{
    Duration::from_nanos(priority as u64 * 1_000_000)
}

/// The step by which the scheduler's pseudorandom stream `stream` moves on: primes, so that the
/// streams stay uncorrelated.
pub open spec fn rng_step(stream: int) -> u64 {
    seq![1223u64, 2731, 4391, 6113, 7879, 9679, 11587, 13441][stream]
}

/// The multiplier of a CPU's index that starts the scheduler's pseudorandom stream `stream`.
pub open spec fn rng_seed(stream: int) -> u64 {
    seq![0x7e1cu64, 0x0330, 0x0899, 0x0e8e, 0xc5f8, 0xffa8, 0x98b9, 0x2b24][stream]
}

/// The number of pseudorandom streams the scheduler draws from.
pub const RNG_STREAMS: usize = 8;

/// The stream used to pick a thread to give away.
pub const PRNG_PICK_THREAD: usize = 0;

/// The stream used to blur the ideal priority sum.
pub const PRNG_FUZZY_PRIORITY: usize = 1;

/// The scheduler's pseudorandom numbers: each stream is a counter that moves on by its own step.
#[derive(Debug)]
pub struct SchedulerRng {
    state: Vec<u64>,
}

impl SchedulerRng {
    /// The current value of each stream.
    pub closed spec fn state_spec(&self) -> Seq<u64> {
        self.state@
    }

    /// Starts the streams of the CPU with index `cpu_index`: each at the index times its seed.
    pub fn new(cpu_index: u64) -> (r: SchedulerRng)
        requires
            cpu_index * 0xffa8 <= u64::MAX,
        ensures
            r.state_spec().len() == RNG_STREAMS,
            forall|i: int| 0 <= i < RNG_STREAMS ==> #[trigger] r.state_spec()[i] == cpu_index * rng_seed(i),
    {
        let n = cpu_index;
        let state = vec![n * 0x7e1c, n * 0x0330, n * 0x0899, n * 0x0e8e, n * 0xc5f8, n * 0xffa8, n * 0x98b9,
            n * 0x2b24];
        SchedulerRng { state }
    }

    /// Moves the stream `stream` on by its step (wrapping around) and returns its new value.
    pub fn next(&mut self, stream: usize) -> (r: u64)
        requires
            old(self).state_spec().len() == RNG_STREAMS,
            stream < RNG_STREAMS,
        ensures
            r == old(self).state_spec()[stream as int].wrapping_add(rng_step(stream as int)),
            final(self).state_spec() == old(self).state_spec().update(stream as int, r),
    {
        let steps: [u64; 8] = [1223, 2731, 4391, 6113, 7879, 9679, 11587, 13441];
        let value = self.state[stream].wrapping_add(steps[stream]);
        self.state.set(stream, value);
        value
    }
}

/// The sum of the priorities of the threads `s`.
pub open spec fn priority_total(s: Seq<(usize, u8)>) -> int
    decreases s.len(),
{
    if s.len() == 0 { 0 } else { priority_total(s.drop_last()) + s.last().1 }
}

/// The threads one CPU runs, in order, each by its ID and priority, and the sum of their
/// priorities.
#[derive(Debug)]
pub struct RunQueue {
    threads: Vec<(usize, u8)>,
    priority_sum: u32,
}

impl RunQueue {
    /// The threads, by ID and priority, in the order they run.
    pub closed spec fn threads_spec(&self) -> Seq<(usize, u8)> {
        self.threads@
    }

    /// The sum of the threads' priorities, as kept.
    pub closed spec fn priority_sum_spec(&self) -> u32 {
        self.priority_sum
    }

    /// Whether the sum kept is the sum of the threads' priorities.
    pub open spec fn wf(&self) -> bool {
        self.priority_sum_spec() == priority_total(self.threads_spec())
    }

    /// Makes the queue of the threads `threads`, summing their priorities.
    pub fn new(threads: Vec<(usize, u8)>) -> (r: RunQueue)
        requires
            priority_total(threads@) <= u32::MAX,
        ensures
            r.wf(),
            r.threads_spec() == threads@,
    {
        let mut sum: u32 = 0;
        let mut i: usize = 0;
        while i < threads.len()
            invariant
                i <= threads@.len(),
                sum == priority_total(threads@.take(i as int)),
                priority_total(threads@) <= u32::MAX,
            decreases threads@.len() - i,
        {
            proof {
                assert(threads@.take(i + 1).drop_last() =~= threads@.take(i as int));
                lemma_priority_total_prefix(threads@, i + 1);
            }
            sum = sum + threads[i].1 as u32;
            i += 1;
        }
        proof {
            assert(threads@.take(threads@.len() as int) =~= threads@);
        }
        RunQueue { threads, priority_sum: sum }
    }

    /// Returns the number of threads.
    pub fn len(&self) -> (r: usize)
        ensures
            r == self.threads_spec().len(),
    {
        self.threads.len()
    }

    /// Returns the sum of the threads' priorities.
    pub fn priority_sum(&self) -> (r: u32)
        ensures
            r == self.priority_sum_spec(),
    {
        self.priority_sum
    }

    /// Returns the ID and priority of the thread at `index`.
    pub fn thread(&self, index: usize) -> (r: (usize, u8))
        requires
            index < self.threads_spec().len(),
        ensures
            r == self.threads_spec()[index as int],
    {
        self.threads[index]
    }

    /// Records what became of the thread at `index` after it ran, and returns the index of the
    /// next thread to run: if it is still running, the queue stays as it is and the next one
    /// runs; if it has terminated, the last thread takes its place (and runs next), and its
    /// priority leaves the sum. Putting a thread to sleep is not supported.
    pub fn after_run(&mut self, index: usize, status: ThreadStatus) -> (next: usize)
        requires
            old(self).wf(),
            index < old(self).threads_spec().len(),
            status != ThreadStatus::Sleeping,
        ensures
            final(self).wf(),
            status == ThreadStatus::Running ==> next == index + 1
                && final(self).threads_spec() == old(self).threads_spec(),
            status == ThreadStatus::Terminated ==> next == index
                && final(self).threads_spec() == old(self).threads_spec()
                    .update(index as int, old(self).threads_spec().last()).drop_last()
                && final(self).priority_sum_spec() == old(self).priority_sum_spec()
                    - old(self).threads_spec()[index as int].1,
    {
        let count = self.threads.len();
        match status {
            ThreadStatus::Terminated => {
                let ghost before = self.threads@;
                proof {
                    lemma_priority_total_bounds(before, index as int);
                }
                let removed = self.threads.swap_remove(index);
                proof {
                    assert(self.threads@ =~= before.update(index as int, before.last()).drop_last());
                    lemma_priority_total_swap_remove(before, index as int);
                }
                self.priority_sum = self.priority_sum - removed.1 as u32;
                index
            },
            _ => index + 1,
        }
    }

    /// Adds the thread `thread`, taken from the threads moving between CPUs, at the end of the
    /// queue, and its priority to the sum.
    pub fn take_thread(&mut self, thread: (usize, u8))
        requires
            old(self).wf(),
            old(self).priority_sum_spec() + thread.1 <= u32::MAX,
        ensures
            final(self).wf(),
            final(self).threads_spec() == old(self).threads_spec().push(thread),
            final(self).priority_sum_spec() == old(self).priority_sum_spec() + thread.1,
    {
        let ghost before = self.threads@;
        self.threads.push(thread);
        proof {
            assert(self.threads@.drop_last() =~= before);
        }
        self.priority_sum = self.priority_sum + thread.1 as u32;
    }

    /// Whether the CPU can take another thread: its priority sum is at most the ideal one.
    pub fn wants_thread(&self, ideal_priority_sum: u32) -> (r: bool)
        ensures
            r == (self.priority_sum_spec() <= ideal_priority_sum),
    {
        self.priority_sum <= ideal_priority_sum
    }

    /// Whether the CPU has more threads than it needs and should try to give one away: there is
    /// more than one CPU, its priority sum is at least the ideal one, and it has more than one
    /// thread.
    pub fn has_spare_thread(&self, ideal_priority_sum: u32, cpu_count: u32) -> (r: bool)
        ensures
            r == (cpu_count > 1 && self.priority_sum_spec() >= ideal_priority_sum && self.threads_spec().len() > 1),
    {
        cpu_count > 1 && self.priority_sum >= ideal_priority_sum && self.threads.len() > 1
    }

    /// The index of the thread to consider giving away, from the pseudorandom number `pick`.
    pub fn pick_thread(&self, pick: u64) -> (r: usize)
        requires
            self.threads_spec().len() > 0,
        ensures
            r == (pick as usize) % (self.threads_spec().len() as usize),
            r < self.threads_spec().len(),
    {
        (pick as usize) % self.threads.len()
    }

    /// Whether giving away the thread at `index` keeps the priority sum near the ideal one: the sum
    /// without it is at least the ideal sum less the fuzz `fuzz`, keeping only the low 8 bits of
    /// that difference.
    pub fn gives_away(&self, index: usize, ideal_priority_sum: u32, fuzz: u32) -> (r: bool)
        requires
            self.wf(),
            index < self.threads_spec().len(),
            fuzz <= ideal_priority_sum,
        ensures
            r == (self.priority_sum_spec() - self.threads_spec()[index as int].1
                >= ((ideal_priority_sum - fuzz) as u32) & 0xff),
    {
        proof {
            lemma_priority_total_bounds(self.threads@, index as int);
        }
        self.priority_sum - self.threads[index].1 as u32 >= (ideal_priority_sum - fuzz) & 0xff
    }

    /// Removes the thread at `index` to give it away (the last thread takes its place), taking its
    /// priority off the sum, and returns it.
    pub fn give_thread(&mut self, index: usize) -> (r: (usize, u8))
        requires
            old(self).wf(),
            index < old(self).threads_spec().len(),
        ensures
            final(self).wf(),
            r == old(self).threads_spec()[index as int],
            final(self).threads_spec() == old(self).threads_spec()
                .update(index as int, old(self).threads_spec().last()).drop_last(),
            final(self).priority_sum_spec() == old(self).priority_sum_spec() - r.1,
    {
        let ghost before = self.threads@;
        proof {
            lemma_priority_total_bounds(before, index as int);
        }
        let removed = self.threads.swap_remove(index);
        proof {
            assert(self.threads@ =~= before.update(index as int, before.last()).drop_last());
            lemma_priority_total_swap_remove(before, index as int);
        }
        self.priority_sum = self.priority_sum - removed.1 as u32;
        removed
    }
}

/// The priority sum each CPU tries to keep to: the total over all CPUs, plus this CPU's index so
/// that the remainder is spread, divided by the number of CPUs.
pub fn ideal_priority_sum(total_priority: u32, cpu_index: u32, cpu_count: u32) -> (r: u32)
    requires
        cpu_count > 0,
        total_priority + cpu_index <= u32::MAX,
    ensures
        r == (total_priority + cpu_index) / (cpu_count as int),
{
    (total_priority + cpu_index) / cpu_count
}

// The sum of the priorities of a prefix grows by the priority of the thread after it.
proof fn lemma_priority_total_prefix(s: Seq<(usize, u8)>, n: int)
    requires
        0 < n <= s.len(),
    ensures
        priority_total(s.take(n)) == priority_total(s.take(n - 1)) + s[n - 1].1,
        priority_total(s.take(n)) <= priority_total(s),
    decreases s.len() - n,
{
    assert(s.take(n).drop_last() =~= s.take(n - 1));
    if n < s.len() {
        lemma_priority_total_prefix(s, n + 1);
    } else {
        assert(s.take(n) =~= s);
    }
}

// The sum of the priorities is not negative.
proof fn lemma_priority_total_nonneg(s: Seq<(usize, u8)>)
    ensures
        priority_total(s) >= 0,
    decreases s.len(),
{
    if s.len() > 0 {
        lemma_priority_total_nonneg(s.drop_last());
    }
}

// Each thread's priority is part of the sum.
proof fn lemma_priority_total_bounds(s: Seq<(usize, u8)>, i: int)
    requires
        0 <= i < s.len(),
    ensures
        s[i].1 <= priority_total(s),
    decreases s.len(),
{
    lemma_priority_total_nonneg(s.drop_last());
    if i < s.len() - 1 {
        lemma_priority_total_bounds(s.drop_last(), i);
    }
}

// The sum of the priorities is that of any ordering of the threads: removing the thread at `i` by
// moving the last one into its place takes exactly its priority off the sum.
proof fn lemma_priority_total_swap_remove(s: Seq<(usize, u8)>, i: int)
    requires
        0 <= i < s.len(),
    ensures
        priority_total(s.update(i, s.last()).drop_last()) == priority_total(s) - s[i].1,
    decreases s.len(),
{
    let n = s.len() - 1;
    if i == n {
        assert(s.update(i, s.last()).drop_last() =~= s.drop_last());
    } else {
        // Remove the last thread from both sides, then the thread at `i`.
        let t = s.drop_last();
        lemma_priority_total_replace(t, i, s.last());
        assert(s.update(i, s.last()).drop_last() =~= t.update(i, s.last()));
    }
}

// Replacing the thread at `i` changes the sum by the difference of the priorities.
proof fn lemma_priority_total_replace(s: Seq<(usize, u8)>, i: int, x: (usize, u8))
    requires
        0 <= i < s.len(),
    ensures
        priority_total(s.update(i, x)) == priority_total(s) - s[i].1 + x.1,
    decreases s.len(),
{
    if i == s.len() - 1 {
        assert(s.update(i, x).drop_last() =~= s.drop_last());
    } else {
        lemma_priority_total_replace(s.drop_last(), i, x);
        assert(s.update(i, x).drop_last() =~= s.drop_last().update(i, x));
    }
}

} // verus!
