use phoenix::scheduler::{
    ideal_priority_sum, initial_register_store, quantum, thread_from_id, thread_stack_size, RunQueue, SchedulerRng, ThreadStatus, PRNG_FUZZY_PRIORITY, PRNG_PICK_THREAD,
};

#[test]
fn quantum_is_the_priority_in_milliseconds() {
    let q = quantum(20);
    assert_eq!(q.as_secs(), 0);
    assert_eq!(q.subsec_nanos(), 20_000_000);
}

#[test]
fn scheduler_streams_step_by_primes() {
    let mut rng = SchedulerRng::new(2);
    assert_eq!(rng.next(PRNG_PICK_THREAD), 2 * 0x7e1c + 1223);
    assert_eq!(rng.next(PRNG_PICK_THREAD), 2 * 0x7e1c + 2 * 1223);
    assert_eq!(rng.next(PRNG_FUZZY_PRIORITY), 2 * 0x0330 + 2731);
}

#[test]
fn terminated_threads_leave_the_queue() {
    let mut queue = RunQueue::new(vec![(1, 10), (2, 20), (3, 30)]);
    assert_eq!(queue.priority_sum(), 60);
    assert_eq!(queue.after_run(0, ThreadStatus::Running), 1);
    assert_eq!(queue.len(), 3);
    // The last thread takes the place of the terminated one and runs next.
    assert_eq!(queue.after_run(1, ThreadStatus::Terminated), 1);
    assert_eq!(queue.len(), 2);
    assert_eq!(queue.thread(1), (3, 30));
    assert_eq!(queue.priority_sum(), 40);
}

#[test]
fn load_balancing_decisions() {
    let mut queue = RunQueue::new(vec![(1, 10), (2, 20)]);
    let ideal = ideal_priority_sum(95, 1, 2);
    assert_eq!(ideal, 48);
    assert!(queue.wants_thread(ideal));
    assert!(!queue.has_spare_thread(ideal, 2));
    queue.take_thread((7, 30));
    assert_eq!(queue.priority_sum(), 60);
    assert!(!queue.wants_thread(ideal));
    assert!(queue.has_spare_thread(ideal, 2));
    assert!(!queue.has_spare_thread(ideal, 1));
    let idx = queue.pick_thread(7);
    assert_eq!(idx, 1);
    // 60 - 20 = 40 against (48 - 0) & 0xff = 48: keep it.
    assert!(!queue.gives_away(idx, ideal, 0));
    // 60 - 20 = 40 against (48 - 10) & 0xff = 38: give it away.
    assert!(queue.gives_away(idx, ideal, 10));
    assert_eq!(queue.give_thread(idx), (2, 20));
    assert_eq!(queue.priority_sum(), 40);
    assert_eq!(queue.thread(1), (7, 30));
}

#[test]
fn new_threads_start_with_argument_and_stack() {
    let regs = initial_register_store(7, 0x8000);
    assert_eq!(regs[0], 7);
    assert_eq!(regs[31], 0x8000);
    assert!(regs[1 .. 31].iter().all(|&r| r == 0));
    assert_eq!(thread_stack_size(1, 0x1000), 0x1000);
    assert_eq!(thread_stack_size(0x1000, 0x1000), 0x1000);
    assert_eq!(thread_stack_size(0, 0x1000), 0);
    assert_eq!(thread_stack_size(usize::MAX, 0x1000), 0);
    assert_eq!(thread_from_id(0x40, 16), Ok(0x40));
    assert_eq!(thread_from_id(0x41, 16), Err(()));
    assert_eq!(ThreadStatus::try_from_u8(255).ok(), Some(ThreadStatus::Terminated));
    assert!(ThreadStatus::try_from_u8(2).is_err());
    assert_eq!(ThreadStatus::Sleeping.to_u8(), 1);
}
