use phoenix::virtq::{
    descriptors_needed, legacy_layout, ring_sizes, FutureResponse, QueueSelect, ResponsePoll, SendError, SendOutcome,
    VirtQueue, VirtqDriverRing, VirtqUsedElem, VIRTQ_DESC_F_NEXT, VIRTQ_DESC_F_WRITE, VIRTQ_USED_F_NO_NOTIFY,
};

fn sent(r: Result<SendOutcome, SendError>) -> (FutureResponse, bool) {
    match r {
        Ok(SendOutcome::Sent { response, notify }) => (response, notify),
        other => panic!("expected a send, got {:?}", other),
    }
}

#[test]
fn new_queue_links_every_descriptor() {
    let q = VirtQueue::new(QueueSelect::Cursor, 4, 0);
    assert_eq!(q.id(), QueueSelect::Cursor);
    assert_eq!(q.id().number(), 1);
    assert_eq!(q.free_descs(), 4);
    for i in 0 .. 4 {
        assert_eq!(q.descriptor(i).next as usize, (i + 1) % 4);
        assert_eq!(q.descriptor(i).len, 0);
    }
    assert_eq!(q.driver_ring().len(), 4);
    assert_eq!(q.driver_ring().idx(), 0);
}

#[test]
fn command_and_response_use_two_descriptors() {
    let mut q = VirtQueue::new(QueueSelect::Control, 4, 0);
    let (response, notify) = sent(q.send_recv(0x8000, 100, 40, 0, 24));
    assert!(notify);
    assert!(response.queued);
    assert_eq!((response.desc_head_idx, response.desc_tail_idx, response.descriptors_count), (0, 1, 2));
    assert_eq!(q.free_descs(), 2);
    let out = q.descriptor(0);
    assert_eq!((out.addr, out.len, out.flags, out.next), (0x8000, 40, VIRTQ_DESC_F_NEXT, 1));
    let inp = q.descriptor(1);
    assert_eq!((inp.addr, inp.len, inp.flags), (0x8000 + 40, 60, VIRTQ_DESC_F_WRITE));
    // The head of the chain was offered to the device.
    assert_eq!(q.driver_ring().idx(), 1);

    // The device hasn't answered yet.
    let used = VirtqUsedElem { id: 0, len: 100 };
    assert_eq!(q.poll_response(&response, 0, used, true), ResponsePoll::Pending);
    // The device answers another chain first.
    assert_eq!(q.poll_response(&response, 1, VirtqUsedElem { id: 2, len: 8 }, true), ResponsePoll::Pending);
    // Now it answers ours.
    assert_eq!(q.used_ring_slot(), 0);
    assert_eq!(q.poll_response(&response, 1, used, true), ResponsePoll::Ready(100));
    assert_eq!(q.free_descs(), 4);
    assert_eq!(q.used_ring_slot(), 1);
    // The descriptors are free again, in the order they were taken.
    let (again, _) = sent(q.send_recv(0x9000, 100, 40, 0, 24));
    assert_eq!((again.desc_head_idx, again.desc_tail_idx), (0, 1));
}

#[test]
fn legacy_devices_use_the_assumed_length() {
    let mut q = VirtQueue::new(QueueSelect::Control, 2, 0);
    let (response, _) = sent(q.send_recv(0x8000, 64, 24, 0, 48));
    assert_eq!(q.poll_response(&response, 1, VirtqUsedElem { id: 0, len: 7 }, false), ResponsePoll::Ready(48));
}

#[test]
fn one_way_messages_use_one_descriptor() {
    let mut q = VirtQueue::new(QueueSelect::Cursor, 4, 0);
    // Only output.
    let (response, notify) = sent(q.send_recv(0x1000, 32, 32, VIRTQ_USED_F_NO_NOTIFY, 0));
    assert!(!notify);
    assert_eq!((response.desc_head_idx, response.desc_tail_idx, response.descriptors_count), (0, 0, 1));
    let d = q.descriptor(0);
    assert_eq!((d.addr, d.len, d.flags), (0x1000, 32, 0));
    // Only input.
    let (response, _) = sent(q.send_recv(0x2000, 16, 0, 0, 0));
    assert_eq!((response.desc_head_idx, response.descriptors_count), (1, 1));
    let d = q.descriptor(1);
    assert_eq!((d.addr, d.len, d.flags), (0x2000, 16, VIRTQ_DESC_F_WRITE));
    assert_eq!(q.free_descs(), 2);
    assert_eq!(descriptors_needed(32, 32), 1);
    assert_eq!(descriptors_needed(32, 0), 1);
    assert_eq!(descriptors_needed(32, 8), 2);
}

#[test]
fn full_queue_refuses_and_empty_message_is_immediate() {
    let mut q = VirtQueue::new(QueueSelect::Control, 2, 0);
    let _ = sent(q.send_recv(0x1000, 64, 32, 0, 0));
    assert_eq!(q.send_recv(0x2000, 64, 32, 0, 0), Ok(SendOutcome::Full));
    assert_eq!(q.free_descs(), 0);
    let (response, notify) = sent(q.send_recv(0x3000, 0, 0, 0, 0));
    assert!(!response.queued && !notify);
    assert_eq!(q.poll_response(&response, 0, VirtqUsedElem { id: 0, len: 0 }, true), ResponsePoll::Ready(0));
    assert_eq!(q.send_recv(0x1000, 1 << 32, 0, 0, 0), Err(SendError::TooLarge));
    assert_eq!(FutureResponse::new_immediate(12).value_size, 12);
}

#[test]
fn driver_ring_publishes_entries_in_order() {
    let mut ring = VirtqDriverRing::new(3, 1);
    assert_eq!(ring.flags(), 1);
    for i in 0 .. 7u16 {
        ring.set_next_entry(10 + i);
        assert_eq!(ring.idx(), i + 1);
    }
}

#[test]
fn queue_layouts() {
    assert_eq!(ring_sizes(8), (128, 22, 70));
    // Legacy: descriptors and driver ring in one aligned part, the device ring in the next.
    assert_eq!(legacy_layout(8), (0x2000, 128, 0x1000));
    assert_eq!(legacy_layout(256), (0x3000, 4096, 0x2000));
}
