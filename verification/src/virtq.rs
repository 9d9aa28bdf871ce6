//! The driver's side of a split virtqueue: the table of buffer descriptors and its list of free
//! descriptors, the driver ring through which chains of descriptors are offered to the device, and
//! the decisions taken when a message is sent and when the device's answer is looked for.
//!
//! The memory shared with the device, and the notifications, are the caller's: it hands in what it
//! reads from the device ring and performs the notification that a send asks for.

use vstd::prelude::*;

verus! {

/// The flag of a descriptor that is followed by another one in its chain.
pub const VIRTQ_DESC_F_NEXT: u16 = 0x1;

/// The flag of a descriptor whose buffer the device writes.
pub const VIRTQ_DESC_F_WRITE: u16 = 0x2;

/// The flag of the device ring by which the device asks not to be notified of new buffers.
pub const VIRTQ_USED_F_NO_NOTIFY: u16 = 0x1;

/// The size of a buffer descriptor in the shared memory.
pub const DESCRIPTOR_SIZE: usize = 16;

/// The size of an element of the device ring in the shared memory.
pub const USED_ELEM_SIZE: usize = 8;

/// The alignment of the device ring in a legacy device's queue.
pub const LEGACY_DEVICE_RING_ALIGN: usize = 0x1000;

/// Which of the GPU's virtqueues a queue is.
#[derive(Debug, Clone, Copy, PartialEq, Eq, Structural)]
pub enum QueueSelect {
    /// The queue for control commands.
    Control,
    /// The queue for cursor commands.
    Cursor,
}

impl QueueSelect {
    /// Returns the number by which the device knows the queue.
    pub fn number(self) -> (r: u32)
        ensures
            r == (match self {
                QueueSelect::Control => 0u32,
                QueueSelect::Cursor => 1u32,
            }),
    {
        match self {
            QueueSelect::Control => 0,
            QueueSelect::Cursor => 1,
        }
    }
}

/// A buffer descriptor: where a buffer is, how long it is, how the device may use it and which
/// descriptor follows it.
#[derive(Debug, Clone, Copy, PartialEq, Eq, Structural)]
pub struct VirtqBufferDescriptor {
    /// The buffer's physical address.
    pub addr: u64,
    /// The buffer's length in bytes.
    pub len: u32,
    /// `VIRTQ_DESC_F_NEXT` and `VIRTQ_DESC_F_WRITE`.
    pub flags: u16,
    /// The index of the next descriptor, in a chain or in the list of free descriptors.
    pub next: u16,
}

impl VirtqBufferDescriptor {
    /// Makes a descriptor from its fields.
    pub fn new(addr: u64, len: u32, flags: u16, next: u16) -> (r: VirtqBufferDescriptor)
        ensures
            r == (VirtqBufferDescriptor { addr, len, flags, next }),
    {
        VirtqBufferDescriptor { addr, len, flags, next }
    }
}

/// An element of the device ring: the head of a chain the device is done with and how many bytes
/// it wrote.
#[derive(Debug, Clone, Copy, PartialEq, Eq, Structural)]
pub struct VirtqUsedElem {
    /// The index of the head of the chain.
    pub id: u32,
    /// The number of bytes written into the chain's buffers.
    pub len: u32,
}

/// `x` taken modulo 2^16, as a `u16` counter wraps.
pub open spec fn wrap16(x: int) -> u16 {
    (x % 0x1_0000) as u16
}

/// The driver ring: the heads of the chains offered to the device, in order, and the index the
/// device reads up to.
#[derive(Debug)]
pub struct VirtqDriverRing {
    flags: u16,
    idx: u16,
    ring: Vec<u16>,
    next_idx: u16,
    entries_updated: Vec<bool>,
}

impl VirtqDriverRing {
    /// The ring's flags.
    pub closed spec fn flags_spec(&self) -> u16 {
        self.flags
    }

    /// The index the device reads up to.
    pub closed spec fn idx_spec(&self) -> u16 {
        self.idx
    }

    /// The ring's entries.
    pub closed spec fn ring_spec(&self) -> Seq<u16> {
        self.ring@
    }

    /// The index of the next entry to be written.
    pub closed spec fn next_idx_spec(&self) -> u16 {
        self.next_idx
    }

    /// The notes left on entries that were written before the device may read them.
    pub closed spec fn notes(&self) -> Seq<bool> {
        self.entries_updated@
    }

    /// Whether the ring is consistent: one note per entry, at most 2^16 - 1 entries, and every
    /// written entry published to the device.
    pub open spec fn wf(&self) -> bool {
        &&& self.notes().len() == self.ring_spec().len()
        &&& self.ring_spec().len() <= u16::MAX
        &&& self.idx_spec() == self.next_idx_spec()
        &&& forall|i: int| 0 <= i < self.notes().len() ==> !#[trigger] self.notes()[i]
    }

    /// Makes a ring of `len` entries with the given flags, with nothing offered to the device yet.
    pub fn new(len: u16, flags: u16) -> (r: VirtqDriverRing)
        ensures
            r.wf(),
            r.flags_spec() == flags,
            r.idx_spec() == 0,
            r.ring_spec() == Seq::new(len as nat, |i: int| 0u16),
    {
        let mut ring: Vec<u16> = Vec::new();
        let mut entries_updated: Vec<bool> = Vec::new();
        let mut i: u16 = 0;
        while i < len
            invariant
                i <= len,
                ring@ == Seq::new(i as nat, |k: int| 0u16),
                entries_updated@.len() == i,
                forall|k: int| 0 <= k < i ==> !#[trigger] entries_updated@[k],
            decreases len - i,
        {
            ring.push(0);
            entries_updated.push(false);
            i += 1;
        }
        VirtqDriverRing { flags, idx: 0, ring, next_idx: 0, entries_updated }
    }

    /// Returns the ring's flags.
    pub fn flags(&self) -> (r: u16)
        ensures
            r == self.flags_spec(),
    {
        self.flags
    }

    /// Returns the index the device reads up to.
    pub fn idx(&self) -> (r: u16)
        ensures
            r == self.idx_spec(),
    {
        self.idx
    }

    /// Returns the number of entries.
    pub fn len(&self) -> (r: usize)
        ensures
            r == self.ring_spec().len(),
    {
        self.ring.len()
    }

    /// Writes `val` into the next entry of the ring and publishes it to the device. The device's
    /// index never skips an entry that has not been written yet: an entry written ahead of it is
    /// left a note, and whoever writes the entry at the device's index publishes every noted entry
    /// that follows it.
    pub fn set_next_entry(&mut self, val: u16)
        requires
            old(self).wf(),
            old(self).ring_spec().len() > 0,
        ensures
            final(self).wf(),
            final(self).flags_spec() == old(self).flags_spec(),
            final(self).ring_spec() == old(self).ring_spec().update(
                old(self).next_idx_spec() as int % old(self).ring_spec().len() as int, val),
            final(self).next_idx_spec() == wrap16(old(self).next_idx_spec() + 1),
    {
        let len = self.ring.len();
        let this_idx = self.next_idx;
        self.next_idx = self.next_idx.wrapping_add(1);
        let slot = this_idx as usize % len;
        self.ring.set(slot, val);
        // Leave a note that this entry has been written.
        self.entries_updated.set(slot, true);
        let ghost ring = self.ring@;
        let ghost noted = self.entries_updated@;
        let ghost old_idx = self.idx;
        assert(noted =~= Seq::new(len as nat, |k: int| k == slot));
        if this_idx == self.idx {
            let mut this_idx = this_idx;
            loop
                invariant_except_break
                    len == self.ring@.len(),
                    len == self.entries_updated@.len(),
                    len > 0,
                    len <= u16::MAX,
                    self.ring@ == ring,
                    self.flags == old(self).flags,
                    self.next_idx == wrap16(old(self).next_idx + 1),
                    self.idx == old_idx,
                    this_idx == old_idx,
                    slot == this_idx as usize % len,
                    self.entries_updated@ == noted,
                    noted == Seq::new(len as nat, |k: int| k == slot),
                ensures
                    len == self.ring@.len(),
                    len == self.entries_updated@.len(),
                    self.ring@ == ring,
                    self.flags == old(self).flags,
                    self.next_idx == wrap16(old(self).next_idx + 1),
                    self.idx == wrap16(old_idx + 1),
                    forall|k: int| 0 <= k < len ==> !#[trigger] self.entries_updated@[k],
                decreases self.entries_updated@.len(),
            {
                // Publish the run of noted entries that starts here, taking the notes down.
                let start = this_idx as usize % len;
                let mut steps: usize = 0;
                while steps < len && self.entries_updated[(start + steps) % len]
                    invariant
                        len == self.entries_updated@.len(),
                        len > 0,
                        len <= u16::MAX,
                        start == slot,
                        start < len,
                        steps <= 1,
                        steps <= len,
                        steps == 0 ==> self.entries_updated@ == noted,
                        noted == Seq::new(len as nat, |k: int| k == slot),
                        steps == 1 ==> forall|k: int| 0 <= k < len ==> !#[trigger] self.entries_updated@[k],
                        len == self.ring@.len(),
                        self.ring@ == ring,
                        self.flags == old(self).flags,
                        self.next_idx == wrap16(old(self).next_idx + 1),
                        self.idx == old_idx,
                    decreases len - steps,
                {
                    // After one step nothing is noted any more.
                    assert(steps == 0);
                    self.entries_updated.set((start + steps) % len, false);
                    steps += 1;
                }
                assert(steps == 1) by {
                    if steps == 0 {
                        vstd::arithmetic::div_mod::lemma_small_mod(start as nat, len as nat);
                        assert(self.entries_updated@[start as int]);
                    }
                }
                self.idx = self.idx.wrapping_add(steps as u16);
                this_idx = this_idx.wrapping_add(steps as u16);
                // If an entry after the run was noted meanwhile, keep going.
                if !self.entries_updated[this_idx as usize % len] {
                    break;
                }
            }
        }
        assert(self.idx == self.next_idx);
    }
}

/// Whether a message of `buf_size` bytes whose answer starts at byte `first_recv_idx` needs
/// a descriptor for the device to read: there is something before the answer.
pub open spec fn sends_spec(buf_size: usize, first_recv_idx: usize) -> bool {
    first_recv_idx > 0
}

/// Whether such a message needs a descriptor for the device to write: the answer starts inside
/// the buffer.
pub open spec fn receives_spec(buf_size: usize, first_recv_idx: usize) -> bool {
    first_recv_idx < buf_size
}

/// The number of descriptors such a message needs.
pub open spec fn descriptors_needed_spec(buf_size: usize, first_recv_idx: usize) -> u16 {
    if first_recv_idx >= buf_size || first_recv_idx == 0 { 1 } else { 2 }
}

/// Returns the number of descriptors a message of `buf_size` bytes whose answer starts at byte
/// `first_recv_idx` needs: one for output and one for input, unless there is only one of them.
pub fn descriptors_needed(buf_size: usize, first_recv_idx: usize) -> (r: u16)
    ensures
        r == descriptors_needed_spec(buf_size, first_recv_idx),
{
    if first_recv_idx >= buf_size || first_recv_idx == 0 { 1 } else { 2 }
}

/// The descriptor table after descriptor `idx` is given a buffer, its link kept.
pub open spec fn fill(descs: Seq<VirtqBufferDescriptor>, idx: u16, addr: u64, len: u32, flags: u16)
    -> Seq<VirtqBufferDescriptor> {
    descs.update(idx as int, VirtqBufferDescriptor { addr, len, flags, next: descs[idx as int].next })
}

/// The result of taking the descriptors that a message of `buf_size` bytes at `buf_addr` needs
/// from the head of the free list at `first_free`: the new table, the new head of the free list,
/// and the head and tail of the chain handed to the device. The part before `first_recv_idx` is
/// for the device to read, the rest for it to write.
pub open spec fn take_chain(
    descs: Seq<VirtqBufferDescriptor>,
    first_free: u16,
    buf_addr: usize,
    buf_size: usize,
    first_recv_idx: usize,
) -> (Seq<VirtqBufferDescriptor>, u16, u16, u16) {
    let c0 = first_free;
    let c1 = descs[c0 as int].next;
    if sends_spec(buf_size, first_recv_idx) && receives_spec(buf_size, first_recv_idx) {
        let d1 = fill(descs, c0, buf_addr as u64, first_recv_idx as u32, VIRTQ_DESC_F_NEXT);
        let d2 = fill(d1, c1, (buf_addr + first_recv_idx) as u64, (buf_size - first_recv_idx) as u32,
            VIRTQ_DESC_F_WRITE);
        (d2, descs[c1 as int].next, c0, c1)
    } else if sends_spec(buf_size, first_recv_idx) {
        (fill(descs, c0, buf_addr as u64, buf_size as u32, 0), c1, c0, c0)
    } else {
        (fill(descs, c0, buf_addr as u64, buf_size as u32, VIRTQ_DESC_F_WRITE), c1, c0, c0)
    }
}

/// The descriptor table and head of the free list after the chain from `head` to `tail` is put
/// back at the front of the free list at `first_free`.
pub open spec fn give_back(descs: Seq<VirtqBufferDescriptor>, first_free: u16, head: u16, tail: u16)
    -> (Seq<VirtqBufferDescriptor>, u16) {
    (descs.update(tail as int, VirtqBufferDescriptor { next: first_free, ..descs[tail as int] }), head)
}

/// A response that is awaited from the device, or one that is there at once.
#[derive(Debug, Clone, Copy, PartialEq, Eq, Structural)]
pub struct FutureResponse {
    /// Whether the message went through a virtqueue (else the answer is the message itself).
    pub queued: bool,
    /// The head of the chain of descriptors.
    pub desc_head_idx: u16,
    /// The tail of the chain of descriptors.
    pub desc_tail_idx: u16,
    /// The number of descriptors in the chain.
    pub descriptors_count: u16,
    /// The size of a message that did not go through a virtqueue.
    pub value_size: usize,
    /// The number of valid bytes to assume in the answer of a legacy device.
    pub legacy_response_len: usize,
}

impl FutureResponse {
    /// A response that will be ready when the device is done with the given chain of descriptors.
    pub fn new(desc_head_idx: u16, desc_tail_idx: u16, descriptors_count: u16, legacy_response_len: usize)
        -> (r: FutureResponse)
        ensures
            r == (FutureResponse {
                queued: true,
                desc_head_idx,
                desc_tail_idx,
                descriptors_count,
                value_size: 0,
                legacy_response_len,
            }),
    {
        FutureResponse { queued: true, desc_head_idx, desc_tail_idx, descriptors_count, value_size: 0, legacy_response_len }
    }

    /// A response that is ready at once: the message of `value_size` bytes itself.
    pub fn new_immediate(value_size: usize) -> (r: FutureResponse)
        ensures
            r == (FutureResponse {
                queued: false,
                desc_head_idx: 0,
                desc_tail_idx: 0,
                descriptors_count: 0,
                value_size,
                legacy_response_len: 0,
            }),
    {
        FutureResponse { queued: false, desc_head_idx: 0, desc_tail_idx: 0, descriptors_count: 0, value_size, legacy_response_len: 0 }
    }
}

/// What sending a message gave.
#[derive(Debug, Clone, Copy, PartialEq, Eq, Structural)]
pub enum SendOutcome {
    /// The message was offered to the device; the caller notifies the device if `notify` is set.
    Sent { response: FutureResponse, notify: bool },
    /// There are not enough free descriptors now; the message can be sent again later.
    Full,
}

/// Why a message could not be sent.
#[derive(Debug, Clone, Copy, PartialEq, Eq, Structural)]
pub enum SendError {
    /// The message is 4 GiB or longer.
    TooLarge,
}

/// What looking for the device's answer gave.
#[derive(Debug, Clone, Copy, PartialEq, Eq, Structural)]
pub enum ResponsePoll {
    /// The answer is not there yet.
    Pending,
    /// The answer is there, with this many valid bytes from the start of the message.
    Ready(usize),
}

/// A virtqueue: a table of buffer descriptors, the list of free descriptors threaded through it,
/// the driver ring, and how far the device ring has been read.
#[derive(Debug)]
pub struct VirtQueue {
    id: QueueSelect,
    descriptors: Vec<VirtqBufferDescriptor>,
    free_descs: u16,
    first_free_desc_idx: u16,
    driver_ring: VirtqDriverRing,
    last_dev_ring_idx: u16,
}

impl VirtQueue {
    /// Which queue this is.
    pub closed spec fn id_spec(&self) -> QueueSelect {
        self.id
    }

    /// The descriptor table.
    pub closed spec fn descriptors_spec(&self) -> Seq<VirtqBufferDescriptor> {
        self.descriptors@
    }

    /// The number of free descriptors.
    pub closed spec fn free_descs_spec(&self) -> u16 {
        self.free_descs
    }

    /// The head of the list of free descriptors.
    pub closed spec fn first_free_spec(&self) -> u16 {
        self.first_free_desc_idx
    }

    /// The driver ring.
    pub closed spec fn driver_ring_spec(&self) -> VirtqDriverRing {
        self.driver_ring
    }

    /// The number of answers read from the device ring (modulo 2^16).
    pub closed spec fn last_dev_ring_idx_spec(&self) -> u16 {
        self.last_dev_ring_idx
    }

    /// Whether the queue is consistent: every link and the head of the free list point into the
    /// table, which has as many entries as the driver ring.
    pub open spec fn wf(&self) -> bool {
        let len = self.descriptors_spec().len();
        &&& len <= u16::MAX
        &&& self.driver_ring_spec().wf()
        &&& self.driver_ring_spec().ring_spec().len() == len
        &&& len > 0 ==> self.first_free_spec() < len
        &&& self.free_descs_spec() > 0 ==> len > 0
        &&& forall|i: int| 0 <= i < len ==> #[trigger] self.descriptors_spec()[i].next < len
    }

    /// Makes a queue of `len` descriptors, all free and linked in order, with a driver ring of the
    /// same length and the given flags.
    pub fn new(id: QueueSelect, len: u16, driver_flags: u16) -> (q: VirtQueue)
        ensures
            q.wf(),
            q.id_spec() == id,
            q.descriptors_spec() == Seq::new(len as nat, |i: int|
                VirtqBufferDescriptor { addr: 0, len: 0, flags: 0, next: ((i + 1) % (len as int)) as u16 }),
            q.free_descs_spec() == len,
            q.first_free_spec() == 0,
            q.last_dev_ring_idx_spec() == 0,
            q.driver_ring_spec().flags_spec() == driver_flags,
            q.driver_ring_spec().idx_spec() == 0,
    {
        let n = len as usize;
        let mut descriptors: Vec<VirtqBufferDescriptor> = Vec::new();
        let mut i: usize = 0;
        while i < n
            invariant
                n == len,
                i <= n,
                descriptors@ == Seq::new(i as nat, |k: int|
                    VirtqBufferDescriptor { addr: 0, len: 0, flags: 0, next: ((k + 1) % (len as int)) as u16 }),
            decreases n - i,
        {
            descriptors.push(VirtqBufferDescriptor::new(0, 0, 0, ((i + 1) % n) as u16));
            i += 1;
        }
        VirtQueue {
            id,
            descriptors,
            free_descs: len,
            first_free_desc_idx: 0,
            driver_ring: VirtqDriverRing::new(len, driver_flags),
            last_dev_ring_idx: 0,
        }
    }

    /// Returns which queue this is.
    pub fn id(&self) -> (r: QueueSelect)
        ensures
            r == self.id_spec(),
    {
        self.id
    }

    /// Returns the number of free descriptors.
    pub fn free_descs(&self) -> (r: u16)
        ensures
            r == self.free_descs_spec(),
    {
        self.free_descs
    }

    /// Returns the descriptor at `index`.
    pub fn descriptor(&self, index: usize) -> (r: VirtqBufferDescriptor)
        requires
            index < self.descriptors_spec().len(),
        ensures
            r == self.descriptors_spec()[index as int],
    {
        self.descriptors[index]
    }

    /// Returns the driver ring.
    pub fn driver_ring(&self) -> (r: &VirtqDriverRing)
        ensures
            *r == self.driver_ring_spec(),
    {
        &self.driver_ring
    }

    // Takes the descriptor at the head of the free list and gives it a buffer.
    fn take_descriptor(&mut self, addr: u64, len: u32, flags: u16) -> (idx: u16)
        requires
            old(self).wf(),
            old(self).descriptors_spec().len() > 0,
        ensures
            final(self).wf(),
            idx == old(self).first_free_spec(),
            final(self).descriptors_spec() == fill(old(self).descriptors_spec(), idx, addr, len, flags),
            final(self).first_free_spec() == old(self).descriptors_spec()[idx as int].next,
            final(self).free_descs_spec() == old(self).free_descs_spec(),
            final(self).driver_ring_spec() == old(self).driver_ring_spec(),
            final(self).id_spec() == old(self).id_spec(),
            final(self).last_dev_ring_idx_spec() == old(self).last_dev_ring_idx_spec(),
    {
        let idx = self.first_free_desc_idx;
        let old_desc = self.descriptors[idx as usize];
        self.first_free_desc_idx = old_desc.next;
        self.descriptors.set(idx as usize, VirtqBufferDescriptor { addr, len, flags, next: old_desc.next });
        proof {
            let d = self.descriptors@;
            assert forall|i: int| 0 <= i < d.len() implies #[trigger] d[i].next < d.len() by {
                assert(d[i].next == old(self).descriptors@[i].next);
            }
        }
        idx
    }

    /// Sends the message of `buf_size` bytes at physical address `buf_addr`, whose answer is to be
    /// written from byte `first_recv_idx` on: takes a descriptor from the free list for the part
    /// before the answer (if any) and one for the answer (if any), chains them, and offers the chain
    /// to the device. `device_flags` are the device ring's flags, which say whether the device wants
    /// to be notified. An empty message needs no descriptor and is answered at once; a message
    /// that needs more descriptors than are free is not sent.
    pub fn send_recv(&mut self, buf_addr: usize, buf_size: usize, first_recv_idx: usize, device_flags: u16,
        legacy_response_len: usize) -> (r: Result<SendOutcome, SendError>)
        requires
            old(self).wf(),
            buf_addr + buf_size <= usize::MAX,
        ensures
            final(self).wf(),
            final(self).id_spec() == old(self).id_spec(),
            final(self).last_dev_ring_idx_spec() == old(self).last_dev_ring_idx_spec(),
            buf_size > u32::MAX ==> r == Err::<SendOutcome, SendError>(SendError::TooLarge),
            buf_size <= u32::MAX && buf_size == 0 ==> r == Ok::<SendOutcome, SendError>(SendOutcome::Sent {
                response: FutureResponse {
                    queued: false, desc_head_idx: 0, desc_tail_idx: 0, descriptors_count: 0, value_size: 0,
                    legacy_response_len: 0,
                },
                notify: false,
            }),
            buf_size <= u32::MAX && buf_size > 0
                && old(self).free_descs_spec() < descriptors_needed_spec(buf_size, first_recv_idx)
                ==> r == Ok::<SendOutcome, SendError>(SendOutcome::Full),
            !(buf_size <= u32::MAX && buf_size > 0
                && old(self).free_descs_spec() >= descriptors_needed_spec(buf_size, first_recv_idx))
                ==> *final(self) == *old(self),
            buf_size <= u32::MAX && buf_size > 0
                && old(self).free_descs_spec() >= descriptors_needed_spec(buf_size, first_recv_idx) ==> {
                let (descs, first_free, head, tail) = take_chain(old(self).descriptors_spec(),
                    old(self).first_free_spec(), buf_addr, buf_size, first_recv_idx);
                &&& r == Ok::<SendOutcome, SendError>(SendOutcome::Sent {
                    response: FutureResponse {
                        queued: true,
                        desc_head_idx: head,
                        desc_tail_idx: tail,
                        descriptors_count: descriptors_needed_spec(buf_size, first_recv_idx),
                        value_size: 0,
                        legacy_response_len,
                    },
                    notify: device_flags & VIRTQ_USED_F_NO_NOTIFY == 0,
                })
                &&& final(self).descriptors_spec() == descs
                &&& final(self).first_free_spec() == first_free
                &&& final(self).free_descs_spec()
                    == old(self).free_descs_spec() - descriptors_needed_spec(buf_size, first_recv_idx)
                &&& final(self).driver_ring_spec().ring_spec() == old(self).driver_ring_spec().ring_spec().update(
                    old(self).driver_ring_spec().next_idx_spec() as int % old(self).descriptors_spec().len() as int,
                    head)
                &&& final(self).driver_ring_spec().next_idx_spec()
                    == wrap16(old(self).driver_ring_spec().next_idx_spec() + 1)
                &&& final(self).driver_ring_spec().flags_spec() == old(self).driver_ring_spec().flags_spec()
            },
    {
        if buf_size > u32::MAX as usize {
            return Err(SendError::TooLarge);
        }
        // If the buffer is empty, there is nothing to do.
        if buf_size == 0 {
            return Ok(SendOutcome::Sent { response: FutureResponse::new_immediate(buf_size), notify: false });
        }
        let needed = descriptors_needed(buf_size, first_recv_idx);
        if self.free_descs < needed {
            // Can't send right now. Try again later.
            return Ok(SendOutcome::Full);
        }
        self.free_descs = self.free_descs - needed;
        let ghost d0 = self.descriptors@;
        let ghost f0 = self.first_free_desc_idx;

        // The descriptor for output, if there is anything before the answer.
        let send_idx = if first_recv_idx > 0 {
            let len = if first_recv_idx < buf_size { first_recv_idx } else { buf_size };
            let flags = if first_recv_idx < buf_size { VIRTQ_DESC_F_NEXT } else { 0 };
            Some(self.take_descriptor(buf_addr as u64, len as u32, flags))
        } else {
            None
        };
        // The descriptor for input, if the answer starts inside the buffer.
        let recv_idx = if first_recv_idx < buf_size {
            Some(self.take_descriptor((buf_addr + first_recv_idx) as u64, (buf_size - first_recv_idx) as u32,
                VIRTQ_DESC_F_WRITE))
        } else {
            None
        };
        let head_idx: u16 = match (send_idx, recv_idx) {
            (Some(idx), _) => idx,
            (None, Some(idx)) => idx,
            (None, None) => 0,
        };
        let tail_idx: u16 = match (send_idx, recv_idx) {
            (_, Some(idx)) => idx,
            (Some(idx), None) => idx,
            (None, None) => 0,
        };
        assert((self.descriptors@, self.first_free_desc_idx, head_idx, tail_idx)
            == take_chain(d0, f0, buf_addr, buf_size, first_recv_idx));
        // Give the device the index of the first descriptor in the chain.
        self.driver_ring.set_next_entry(head_idx);
        let notify = device_flags & VIRTQ_USED_F_NO_NOTIFY == 0;
        Ok(SendOutcome::Sent {
            response: FutureResponse::new(head_idx, tail_idx, needed, legacy_response_len),
            notify,
        })
    }

    /// Returns the index of the device ring's entry that holds the next answer.
    pub fn used_ring_slot(&self) -> (r: usize)
        requires
            self.descriptors_spec().len() > 0,
        ensures
            r == self.last_dev_ring_idx_spec() as int % self.descriptors_spec().len() as int,
    {
        self.last_dev_ring_idx as usize % self.descriptors.len()
    }

    /// Looks for the device's answer to `response`, given the device ring's index `device_idx`
    /// and the entry `used` at `used_ring_slot()`. The answer is there if the device has used an
    /// entry that was not read yet and that entry is for this chain; then the entry is counted as
    /// read, the chain goes back to the front of the free list, and the number of valid bytes is
    /// the length the device wrote (`version_1`) or the length assumed for a legacy device.
    pub fn poll_response(&mut self, response: &FutureResponse, device_idx: u16, used: VirtqUsedElem, version_1: bool)
        -> (r: ResponsePoll)
        requires
            old(self).wf(),
            response.queued ==> response.desc_head_idx < old(self).descriptors_spec().len()
                && response.desc_tail_idx < old(self).descriptors_spec().len(),
        ensures
            final(self).wf(),
            final(self).id_spec() == old(self).id_spec(),
            final(self).driver_ring_spec() == old(self).driver_ring_spec(),
            !response.queued ==> r == ResponsePoll::Ready(response.value_size) && *final(self) == *old(self),
            response.queued && (device_idx == old(self).last_dev_ring_idx_spec()
                || used.id as u16 != response.desc_head_idx) ==> r == ResponsePoll::Pending && *final(self) == *old(self),
            response.queued && device_idx != old(self).last_dev_ring_idx_spec()
                && used.id as u16 == response.desc_head_idx ==> {
                let (descs, first_free) = give_back(old(self).descriptors_spec(), old(self).first_free_spec(),
                    response.desc_head_idx, response.desc_tail_idx);
                &&& r == ResponsePoll::Ready(if version_1 { used.len as usize } else { response.legacy_response_len })
                &&& final(self).descriptors_spec() == descs
                &&& final(self).first_free_spec() == first_free
                &&& final(self).free_descs_spec() == wrap16(old(self).free_descs_spec() + response.descriptors_count)
                &&& final(self).last_dev_ring_idx_spec() == wrap16(old(self).last_dev_ring_idx_spec() + 1)
            },
    {
        if !response.queued {
            // The message did not go through the queue: the answer is the message itself.
            return ResponsePoll::Ready(response.value_size);
        }
        let found_desc_idx = used.id as u16;
        if device_idx == self.last_dev_ring_idx {
            // The device hasn't used any buffers yet.
            ResponsePoll::Pending
        } else if found_desc_idx == response.desc_head_idx {
            // There is a new answer, and it is for this chain. Move on to the next entry.
            self.last_dev_ring_idx = self.last_dev_ring_idx.wrapping_add(1);
            // Put the chain back at the front of the list of free descriptors.
            let tail = response.desc_tail_idx as usize;
            let old_tail = self.descriptors[tail];
            self.descriptors.set(tail, VirtqBufferDescriptor { next: self.first_free_desc_idx, ..old_tail });
            self.first_free_desc_idx = response.desc_head_idx;
            self.free_descs = self.free_descs.wrapping_add(response.descriptors_count);
            proof {
                let d = self.descriptors@;
                assert forall|i: int| 0 <= i < d.len() implies #[trigger] d[i].next < d.len() by {
                    if i != tail {
                        assert(d[i].next == old(self).descriptors@[i].next);
                    }
                }
            }
            // Historically, many devices set the length wrongly for legacy drivers, so a legacy
            // device's length is not trusted.
            let valid_bytes = if version_1 { used.len as usize } else { response.legacy_response_len };
            ResponsePoll::Ready(valid_bytes)
        } else {
            // The device has used a different chain, or not reached the end of this one yet.
            ResponsePoll::Pending
        }
    }
}

/// Answering the message that was sent last puts its descriptors back exactly where they were
/// taken from: the free list has its old head again, and every link in the table is as it was
/// before the message was sent.
pub proof fn lemma_answer_restores_free_list(
    descs: Seq<VirtqBufferDescriptor>,
    first_free: u16,
    buf_addr: usize,
    buf_size: usize,
    first_recv_idx: usize,
)
    requires
        first_free < descs.len(),
        forall|i: int| 0 <= i < descs.len() ==> #[trigger] descs[i].next < descs.len(),
        0 < buf_size <= u32::MAX,
        buf_addr + buf_size <= usize::MAX,
    ensures
        ({
            let (d1, f1, head, tail) = take_chain(descs, first_free, buf_addr, buf_size, first_recv_idx);
            let (d2, f2) = give_back(d1, f1, head, tail);
            &&& f2 == first_free
            &&& d2.len() == descs.len()
            &&& forall|i: int| 0 <= i < descs.len() ==> #[trigger] d2[i].next == descs[i].next
        }),
{
    let (d1, f1, head, tail) = take_chain(descs, first_free, buf_addr, buf_size, first_recv_idx);
    let (d2, f2) = give_back(d1, f1, head, tail);
    assert forall|i: int| 0 <= i < descs.len() implies #[trigger] d2[i].next == descs[i].next by {
        let c1 = descs[first_free as int].next;
        if i != tail {
            if sends_spec(buf_size, first_recv_idx) && receives_spec(buf_size, first_recv_idx) {
                if i == c1 {
                    assert(d1[i].next == descs[i].next);
                }
            }
        }
    }
}

/// The sizes of the descriptor table, the driver ring and the device ring of a queue of `len`
/// descriptors, in bytes.
pub open spec fn ring_sizes_spec(len: u16) -> (usize, usize, usize) {
    ((DESCRIPTOR_SIZE * len) as usize, (2 * (3 + len)) as usize, (2 * 3 + USED_ELEM_SIZE * len) as usize)
}

/// Returns the sizes of the descriptor table, the driver ring and the device ring of a queue of
/// `len` descriptors, in bytes.
pub fn ring_sizes(len: u16) -> (r: (usize, usize, usize))
    ensures
        r == ring_sizes_spec(len),
{
    let n = len as usize;
    (DESCRIPTOR_SIZE * n, 2 * (3 + n), 2 * 3 + USED_ELEM_SIZE * n)
}

/// `x` rounded down to a multiple of the legacy device ring's alignment.
pub open spec fn align_down_legacy(x: int) -> int {
    x - x % (LEGACY_DEVICE_RING_ALIGN as int)
}

// Rounds `x` down to a multiple of the legacy device ring's alignment.
fn align_down(x: usize) -> (r: usize)
    ensures
        r == align_down_legacy(x as int),
{
    assert(x & !0xfffusize == x - x % 0x1000) by (bit_vector);
    x & !(LEGACY_DEVICE_RING_ALIGN - 1)
}

/// Returns the layout of a legacy device's queue of `len` descriptors, which must be roughly
/// contiguous: the total size to allocate, and the offsets of the driver ring and of the device ring
/// from the start of the descriptor table. Each part is padded to the next multiple of the device
/// ring's alignment (a whole alignment more where it is already a multiple).
pub fn legacy_layout(len: u16) -> (r: (usize, usize, usize))
    ensures
        ({
            let (descs, driver, device) = ring_sizes_spec(len);
            &&& r.0 == align_down_legacy(descs + driver + LEGACY_DEVICE_RING_ALIGN)
                + align_down_legacy(device + LEGACY_DEVICE_RING_ALIGN)
            &&& r.1 == descs
            &&& r.2 == align_down_legacy(descs + driver + LEGACY_DEVICE_RING_ALIGN)
        }),
{
    let (descs, driver, device) = ring_sizes(len);
    let first = align_down(descs + driver + LEGACY_DEVICE_RING_ALIGN);
    let second = align_down(device + LEGACY_DEVICE_RING_ALIGN);
    (first + second, descs, first)
}

} // verus!
