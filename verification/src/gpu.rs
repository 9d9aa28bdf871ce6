//! The virtio GPU protocol: the commands the kernel sends to the GPU, in their little-endian wire
//! layout, the responses it gets, and the images it draws. Sending the commands through the
//! virtqueues is left to the caller.

use vstd::prelude::*;
use crate::ffi::{Endian, InvalidVariantError, Le};

verus! {

/// A virtio device.
#[derive(Debug)]
pub struct Device {
    /// Where the device's registers are.
    pub base_addr: Address,
}

/// Where a virtio device's registers are.
#[derive(Debug, Clone, Copy, PartialEq, Eq, Structural)]
pub enum Address {
    /// A physical-memory-mapped address.
    Mmio(usize),
}

/// Whether an executor has finished running its futures.
#[derive(Debug, Clone, Copy, PartialEq, Eq, Structural)]
pub enum ExecutorState {
    /// All futures have finished.
    Finished,
    /// At least one future has not finished.
    Pending,
}

/// Returns whether an executor with `futures_left` unfinished futures has finished.
pub fn executor_state(futures_left: usize) -> (r: ExecutorState)
    ensures
        r == if futures_left == 0 { ExecutorState::Finished } else { ExecutorState::Pending },
{
    if futures_left == 0 {
        ExecutorState::Finished
    } else {
        ExecutorState::Pending
    }
}

/// The number of `true`s in `s`.
pub open spec fn count_true(s: Seq<bool>) -> nat
    decreases s.len(),
{
    if s.len() == 0 {
        0
    } else {
        count_true(s.drop_last()) + if s.last() { 1nat } else { 0nat }
    }
}

// Clearing a `true` in a sequence lowers its count by one; appending a `true` raises it by one.
proof fn lemma_count_true_update(s: Seq<bool>, i: int)
    requires
        0 <= i < s.len(),
        s[i],
    ensures
        count_true(s.update(i, false)) + 1 == count_true(s),
    decreases s.len(),
{
    let t = s.update(i, false);
    if i == s.len() - 1 {
        assert(t.drop_last() =~= s.drop_last());
    } else {
        assert(t.drop_last() =~= s.drop_last().update(i, false));
        lemma_count_true_update(s.drop_last(), i);
    }
}

proof fn lemma_count_true_push(s: Seq<bool>)
    ensures
        count_true(s.push(true)) == count_true(s) + 1,
{
    assert(s.push(true).drop_last() =~= s);
}

/// The bookkeeping of an executor of futures: which slots still hold an unfinished future, which
/// futures are awake (to be polled in the next round, in order), and how many are unfinished.
/// Polling a future is left to the caller.
#[derive(Debug)]
pub struct Executor {
    futures: Vec<bool>,
    awake_futures: Vec<usize>,
    futures_left: usize,
}

impl Executor {
    /// Whether each slot still holds an unfinished future.
    pub closed spec fn futures_spec(&self) -> Seq<bool> {
        self.futures@
    }

    /// The futures to poll in the next round, in order.
    pub closed spec fn awake_spec(&self) -> Seq<usize> {
        self.awake_futures@
    }

    /// The number of unfinished futures.
    pub closed spec fn futures_left_spec(&self) -> usize {
        self.futures_left
    }

    /// Whether the count of unfinished futures is right and every awake future has a slot.
    pub open spec fn wf(&self) -> bool {
        &&& self.futures_left_spec() == count_true(self.futures_spec())
        &&& forall|k: int| 0 <= k < self.awake_spec().len() ==> #[trigger] self.awake_spec()[k] < self.futures_spec().len()
    }

    /// Makes an executor with no futures.
    pub fn new() -> (r: Executor)
        ensures
            r.wf(),
            r.futures_spec() == Seq::<bool>::empty(),
            r.awake_spec() == Seq::<usize>::empty(),
            r.futures_left_spec() == 0,
    {
        Executor { futures: Vec::new(), awake_futures: Vec::new(), futures_left: 0 }
    }

    /// Adds a future, awake; returns its slot.
    pub fn spawn(&mut self) -> (idx: usize)
        requires
            old(self).wf(),
            old(self).futures_spec().len() < usize::MAX,
        ensures
            final(self).wf(),
            idx == old(self).futures_spec().len(),
            final(self).futures_spec() == old(self).futures_spec().push(true),
            final(self).awake_spec() == old(self).awake_spec().push(idx),
            final(self).futures_left_spec() == old(self).futures_left_spec() + 1,
    {
        let idx = self.futures.len();
        self.awake_futures.push(idx);
        self.futures.push(true);
        proof {
            lemma_count_true_push(old(self).futures@);
            assert(count_true(self.futures@) <= self.futures@.len()) by {
                lemma_count_true_bound(self.futures@);
            }
        }
        self.futures_left = self.futures_left + 1;
        proof {
            assert forall|k: int| 0 <= k < self.awake_spec().len() implies
                #[trigger] self.awake_spec()[k] < self.futures_spec().len() by {
                if k < old(self).awake_spec().len() {
                    assert(old(self).awake_spec()[k] < old(self).futures_spec().len());
                }
            }
        }
        idx
    }

    /// Wakes the future in slot `idx`, to be polled in the next round.
    pub fn wake(&mut self, idx: usize)
        requires
            old(self).wf(),
            idx < old(self).futures_spec().len(),
        ensures
            final(self).wf(),
            final(self).futures_spec() == old(self).futures_spec(),
            final(self).awake_spec() == old(self).awake_spec().push(idx),
            final(self).futures_left_spec() == old(self).futures_left_spec(),
    {
        self.awake_futures.push(idx);
        proof {
            assert forall|k: int| 0 <= k < self.awake_spec().len() implies
                #[trigger] self.awake_spec()[k] < self.futures_spec().len() by {
                if k < old(self).awake_spec().len() {
                    assert(old(self).awake_spec()[k] < old(self).futures_spec().len());
                }
            }
        }
    }

    /// Polls, through `poll`, each future that is awake and unfinished, once, in the order they
    /// were woken; `poll` returns whether the future has finished, and a finished future's slot
    /// is emptied. Futures woken meanwhile are polled in the next round. Returns whether all the
    /// futures have finished.
    pub fn execute<F: Fn(usize) -> bool>(&mut self, poll: F) -> (r: ExecutorState)
        requires
            old(self).wf(),
            forall|i: usize| poll.requires((i,)),
        ensures
            final(self).wf(),
            r == if final(self).futures_left_spec() == 0 { ExecutorState::Finished } else { ExecutorState::Pending },
            final(self).awake_spec() == Seq::<usize>::empty(),
            final(self).futures_spec().len() == old(self).futures_spec().len(),
            forall|i: int| 0 <= i < old(self).futures_spec().len() && !old(self).awake_spec().contains(i as usize)
                ==> #[trigger] final(self).futures_spec()[i] == old(self).futures_spec()[i],
            forall|i: int| 0 <= i < old(self).futures_spec().len() && old(self).futures_spec()[i]
                && !#[trigger] final(self).futures_spec()[i] ==> poll.ensures((i as usize,), true),
            forall|i: int| 0 <= i < old(self).futures_spec().len() && final(self).futures_spec()[i]
                ==> #[trigger] old(self).futures_spec()[i],
            forall|i: int| 0 <= i < old(self).futures_spec().len() && old(self).awake_spec().contains(i as usize)
                && old(self).futures_spec()[i] && #[trigger] final(self).futures_spec()[i]
                ==> poll.ensures((i as usize,), false),
    {
        let orig_len = self.awake_futures.len();
        let ghost awake0 = self.awake_futures@;
        let ghost futures0 = self.futures@;
        assert forall|k: int| 0 <= k < awake0.len() implies #[trigger] awake0[k] < futures0.len() by {
            assert(self.awake_spec()[k] < self.futures_spec().len());
        }
        assert(awake0.take(0) =~= Seq::<usize>::empty());
        let mut n: usize = 0;
        while n < orig_len
            invariant
                self.wf(),
                orig_len == awake0.len(),
                n <= orig_len,
                self.awake_futures@ == awake0.skip(n as int),
                forall|i: usize| poll.requires((i,)),
                self.futures@.len() == futures0.len(),
                forall|k: int| 0 <= k < awake0.len() ==> #[trigger] awake0[k] < futures0.len(),
                forall|i: int| 0 <= i < futures0.len() && !awake0.take(n as int).contains(i as usize)
                    ==> #[trigger] self.futures@[i] == futures0[i],
                forall|i: int| 0 <= i < futures0.len() && futures0[i] && !#[trigger] self.futures@[i]
                    ==> poll.ensures((i as usize,), true),
                forall|i: int| 0 <= i < futures0.len() && self.futures@[i] ==> #[trigger] futures0[i],
                forall|i: int| 0 <= i < futures0.len() && awake0.take(n as int).contains(i as usize)
                    && futures0[i] && #[trigger] self.futures@[i] ==> poll.ensures((i as usize,), false),
            decreases orig_len - n,
        {
            let idx = self.awake_futures.remove(0);
            assert(idx == awake0[n as int]);
            let ghost before = self.futures@;
            if self.futures[idx] {
                let done = poll(idx);
                assert(poll.ensures((idx,), done));
                if done {
                    proof {
                        lemma_count_true_update(self.futures@, idx as int);
                    }
                    self.futures.set(idx, false);
                    self.futures_left = self.futures_left - 1;
                }
            }
            proof {
                assert(self.awake_futures@ =~= awake0.skip(n + 1));
                assert forall|i: int| 0 <= i < futures0.len() && !awake0.take(n + 1).contains(i as usize)
                    implies #[trigger] self.futures@[i] == futures0[i] by {
                    assert(awake0.take(n + 1)[n as int] == idx);
                    if i != idx {
                        assert(!awake0.take(n as int).contains(i as usize)) by {
                            if awake0.take(n as int).contains(i as usize) {
                                let w = choose|w: int| 0 <= w < n && awake0.take(n as int)[w] == i as usize;
                                assert(awake0.take(n + 1)[w] == i as usize);
                            }
                        }
                    } else {
                        assert(awake0.take(n + 1).contains(i as usize));
                    }
                }
                assert forall|i: int| 0 <= i < futures0.len() && awake0.take(n + 1).contains(i as usize)
                    && futures0[i] && #[trigger] self.futures@[i] implies poll.ensures((i as usize,), false) by {
                    assert(awake0.take(n + 1)[n as int] == idx);
                    if i != idx {
                        let t = awake0.take(n + 1);
                        let w = choose|w: int| 0 <= w < t.len() && #[trigger] t[w] == i as usize;
                        assert(t[w] == i as usize);
                        assert(i < self.futures.len());
                        assert(w != n);
                        assert(awake0.take(n as int)[w] == i as usize);
                        assert(awake0.take(n as int).contains(i as usize));
                        assert(self.futures@[i] == before[i]);
                    }
                }
            }
            n += 1;
        }
        assert(awake0.take(orig_len as int) =~= awake0);
        if self.futures_left == 0 {
            ExecutorState::Finished
        } else {
            ExecutorState::Pending
        }
    }
}

// There are no more `true`s than elements.
proof fn lemma_count_true_bound(s: Seq<bool>)
    ensures
        count_true(s) <= s.len(),
    decreases s.len(),
{
    if s.len() > 0 {
        lemma_count_true_bound(s.drop_last());
    }
}

/// The number of scanouts a GPU can have.
pub const MAX_SCANOUTS: usize = 16;

/// The flag that makes the device finish the operation before responding.
pub const GPU_FLAG_FENCE: u32 = 1;

/// The type of a command or response.
#[derive(Debug, Clone, Copy, PartialEq, Eq, Structural)]
pub enum GPUCommType {
    /// Get information about all the scanouts.
    CmdGetDisplayInfo,
    /// Make a new 2D resource.
    CmdResourceCreate2D,
    /// Delete a resource.
    CmdResourceUnref,
    /// Set a scanout's framebuffer.
    CmdSetScanout,
    /// Flush a resource to the screen.
    CmdResourceFlush,
    /// Copy part of a resource to the host.
    CmdTransferToHost2D,
    /// Attach a resource to some backing memory.
    CmdResourceAttachBacking,
    /// Detach a resource from its backing memory.
    CmdResourceDetachBacking,
    /// Set the cursor's image and position.
    CmdUpdateCursor,
    /// Set the cursor's position.
    CmdMoveCursor,
    /// Success, with no data.
    RespOKNoData,
    /// Success, with information on the scanouts.
    RespOKDisplayInfo,
    /// A miscellaneous error.
    RespErrUnspec,
    /// The device is out of memory.
    RespErrOutOfMemory,
    /// An invalid scanout ID.
    RespErrInvalidScanoutID,
    /// An invalid resource ID.
    RespErrInvalidResourceID,
    /// An invalid context ID.
    RespErrInvalidContextID,
    /// An invalid parameter.
    RespErrInvalidParameter,
}

/// The code of each command or response type on the wire.
pub open spec fn comm_type_code(t: GPUCommType) -> u32 {
    match t {
        GPUCommType::CmdGetDisplayInfo => 0x0100,
        GPUCommType::CmdResourceCreate2D => 0x0101,
        GPUCommType::CmdResourceUnref => 0x0102,
        GPUCommType::CmdSetScanout => 0x0103,
        GPUCommType::CmdResourceFlush => 0x0104,
        GPUCommType::CmdTransferToHost2D => 0x0105,
        GPUCommType::CmdResourceAttachBacking => 0x0106,
        GPUCommType::CmdResourceDetachBacking => 0x0107,
        GPUCommType::CmdUpdateCursor => 0x0300,
        GPUCommType::CmdMoveCursor => 0x0301,
        GPUCommType::RespOKNoData => 0x1100,
        GPUCommType::RespOKDisplayInfo => 0x1101,
        GPUCommType::RespErrUnspec => 0x1200,
        GPUCommType::RespErrOutOfMemory => 0x1201,
        GPUCommType::RespErrInvalidScanoutID => 0x1202,
        GPUCommType::RespErrInvalidResourceID => 0x1203,
        GPUCommType::RespErrInvalidContextID => 0x1204,
        GPUCommType::RespErrInvalidParameter => 0x1205,
    }
}

impl GPUCommType {
    /// Returns the type's code on the wire.
    pub fn code(self) -> (r: u32)
        ensures
            r == comm_type_code(self),
    {
        match self {
            GPUCommType::CmdGetDisplayInfo => 0x0100,
            GPUCommType::CmdResourceCreate2D => 0x0101,
            GPUCommType::CmdResourceUnref => 0x0102,
            GPUCommType::CmdSetScanout => 0x0103,
            GPUCommType::CmdResourceFlush => 0x0104,
            GPUCommType::CmdTransferToHost2D => 0x0105,
            GPUCommType::CmdResourceAttachBacking => 0x0106,
            GPUCommType::CmdResourceDetachBacking => 0x0107,
            GPUCommType::CmdUpdateCursor => 0x0300,
            GPUCommType::CmdMoveCursor => 0x0301,
            GPUCommType::RespOKNoData => 0x1100,
            GPUCommType::RespOKDisplayInfo => 0x1101,
            GPUCommType::RespErrUnspec => 0x1200,
            GPUCommType::RespErrOutOfMemory => 0x1201,
            GPUCommType::RespErrInvalidScanoutID => 0x1202,
            GPUCommType::RespErrInvalidResourceID => 0x1203,
            GPUCommType::RespErrInvalidContextID => 0x1204,
            GPUCommType::RespErrInvalidParameter => 0x1205,
        }
    }

    /// Converts a code on the wire into the type it stands for, or fails if it stands for none.
    pub fn try_from_code(value: u32) -> (r: Result<GPUCommType, InvalidVariantError<u32>>)
        ensures
            r is Ok ==> comm_type_code(r->Ok_0) == value,
            r is Err <==> (forall|t: GPUCommType| comm_type_code(t) != value),
            r is Err ==> r->Err_0.value_spec() == value,
    {
        let r = match value {
            0x0100 => Ok(GPUCommType::CmdGetDisplayInfo),
            0x0101 => Ok(GPUCommType::CmdResourceCreate2D),
            0x0102 => Ok(GPUCommType::CmdResourceUnref),
            0x0103 => Ok(GPUCommType::CmdSetScanout),
            0x0104 => Ok(GPUCommType::CmdResourceFlush),
            0x0105 => Ok(GPUCommType::CmdTransferToHost2D),
            0x0106 => Ok(GPUCommType::CmdResourceAttachBacking),
            0x0107 => Ok(GPUCommType::CmdResourceDetachBacking),
            0x0300 => Ok(GPUCommType::CmdUpdateCursor),
            0x0301 => Ok(GPUCommType::CmdMoveCursor),
            0x1100 => Ok(GPUCommType::RespOKNoData),
            0x1101 => Ok(GPUCommType::RespOKDisplayInfo),
            0x1200 => Ok(GPUCommType::RespErrUnspec),
            0x1201 => Ok(GPUCommType::RespErrOutOfMemory),
            0x1202 => Ok(GPUCommType::RespErrInvalidScanoutID),
            0x1203 => Ok(GPUCommType::RespErrInvalidResourceID),
            0x1204 => Ok(GPUCommType::RespErrInvalidContextID),
            0x1205 => Ok(GPUCommType::RespErrInvalidParameter),
            _ => Err(InvalidVariantError::new("GPUCommType", value)),
        };
        proof {
            if r is Err {
                assert forall|t: GPUCommType| comm_type_code(t) != value by {}
            } else {
                assert(comm_type_code(r->Ok_0) == value);
            }
        }
        r
    }
}

/// The magic number of a virtio device's registers ("virt", little-endian).
pub const VIRTIO_MAGIC_NUMBER: u32 = 0x7472_6976;

/// The newest version of the virtio register layout that is supported.
pub const VIRTIO_CURRENT_VERSION: u32 = 1;

/// The device ID of a virtio GPU.
pub const VIRTIO_DEVICE_TYPE_GPU: u32 = 16;

/// Decides whether a virtio device is a GPU that this driver can handle, from its magic number,
/// register-layout version, device ID and number of scanouts (monitors).
pub fn virtio_gpu_supported(magic_number: u32, version: u32, device_id: u32, num_scanouts: u32) -> (r: bool)
    ensures
        r == (magic_number == VIRTIO_MAGIC_NUMBER && 1 <= version <= VIRTIO_CURRENT_VERSION
            && device_id == VIRTIO_DEVICE_TYPE_GPU && num_scanouts != 0),
{
    if magic_number != VIRTIO_MAGIC_NUMBER {
        return false; // Not a virtio device
    }
    if version < 1 || version > VIRTIO_CURRENT_VERSION {
        return false; // Not a version that is supported
    }
    if device_id != VIRTIO_DEVICE_TYPE_GPU {
        return false; // Not a GPU
    }
    if num_scanouts == 0 {
        return false; // No scanouts
    }
    true
}

/// Feature bit (low word): the device accepts any framing of descriptors.
pub const FEATURE_ANY_LAYOUT: u32 = 0x0800_0000;

/// Feature bit (high word): the device follows version 1 of the virtio specification.
pub const FEATURE_VERSION_1: u32 = 0x0000_0001;

/// Feature bit (high word): memory accesses are ordered as the platform orders them.
pub const FEATURE_ORDER_PLATFORM: u32 = 0x0000_0010;

/// Feature bit (high word): the driver passes extra data in its device notifications.
pub const FEATURE_NOTIFICATION_DATA: u32 = 0x0000_0040;

/// The features the driver accepts, given the low and high words of the features the device
/// offers: of the low word only "any layout", of the high word "version 1", "order platform" and
/// "notification data", each if the device offers it.
pub fn negotiate_features(device_low: u32, device_high: u32) -> (r: (u32, u32))
    ensures
        r == (device_low & FEATURE_ANY_LAYOUT,
            device_high & (FEATURE_VERSION_1 | FEATURE_ORDER_PLATFORM | FEATURE_NOTIFICATION_DATA)),
{
    (device_low & FEATURE_ANY_LAYOUT, device_high & (FEATURE_VERSION_1 | FEATURE_ORDER_PLATFORM | FEATURE_NOTIFICATION_DATA))
}

/// Whether the accepted high feature word makes the device a version-1 (not a legacy) device.
pub fn is_version_1(features_high: u32) -> (r: bool)
    ensures
        r == (features_high & FEATURE_VERSION_1 != 0),
{
    features_high & FEATURE_VERSION_1 != 0
}

/// The most entries the driver gives a virtqueue.
pub const MAX_QUEUE_LEN: u32 = 0x1000;

/// The length of the control queue, given the longest the device allows (0 meaning that the queue
/// is not available): `None` if it is not available, as the driver cannot go on without it, else
/// the device's limit, but at most `MAX_QUEUE_LEN`.
pub fn control_queue_len(max_len: u32) -> (r: Option<u32>)
    ensures
        max_len == 0 <==> r is None,
        r matches Some(n) ==> n == (if max_len <= MAX_QUEUE_LEN { max_len } else { MAX_QUEUE_LEN }),
{
    if max_len == 0 {
        None
    } else if max_len <= MAX_QUEUE_LEN {
        Some(max_len)
    } else {
        Some(MAX_QUEUE_LEN)
    }
}

/// The length of the cursor queue, given the longest the device allows: the device's limit, but
/// at most `MAX_QUEUE_LEN`.
pub fn cursor_queue_len(max_len: u32) -> (r: u32)
    ensures
        r == (if max_len <= MAX_QUEUE_LEN { max_len } else { MAX_QUEUE_LEN }),
{
    if max_len <= MAX_QUEUE_LEN { max_len } else { MAX_QUEUE_LEN }
}

/// Decides whether the GPU's answer to a command is the expected one, given the number of valid
/// bytes in the command and its answer, where the answer starts, and the type code found there:
/// `Ok` if the code stands for `expected`, else `Err` (the GPU reported an error, or answered
/// with something unexpected).
pub fn check_response(valid_bytes: usize, response_offset: usize, response_code: u32, expected: GPUCommType)
    -> (r: Result<(), ()>)
    requires
        valid_bytes >= response_offset,
    ensures
        r is Ok <==> response_code == comm_type_code(expected),
{
    match GPUCommType::try_from_code(response_code) {
        Ok(found) => {
            if found == expected {
                Ok(())
            } else {
                proof {
                    lemma_comm_type_code_injective(found, expected);
                }
                Err(())
            }
        },
        Err(_) => Err(()),
    }
}

// Different types have different codes.
proof fn lemma_comm_type_code_injective(a: GPUCommType, b: GPUCommType)
    requires
        a != b,
    ensures
        comm_type_code(a) != comm_type_code(b),
{
}

/// The header of every command and response.
#[derive(Debug)]
pub struct GPUControlQHeader {
    comm_type: GPUCommType,
    flags: u32,
    fence_id: Le<u64>,
    ctx_id: Le<u32>,
    padding: Le<u32>,
}

impl GPUControlQHeader {
    /// The command or response type.
    pub closed spec fn comm_type_spec(&self) -> GPUCommType {
        self.comm_type
    }

    /// The header's flags.
    pub closed spec fn flags_spec(&self) -> u32 {
        self.flags
    }

    /// The fence ID, context ID and padding, which are all zero in commands the kernel makes.
    pub closed spec fn zeroed_spec(&self) -> bool {
        self.fence_id.native() == 0 && self.ctx_id.native() == 0 && self.padding.native() == 0
    }

    /// Makes a header with the given type and flags.
    pub fn new(comm_type: GPUCommType, flags: u32) -> (r: GPUControlQHeader)
        ensures
            r.comm_type_spec() == comm_type,
            r.flags_spec() == flags,
            r.zeroed_spec(),
    {
        GPUControlQHeader {
            comm_type,
            flags,
            fence_id: Le::<u64>::from_native(0),
            ctx_id: Le::<u32>::from_native(0),
            padding: Le::<u32>::from_native(0),
        }
    }

    /// Returns the command or response type.
    pub fn comm_type(&self) -> (r: GPUCommType)
        ensures
            r == self.comm_type_spec(),
    {
        self.comm_type
    }
}

/// A rectangle on a screen, in native byte order.
#[derive(Debug, Clone, Copy, PartialEq, Eq, Structural)]
pub struct Rectangle {
    /// The left edge.
    pub x: u32,
    /// The top edge.
    pub y: u32,
    /// The width.
    pub width: u32,
    /// The height.
    pub height: u32,
}

impl Rectangle {
    /// Makes a rectangle.
    pub fn new(x: u32, y: u32, width: u32, height: u32) -> (r: Rectangle)
        ensures
            r == (Rectangle { x, y, width, height }),
    {
        Rectangle { x, y, width, height }
    }

    /// Reads a rectangle from its wire layout.
    pub fn from_le(rect: &LeRectangle) -> (r: Rectangle)
        ensures
            r == rect.native(),
    {
        Rectangle {
            x: rect.x.into_native(),
            y: rect.y.into_native(),
            width: rect.width.into_native(),
            height: rect.height.into_native(),
        }
    }
}

/// A rectangle on a screen, in its little-endian wire layout.
#[derive(Debug, Clone, Copy)]
pub struct LeRectangle {
    x: Le<u32>,
    y: Le<u32>,
    width: Le<u32>,
    height: Le<u32>,
}

impl LeRectangle {
    /// The rectangle this stands for.
    pub closed spec fn native(&self) -> Rectangle {
        Rectangle {
            x: self.x.native(),
            y: self.y.native(),
            width: self.width.native(),
            height: self.height.native(),
        }
    }

    /// Puts a rectangle in its wire layout.
    pub fn from_rect(rect: Rectangle) -> (r: LeRectangle)
        ensures
            r.native() == rect,
    {
        LeRectangle {
            x: Le::<u32>::from_native(rect.x),
            y: Le::<u32>::from_native(rect.y),
            width: Le::<u32>::from_native(rect.width),
            height: Le::<u32>::from_native(rect.height),
        }
    }

    /// The empty rectangle at the origin.
    pub fn zero() -> (r: LeRectangle)
        ensures
            r.native() == (Rectangle { x: 0, y: 0, width: 0, height: 0 }),
    {
        Self::from_rect(Rectangle::new(0, 0, 0, 0))
    }
}

/// A successful response with no data (or, until the device overwrites it, an unspecified error).
#[derive(Debug)]
pub struct RespOKNoData {
    header: GPUControlQHeader,
}

impl RespOKNoData {
    /// The response's header.
    pub closed spec fn header_spec(&self) -> &GPUControlQHeader {
        &self.header
    }

    /// Makes the response the device is expected to overwrite.
    pub fn new(flags: u32) -> (r: RespOKNoData)
        ensures
            r.header_spec().comm_type_spec() == GPUCommType::RespOKNoData,
            r.header_spec().flags_spec() == flags,
            r.header_spec().zeroed_spec(),
    {
        RespOKNoData { header: GPUControlQHeader::new(GPUCommType::RespOKNoData, flags) }
    }
}

/// One scanout's information, in its wire layout.
#[derive(Debug, Clone, Copy)]
pub struct RawDisplayInfo {
    rect: LeRectangle,
    enabled: Le<u32>,
    flags: Le<u32>,
}

impl RawDisplayInfo {
    /// The scanout's position and size.
    pub closed spec fn rect_spec(&self) -> Rectangle {
        self.rect.native()
    }

    /// Whether the scanout is enabled (any value but zero).
    pub closed spec fn enabled_spec(&self) -> u32 {
        self.enabled.native()
    }

    /// Makes the information of a scanout.
    pub fn new(rect: Rectangle, enabled: u32, flags: u32) -> (r: RawDisplayInfo)
        ensures
            r.rect_spec() == rect,
            r.enabled_spec() == enabled,
    {
        RawDisplayInfo {
            rect: LeRectangle::from_rect(rect),
            enabled: Le::<u32>::from_native(enabled),
            flags: Le::<u32>::from_native(flags),
        }
    }
}

/// A successful response with information on the scanouts.
#[derive(Debug)]
pub struct RespOKDisplayInfo {
    header: GPUControlQHeader,
    displays: Vec<RawDisplayInfo>,
}

impl RespOKDisplayInfo {
    /// The response's header.
    pub closed spec fn header_spec(&self) -> &GPUControlQHeader {
        &self.header
    }

    /// The information of each scanout.
    pub closed spec fn displays_spec(&self) -> Seq<RawDisplayInfo> {
        self.displays@
    }

    /// Makes the response the device is expected to overwrite: an empty entry for every scanout.
    pub fn new(flags: u32) -> (r: RespOKDisplayInfo)
        ensures
            r.header_spec().comm_type_spec() == GPUCommType::RespOKDisplayInfo,
            r.header_spec().flags_spec() == flags,
            r.displays_spec().len() == MAX_SCANOUTS,
    {
        let mut displays: Vec<RawDisplayInfo> = Vec::new();
        let mut i: usize = 0;
        while i < MAX_SCANOUTS
            invariant
                i <= MAX_SCANOUTS,
                displays@.len() == i,
            decreases MAX_SCANOUTS - i,
        {
            displays.push(RawDisplayInfo::new(Rectangle::new(0, 0, 0, 0), 0, 0));
            i += 1;
        }
        RespOKDisplayInfo { header: GPUControlQHeader::new(GPUCommType::RespOKDisplayInfo, flags), displays }
    }

    /// Returns the information of the scanout at `index`.
    pub fn display(&self, index: usize) -> (r: &RawDisplayInfo)
        requires
            index < self.displays_spec().len(),
        ensures
            *r == self.displays_spec()[index as int],
    {
        &self.displays[index]
    }
}

/// The flag of an enabled display.
pub const DISPLAY_ENABLED: u32 = 0x1;

/// A display's position, size and flags.
#[derive(Debug, Clone, Copy, PartialEq, Eq, Structural)]
pub struct DisplayInfo {
    /// The display's position and size.
    pub rect: Rectangle,
    /// The display's flags (`DISPLAY_ENABLED`).
    pub flags: u32,
}

impl DisplayInfo {
    /// Converts the information the device gave about a scanout.
    pub fn from_raw(raw: &RawDisplayInfo) -> (r: DisplayInfo)
        ensures
            r.rect == raw.rect_spec(),
            r.flags == if raw.enabled_spec() != 0 { DISPLAY_ENABLED } else { 0 },
    {
        let flags = if raw.enabled.into_native() != 0 { DISPLAY_ENABLED } else { 0 };
        DisplayInfo { rect: Rectangle::from_le(&raw.rect), flags }
    }

    /// Converts the information on the first `count` scanouts in a response (those the device
    /// wrote).
    pub fn all(response: &RespOKDisplayInfo, count: usize) -> (r: Vec<DisplayInfo>)
        requires
            count <= response.displays_spec().len(),
        ensures
            r@.len() == count,
            forall|i: int| 0 <= i < count ==> #[trigger] r@[i].rect == response.displays_spec()[i].rect_spec(),
            forall|i: int| 0 <= i < count ==> #[trigger] r@[i].flags
                == if response.displays_spec()[i].enabled_spec() != 0 { DISPLAY_ENABLED } else { 0 },
    {
        let mut displays: Vec<DisplayInfo> = Vec::new();
        let mut i: usize = 0;
        while i < count
            invariant
                count <= response.displays_spec().len(),
                i <= count,
                displays@.len() == i,
                forall|j: int| 0 <= j < i ==> #[trigger] displays@[j].rect == response.displays_spec()[j].rect_spec(),
                forall|j: int| 0 <= j < i ==> #[trigger] displays@[j].flags
                    == if response.displays_spec()[j].enabled_spec() != 0 { DISPLAY_ENABLED } else { 0 },
            decreases count - i,
        {
            displays.push(DisplayInfo::from_raw(response.display(i)));
            i += 1;
        }
        displays
    }

    /// Picks the information on display `idx`, if there is such a display.
    pub fn one(all: Vec<DisplayInfo>, idx: usize) -> (r: Result<DisplayInfo, ()>)
        ensures
            idx < all@.len() ==> r == Ok::<DisplayInfo, ()>(all@[idx as int]),
            idx >= all@.len() ==> r is Err,
    {
        if idx < all.len() {
            Ok(all[idx])
        } else {
            Err(())
        }
    }
}

/// The command that asks for information about all the scanouts.
#[derive(Debug)]
pub struct CmdGetDisplayInfo {
    header: GPUControlQHeader,
    response: RespOKDisplayInfo,
}

impl CmdGetDisplayInfo {
    /// The command's header.
    pub closed spec fn header_spec(&self) -> &GPUControlQHeader {
        &self.header
    }

    /// The response the device is to overwrite.
    pub closed spec fn response_spec(&self) -> &RespOKDisplayInfo {
        &self.response
    }

    /// Makes the command.
    pub fn new() -> (r: Box<CmdGetDisplayInfo>)
        ensures
            r.header_spec().comm_type_spec() == GPUCommType::CmdGetDisplayInfo,
            r.header_spec().flags_spec() == 0,
            r.header_spec().zeroed_spec(),
            r.response_spec().header_spec().comm_type_spec() == GPUCommType::RespOKDisplayInfo,
            r.response_spec().displays_spec().len() == MAX_SCANOUTS,
    {
        Box::new(CmdGetDisplayInfo {
            header: GPUControlQHeader::new(GPUCommType::CmdGetDisplayInfo, 0),
            response: RespOKDisplayInfo::new(0),
        })
    }

    /// Returns the response the device wrote.
    pub fn response(&self) -> (r: &RespOKDisplayInfo)
        ensures
            r == self.response_spec(),
    {
        &self.response
    }
}

/// The pixel formats of 2D resources.
#[derive(Debug, Clone, Copy, PartialEq, Eq, Structural)]
pub enum Resource2DFormat {
    /// Blue, green, red, alpha.
    BytesBGRA,
    /// Blue, green, red, unused.
    BytesBGRX,
    /// Alpha, red, green, blue.
    BytesARGB,
    /// Unused, red, green, blue.
    BytesXRGB,
    /// Red, green, blue, alpha.
    BytesRGBA,
    /// Unused, blue, green, red.
    BytesXBGR,
    /// Alpha, blue, green, red.
    BytesABGR,
    /// Red, green, blue, unused.
    BytesRGBX,
}

/// The command that makes a new 2D resource.
#[derive(Debug)]
pub struct CmdResourceCreate2D {
    header: GPUControlQHeader,
    resource_id: Le<u32>,
    format: Resource2DFormat,
    width: Le<u32>,
    height: Le<u32>,
    response: RespOKNoData,
}

impl CmdResourceCreate2D {
    /// The command's header, resource ID, format, width and height.
    pub closed spec fn fields(&self) -> (GPUCommType, u32, u32, Resource2DFormat, u32, u32) {
        (self.header.comm_type_spec(), self.header.flags_spec(), self.resource_id.native(), self.format,
            self.width.native(), self.height.native())
    }

    /// Makes the command. `resource_id` must not be zero.
    pub fn new(resource_id: u32, format: Resource2DFormat, width: u32, height: u32, flags: u32) -> (r: Box<CmdResourceCreate2D>)
        ensures
            r.fields() == (GPUCommType::CmdResourceCreate2D, flags, resource_id, format, width, height),
    {
        Box::new(CmdResourceCreate2D {
            header: GPUControlQHeader::new(GPUCommType::CmdResourceCreate2D, flags),
            resource_id: Le::<u32>::from_native(resource_id),
            format,
            width: Le::<u32>::from_native(width),
            height: Le::<u32>::from_native(height),
            response: RespOKNoData::new(flags),
        })
    }
}

/// The command that deletes a resource.
#[derive(Debug)]
pub struct CmdResourceUnref {
    header: GPUControlQHeader,
    resource_id: Le<u32>,
    padding: Le<u32>,
    response: RespOKNoData,
}

impl CmdResourceUnref {
    /// The command's type, flags and resource ID, and the flags of its response.
    pub closed spec fn fields(&self) -> (GPUCommType, u32, u32, u32) {
        (self.header.comm_type_spec(), self.header.flags_spec(), self.resource_id.native(),
            self.response.header.flags_spec())
    }

    /// Makes the command, whose response is fenced.
    pub fn new(resource_id: u32) -> (r: Box<CmdResourceUnref>)
        ensures
            r.fields() == (GPUCommType::CmdResourceUnref, 0u32, resource_id, GPU_FLAG_FENCE),
    {
        Box::new(CmdResourceUnref {
            header: GPUControlQHeader::new(GPUCommType::CmdResourceUnref, 0),
            resource_id: Le::<u32>::from_native(resource_id),
            padding: Le::<u32>::from_native(0),
            response: RespOKNoData::new(GPU_FLAG_FENCE),
        })
    }
}

/// The command that sets a scanout's framebuffer.
#[derive(Debug)]
pub struct CmdSetScanout {
    header: GPUControlQHeader,
    rect: LeRectangle,
    scanout_id: Le<u32>,
    resource_id: Le<u32>,
    response: RespOKNoData,
}

impl CmdSetScanout {
    /// The command's type, flags, rectangle, scanout ID and resource ID.
    pub closed spec fn fields(&self) -> (GPUCommType, u32, Rectangle, u32, u32) {
        (self.header.comm_type_spec(), self.header.flags_spec(), self.rect.native(), self.scanout_id.native(),
            self.resource_id.native())
    }

    /// Makes the command.
    pub fn new(scanout_id: u32, resource_id: u32, rect: Rectangle, flags: u32) -> (r: Box<CmdSetScanout>)
        ensures
            r.fields() == (GPUCommType::CmdSetScanout, flags, rect, scanout_id, resource_id),
    {
        Box::new(CmdSetScanout {
            header: GPUControlQHeader::new(GPUCommType::CmdSetScanout, flags),
            rect: LeRectangle::from_rect(rect),
            scanout_id: Le::<u32>::from_native(scanout_id),
            resource_id: Le::<u32>::from_native(resource_id),
            response: RespOKNoData::new(flags),
        })
    }
}

/// The command that flushes a resource to the screen.
#[derive(Debug)]
pub struct CmdResourceFlush {
    header: GPUControlQHeader,
    rect: LeRectangle,
    resource_id: Le<u32>,
    padding: Le<u32>,
    response: RespOKNoData,
}

impl CmdResourceFlush {
    /// The command's type, flags, rectangle and resource ID.
    pub closed spec fn fields(&self) -> (GPUCommType, u32, Rectangle, u32) {
        (self.header.comm_type_spec(), self.header.flags_spec(), self.rect.native(), self.resource_id.native())
    }

    /// Makes the command.
    pub fn new(resource_id: u32, rect: Rectangle, flags: u32) -> (r: Box<CmdResourceFlush>)
        ensures
            r.fields() == (GPUCommType::CmdResourceFlush, flags, rect, resource_id),
    {
        Box::new(CmdResourceFlush {
            header: GPUControlQHeader::new(GPUCommType::CmdResourceFlush, flags),
            rect: LeRectangle::from_rect(rect),
            resource_id: Le::<u32>::from_native(resource_id),
            padding: Le::<u32>::from_native(0),
            response: RespOKNoData::new(flags),
        })
    }
}

/// The command that copies part of a resource to the host.
#[derive(Debug)]
pub struct CmdTransferToHost2D {
    header: GPUControlQHeader,
    rect: LeRectangle,
    dest_offset: Le<u64>,
    resource_id: Le<u32>,
    padding: Le<u32>,
    response: RespOKNoData,
}

impl CmdTransferToHost2D {
    /// The command's type, flags, rectangle, destination offset and resource ID.
    pub closed spec fn fields(&self) -> (GPUCommType, u32, Rectangle, u64, u32) {
        (self.header.comm_type_spec(), self.header.flags_spec(), self.rect.native(), self.dest_offset.native(),
            self.resource_id.native())
    }

    /// Makes the command.
    pub fn new(resource_id: u32, rect: Rectangle, dest_offset: u64, flags: u32) -> (r: Box<CmdTransferToHost2D>)
        ensures
            r.fields() == (GPUCommType::CmdTransferToHost2D, flags, rect, dest_offset, resource_id),
    {
        Box::new(CmdTransferToHost2D {
            header: GPUControlQHeader::new(GPUCommType::CmdTransferToHost2D, flags),
            rect: LeRectangle::from_rect(rect),
            dest_offset: Le::<u64>::from_native(dest_offset),
            resource_id: Le::<u32>::from_native(resource_id),
            padding: Le::<u32>::from_native(0),
            response: RespOKNoData::new(flags),
        })
    }
}

/// The command that detaches a resource from its backing memory.
#[derive(Debug)]
pub struct CmdResourceDetachBacking {
    header: GPUControlQHeader,
    resource_id: Le<u32>,
    padding: Le<u32>,
    response: RespOKNoData,
}

impl CmdResourceDetachBacking {
    /// The command's type, flags and resource ID.
    pub closed spec fn fields(&self) -> (GPUCommType, u32, u32) {
        (self.header.comm_type_spec(), self.header.flags_spec(), self.resource_id.native())
    }

    /// Makes the command.
    pub fn new(resource_id: u32, flags: u32) -> (r: Box<CmdResourceDetachBacking>)
        ensures
            r.fields() == (GPUCommType::CmdResourceDetachBacking, flags, resource_id),
    {
        Box::new(CmdResourceDetachBacking {
            header: GPUControlQHeader::new(GPUCommType::CmdResourceDetachBacking, flags),
            resource_id: Le::<u32>::from_native(resource_id),
            padding: Le::<u32>::from_native(0),
            response: RespOKNoData::new(flags),
        })
    }
}

/// One piece of memory that backs a resource: its address and size.
#[derive(Debug, Clone, Copy)]
pub struct MemEntry {
    base: Le<u64>,
    size: Le<u32>,
    padding: Le<u32>,
}

impl MemEntry {
    /// The address and size.
    pub closed spec fn fields(&self) -> (u64, u32) {
        (self.base.native(), self.size.native())
    }
}

/// The address and size of each of the pieces of memory `s`.
pub open spec fn entry_fields(s: Seq<MemEntry>) -> Seq<(u64, u32)> {
    s.map_values(|e: MemEntry| e.fields())
}

/// The command that attaches backing memory to a resource.
#[derive(Debug)]
pub struct CmdResourceAttachBacking {
    header: GPUControlQHeader,
    resource_id: Le<u32>,
    entries_len: Le<u32>,
    entries: Vec<MemEntry>,
    response: RespOKNoData,
}

impl CmdResourceAttachBacking {
    /// The command's type, flags, resource ID and number of entries.
    pub closed spec fn fields(&self) -> (GPUCommType, u32, u32, u32) {
        (self.header.comm_type_spec(), self.header.flags_spec(), self.resource_id.native(), self.entries_len.native())
    }

    /// The address and size of each piece of backing memory.
    pub closed spec fn entries_spec(&self) -> Seq<(u64, u32)> {
        entry_fields(self.entries@)
    }

    /// Makes the command for the resource `resource_id` (not zero), backed by the pieces of memory
    /// `entries`, each given by its address and size in bytes.
    pub fn new(resource_id: u32, entries: &[(u64, u32)], flags: u32) -> (r: Box<CmdResourceAttachBacking>)
        requires
            entries@.len() <= u32::MAX,
        ensures
            r.fields() == (GPUCommType::CmdResourceAttachBacking, flags, resource_id, entries@.len() as u32),
            r.entries_spec() == entries@,
    {
        let mut list: Vec<MemEntry> = Vec::new();
        let mut i: usize = 0;
        while i < entries.len()
            invariant
                i <= entries@.len(),
                list@.len() == i,
                entry_fields(list@) == entries@.take(i as int),
            decreases entries@.len() - i,
        {
            let (base, size) = entries[i];
            let entry = MemEntry {
                base: Le::<u64>::from_native(base),
                size: Le::<u32>::from_native(size),
                padding: Le::<u32>::from_native(0),
            };
            assert(entry.fields() == entries@[i as int]);
            let ghost prev = list@;
            list.push(entry);
            proof {
                assert forall|j: int| 0 <= j < i + 1 implies #[trigger] entry_fields(list@)[j]
                    == entries@.take(i + 1)[j] by {
                    if j < i {
                        assert(list@[j] == prev[j]);
                        assert(entry_fields(prev)[j] == entries@.take(i as int)[j]);
                    }
                }
                assert(entry_fields(list@) =~= entries@.take(i + 1));
            }
            i += 1;
        }
        proof {
            assert(entries@.take(entries@.len() as int) =~= entries@);
        }
        Box::new(CmdResourceAttachBacking {
            header: GPUControlQHeader::new(GPUCommType::CmdResourceAttachBacking, flags),
            resource_id: Le::<u32>::from_native(resource_id),
            entries_len: Le::<u32>::from_native(entries.len() as u32),
            entries: list,
            response: RespOKNoData::new(flags),
        })
    }

    /// The offset of the response from the start of the command: after the header, the resource ID,
    /// the number of entries and the entries themselves (16 bytes each).
    pub fn response_offset(&self) -> (r: usize)
        requires
            self.entries_spec().len() * 16 + 32 <= usize::MAX,
        ensures
            r == 32 + 16 * self.entries_spec().len(),
    {
        32 + 16 * self.entries.len()
    }
}

/// The cursor's position on a scanout.
#[derive(Debug, Clone, Copy)]
pub struct CursorPosition {
    scanout_id: Le<u32>,
    x: Le<u32>,
    y: Le<u32>,
    padding: Le<u32>,
}

impl CursorPosition {
    /// The scanout ID and coordinates.
    pub closed spec fn fields(&self) -> (u32, u32, u32) {
        (self.scanout_id.native(), self.x.native(), self.y.native())
    }

    /// Makes the position.
    pub fn new(scanout_id: u32, x: u32, y: u32) -> (r: CursorPosition)
        ensures
            r.fields() == (scanout_id, x, y),
    {
        CursorPosition {
            scanout_id: Le::<u32>::from_native(scanout_id),
            x: Le::<u32>::from_native(x),
            y: Le::<u32>::from_native(y),
            padding: Le::<u32>::from_native(0),
        }
    }
}

/// A command for the cursor queue.
#[derive(Debug)]
pub struct CursorCommand {
    header: GPUControlQHeader,
    position: CursorPosition,
    resource_id: Le<u32>,
    hot_x: Le<u32>,
    hot_y: Le<u32>,
    padding: Le<u32>,
    response: RespOKNoData,
}

impl CursorCommand {
    /// The command's type, flags, position, resource ID and hot spot.
    pub closed spec fn fields(&self) -> (GPUCommType, u32, (u32, u32, u32), u32, u32, u32) {
        (self.header.comm_type_spec(), self.header.flags_spec(), self.position.fields(), self.resource_id.native(),
            self.hot_x.native(), self.hot_y.native())
    }

    /// Makes the command that sets the cursor's image (a resource, with its hot spot) and position.
    pub fn new_update(position: CursorPosition, resource_id: u32, hot_x: u32, hot_y: u32, flags: u32) -> (r: Box<CursorCommand>)
        ensures
            r.fields() == (GPUCommType::CmdUpdateCursor, flags, position.fields(), resource_id, hot_x, hot_y),
    {
        Box::new(CursorCommand {
            header: GPUControlQHeader::new(GPUCommType::CmdUpdateCursor, flags),
            position,
            resource_id: Le::<u32>::from_native(resource_id),
            hot_x: Le::<u32>::from_native(hot_x),
            hot_y: Le::<u32>::from_native(hot_y),
            padding: Le::<u32>::from_native(0),
            response: RespOKNoData::new(flags),
        })
    }

    /// Makes the command that sets the cursor's position.
    pub fn new_move(position: CursorPosition, flags: u32) -> (r: Box<CursorCommand>)
        ensures
            r.fields() == (GPUCommType::CmdMoveCursor, flags, position.fields(), 0u32, 0u32, 0u32),
    {
        Box::new(CursorCommand {
            header: GPUControlQHeader::new(GPUCommType::CmdMoveCursor, flags),
            position,
            resource_id: Le::<u32>::from_native(0),
            hot_x: Le::<u32>::from_native(0),
            hot_y: Le::<u32>::from_native(0),
            padding: Le::<u32>::from_native(0),
            response: RespOKNoData::new(flags),
        })
    }
}

/// Which tile of a tileset a cell of an image shows.
#[derive(Debug, Clone, Copy, PartialEq, Eq, Structural)]
pub struct Tile(pub u32);

/// A color.
#[derive(Debug, Clone, Copy, PartialEq, Eq, Structural)]
pub struct Color(pub u32);

/// An image made of tiles, each given by a tile index and some colors.
#[derive(Debug)]
pub struct Image {
    tile_length: u8,
    colors_per_tile: u8,
    bits_per_color: u8,
    bytes_per_color: u8,
    width: u32,
    resource_id: Option<u32>,
    backing: Vec<u8>,
    drawing_colors: Vec<Color>,
}

/// The number of bytes one tile of an image takes.
pub open spec fn bytes_per_tile(tile_length: u8, colors_per_tile: u8, bits_per_color: u8) -> int {
    tile_length + colors_per_tile * ((bits_per_color + 7) / 8)
}

/// Byte `j` of `v`, counting from the least significant.
pub open spec fn byte_of(v: u32, j: int) -> u8 {
    ((v >> ((8 * j) as u32)) & 0xffu32) as u8
}

/// The bytes of one cell drawn with `tile` and the colors `colors`: the first `tile_length` bytes
/// of the tile's index, then the first `bytes_per_color` bytes of each color, each least
/// significant first.
pub open spec fn cell_bytes(tile: Tile, colors: Seq<Color>, tile_length: int, bytes_per_color: int) -> Seq<u8> {
    Seq::new((tile_length + colors.len() * bytes_per_color) as nat, |i: int|
        if i < tile_length {
            byte_of(tile.0, i)
        } else {
            byte_of(colors[(i - tile_length) / bytes_per_color].0, (i - tile_length) % bytes_per_color)
        })
}

/// The number whose bytes, least significant first, are `s` (cut to 32 bits).
pub open spec fn le_bits(s: Seq<u8>) -> u32
    decreases s.len(),
{
    if s.len() == 0 {
        0
    } else {
        (s[0] as u32) | (le_bits(s.drop_first()) << 8u32)
    }
}

// The largest number that `n` bytes hold, for up to 4 bytes.
spec fn byte_span_max(n: nat) -> u32 {
    if n == 0 { 0 } else if n == 1 { 0xff } else if n == 2 { 0xffff } else if n == 3 { 0xffffff } else { 0xffff_ffff }
}

/// The tile index and colors stored in the cell whose bytes start at `idx` in `b`: the tile index
/// in its first `tile_length` bytes, then `colors_per_tile` colors of `bytes_per_color` bytes each,
/// all least significant byte first, keeping the low `bits_per_color` bits of each color.
pub open spec fn read_cell(
    b: Seq<u8>,
    idx: int,
    tile_length: int,
    bytes_per_color: int,
    colors_per_tile: nat,
    bits_per_color: u8,
) -> (Tile, Seq<Color>) {
    (
        Tile(le_bits(b.subrange(idx, idx + tile_length))),
        Seq::new(colors_per_tile, |i: int|
            Color(le_bits(b.subrange(idx + tile_length + bytes_per_color * i,
                idx + tile_length + bytes_per_color * i + bytes_per_color))
                & (((1u64 << bits_per_color) - 1) as u32))),
    )
}

// Two cells with the same bytes store the same tile index and colors.
proof fn lemma_read_cell_same_bytes(
    b1: Seq<u8>,
    i1: int,
    b2: Seq<u8>,
    i2: int,
    tile_length: int,
    bytes_per_color: int,
    colors_per_tile: nat,
    bits_per_color: u8,
)
    requires
        tile_length >= 0,
        bytes_per_color >= 0,
        i1 >= 0,
        i2 >= 0,
        i1 + tile_length + colors_per_tile * bytes_per_color <= b1.len(),
        i2 + tile_length + colors_per_tile * bytes_per_color <= b2.len(),
        forall|j: int| 0 <= j < tile_length + colors_per_tile * bytes_per_color ==> #[trigger] b1[i1 + j] == b2[i2 + j],
    ensures
        read_cell(b1, i1, tile_length, bytes_per_color, colors_per_tile, bits_per_color)
            == read_cell(b2, i2, tile_length, bytes_per_color, colors_per_tile, bits_per_color),
{
    let n = tile_length + colors_per_tile * bytes_per_color;
    assert(colors_per_tile * bytes_per_color >= 0) by (nonlinear_arith)
        requires bytes_per_color >= 0;
    assert(b1.subrange(i1, i1 + tile_length) =~= b2.subrange(i2, i2 + tile_length)) by {
        assert forall|j: int| 0 <= j < tile_length implies #[trigger] b1.subrange(i1, i1 + tile_length)[j]
            == b2.subrange(i2, i2 + tile_length)[j] by {
            assert(b1[i1 + j] == b2[i2 + j]);
        }
    }
    let c1 = read_cell(b1, i1, tile_length, bytes_per_color, colors_per_tile, bits_per_color).1;
    let c2 = read_cell(b2, i2, tile_length, bytes_per_color, colors_per_tile, bits_per_color).1;
    assert forall|i: int| 0 <= i < colors_per_tile implies #[trigger] c1[i] == c2[i] by {
        let o = tile_length + bytes_per_color * i;
        assert(o + bytes_per_color <= n) by (nonlinear_arith)
            requires o == tile_length + bytes_per_color * i, 0 <= i < colors_per_tile, bytes_per_color >= 0,
                n == tile_length + colors_per_tile * bytes_per_color;
        assert(o >= 0) by (nonlinear_arith)
            requires o == tile_length + bytes_per_color * i, i >= 0, bytes_per_color >= 0, tile_length >= 0;
        assert(b1.subrange(i1 + o, i1 + o + bytes_per_color) =~= b2.subrange(i2 + o, i2 + o + bytes_per_color)) by {
            assert forall|j: int| 0 <= j < bytes_per_color implies #[trigger] b1.subrange(i1 + o, i1 + o + bytes_per_color)[j]
                == b2.subrange(i2 + o, i2 + o + bytes_per_color)[j] by {
                assert(b1[i1 + (o + j)] == b2[i2 + (o + j)]);
            }
        }
        assert(i1 + tile_length + bytes_per_color * i == i1 + o);
        assert(i2 + tile_length + bytes_per_color * i == i2 + o);
    }
    assert(c1 =~= c2);
}

/// `len`, cut so that a span of that length from `start` ends no later than `limit`.
pub open spec fn clip_spec(start: u32, len: u32, limit: u32) -> u32 {
    if start + len > limit { (limit - start) as u32 } else { len }
}

/// `len`, cut so that a span of that length from `start` ends no later than `limit`; 0 where
/// `start` is not before `limit`.
pub open spec fn fit_span(start: u32, len: u32, limit: u32) -> u32 {
    if start >= limit {
        0
    } else if len > limit - start {
        (limit - start) as u32
    } else {
        len
    }
}

fn fit_span_exec(start: u32, len: u32, limit: u32) -> (r: u32)
    ensures
        r == fit_span(start, len, limit),
{
    if start >= limit {
        0
    } else if len > limit - start {
        limit - start
    } else {
        len
    }
}

/// Whether the cell in column `cx` and row `cy` lies in the rectangle of `w` by `h` cells whose
/// top-left cell is in column `x` and row `y`.
pub open spec fn in_cells(cx: int, cy: int, x: int, y: int, w: int, h: int) -> bool {
    x <= cx < x + w && y <= cy < y + h
}

// The byte `i` of the cell in column `x` and row `y` of an image `w` cells wide, with `bpt` bytes
// per cell, lies in that cell at offset `i`.
proof fn lemma_cell_position(x: int, y: int, w: int, bpt: int, i: int)
    requires
        0 <= x < w,
        0 <= y,
        0 <= i < bpt,
    ensures
        ((x + y * w) * bpt + i) / bpt == x + y * w,
        ((x + y * w) * bpt + i) % bpt == i,
        (((x + y * w) * bpt + i) / bpt) % w == x,
        (((x + y * w) * bpt + i) / bpt) / w == y,
{
    vstd::arithmetic::div_mod::lemma_fundamental_div_mod_converse((x + y * w) * bpt + i, bpt, x + y * w, i);
    vstd::arithmetic::div_mod::lemma_fundamental_div_mod_converse(x + y * w, w, y, x);
}

// The cell in column `x` and row `y` of an image `w` by `h` cells, with `bpt` bytes per cell, lies
// within the image's `len` bytes, and its index fits in 32 bits.
proof fn lemma_move_cell_bounds(x: int, y: int, w: int, h: int, bpt: int, len: int)
    requires
        0 <= x < w,
        0 <= y < h,
        w <= 4096,
        h <= 4096,
        bpt > 0,
        len == bpt * w * h,
    ensures
        y * w <= 4096 * 4096,
        x + y * w <= 4096 * 4096 + 4096,
        (x + y * w) * bpt + bpt <= len,
{
    assert(y * w <= 4096 * 4096) by (nonlinear_arith)
        requires 0 <= y < h, h <= 4096, 0 <= w <= 4096;
    assert(x + y * w <= (w - 1) + (h - 1) * w) by (nonlinear_arith)
        requires x < w, 0 <= y < h, w >= 0;
    assert((w - 1) + (h - 1) * w == h * w - 1) by (nonlinear_arith);
    assert((x + y * w) * bpt + bpt <= len) by (nonlinear_arith)
        requires x + y * w <= h * w - 1, len == bpt * w * h, bpt > 0;
}

// Every byte `k` of an image `w` cells wide, with `bpt` bytes per cell, lies in the cell of its
// column and row.
proof fn lemma_cell_decompose(k: int, w: int, bpt: int)
    requires
        k >= 0,
        w > 0,
        bpt > 0,
    ensures
        k == ((k / bpt) % w + ((k / bpt) / w) * w) * bpt + k % bpt,
        0 <= k % bpt < bpt,
        0 <= (k / bpt) % w < w,
        (k / bpt) / w >= 0,
        k / bpt >= 0,
{
    let c = k / bpt;
    vstd::arithmetic::div_mod::lemma_fundamental_div_mod(k, bpt);
    vstd::arithmetic::div_mod::lemma_fundamental_div_mod(c, w);
    assert(c >= 0) by (nonlinear_arith) requires k >= 0, bpt > 0, c == k / bpt;
    assert(c / w >= 0) by (nonlinear_arith) requires c >= 0, w > 0;
    assert(k == (c % w + (c / w) * w) * bpt + k % bpt) by (nonlinear_arith)
        requires k == bpt * c + k % bpt, c == w * (c / w) + c % w;
}

/// Whether an image with these parameters can be made: at most 4096 tiles wide and high, a tile
/// index of at most 4 bytes and colors of at most 32 bits.
pub open spec fn valid_image_params(tile_length: u8, bits_per_color: u8, width: u32, height: u32) -> bool {
    width <= 4096 && height <= 4096 && tile_length <= 4 && bits_per_color <= 32
}

impl Image {
    /// The bytes per tile index.
    pub closed spec fn tile_length_spec(&self) -> u8 {
        self.tile_length
    }

    /// The colors per tile.
    pub closed spec fn colors_per_tile_spec(&self) -> u8 {
        self.colors_per_tile
    }

    /// The bits per color.
    pub closed spec fn bits_per_color_spec(&self) -> u8 {
        self.bits_per_color
    }

    /// The width in tiles.
    pub closed spec fn width_spec(&self) -> u32 {
        self.width
    }

    /// The image's bytes.
    pub closed spec fn backing_spec(&self) -> Seq<u8> {
        self.backing@
    }

    /// The colors that will be used to draw new tiles.
    pub closed spec fn drawing_colors_spec(&self) -> Seq<Color> {
        self.drawing_colors@
    }

    /// The GPU's resource ID for the image, if the GPU has a copy of it.
    pub closed spec fn resource_id_spec(&self) -> Option<u32> {
        self.resource_id
    }

    /// The bytes per tile.
    pub open spec fn tile_bytes(&self) -> int {
        bytes_per_tile(self.tile_length_spec(), self.colors_per_tile_spec(), self.bits_per_color_spec())
    }

    /// The bytes per color, as stored.
    pub closed spec fn bytes_per_color_spec(&self) -> u8 {
        self.bytes_per_color
    }

    /// The bytes per row of tiles.
    pub open spec fn row_bytes(&self) -> int {
        self.tile_bytes() * self.width_spec()
    }

    /// The height in tiles: the number of whole rows in the image's bytes (none if a row takes no
    /// bytes).
    pub open spec fn height_spec(&self) -> int {
        if self.row_bytes() > 0 { self.backing_spec().len() as int / self.row_bytes() } else { 0 }
    }

    /// The tile index and colors stored in the cell in column `x` and row `y`.
    pub open spec fn tile_spec(&self, x: u32, y: u32) -> (Tile, Seq<Color>) {
        read_cell(self.backing_spec(), (x + y * self.width_spec()) * self.tile_bytes(), self.tile_length_spec() as int,
            self.bytes_per_color_spec() as int, self.colors_per_tile_spec() as nat, self.bits_per_color_spec())
    }

    /// The column of the cell that byte `k` of the image belongs to.
    pub open spec fn cell_column(&self, k: int) -> int {
        (k / self.tile_bytes()) % (self.width_spec() as int)
    }

    /// The row of the cell that byte `k` of the image belongs to.
    pub open spec fn cell_row(&self, k: int) -> int {
        (k / self.tile_bytes()) / (self.width_spec() as int)
    }

    /// The image's invariant: its parameters are valid, the bytes per color are the bits per color
    /// rounded up to whole bytes, there is a drawing color for each color of a tile, and the image
    /// is a whole number of rows, at most 4096.
    pub open spec fn wf(&self) -> bool {
        &&& self.tile_length_spec() <= 4
        &&& self.bits_per_color_spec() <= 32
        &&& self.width_spec() <= 4096
        &&& self.bytes_per_color_spec() == (self.bits_per_color_spec() + 7) / 8
        &&& self.drawing_colors_spec().len() == self.colors_per_tile_spec()
        &&& self.row_bytes() > 0 ==> self.backing_spec().len() == self.row_bytes() * self.height_spec()
        &&& self.row_bytes() == 0 ==> self.backing_spec().len() == 0
        &&& self.height_spec() <= 4096
        &&& self.backing_spec().len() <= u32::MAX
    }

    /// Makes an image in memory with the given parameters, all zeroes, and no drawing colors set
    /// (all zero). Fails if the parameters are not valid.
    pub fn new(tile_length: u8, colors_per_tile: u8, bits_per_color: u8, width: u32, height: u32) -> (r: Result<Image, ()>)
        requires
            valid_image_params(tile_length, bits_per_color, width, height)
                ==> bytes_per_tile(tile_length, colors_per_tile, bits_per_color) * width * height <= u32::MAX,
        ensures
            r is Ok <==> valid_image_params(tile_length, bits_per_color, width, height),
            r is Ok ==> ({
                let img = r->Ok_0;
                &&& img.wf()
                &&& img.tile_length_spec() == tile_length
                &&& img.colors_per_tile_spec() == colors_per_tile
                &&& img.bits_per_color_spec() == bits_per_color
                &&& img.width_spec() == width
                &&& img.resource_id_spec() is None
                &&& img.backing_spec() == Seq::new(
                        (bytes_per_tile(tile_length, colors_per_tile, bits_per_color) * width * height) as nat,
                        |_i: int| 0u8)
                &&& img.drawing_colors_spec() == Seq::new(colors_per_tile as nat, |_i: int| Color(0))
            }),
    {
        if width > 4096 || height > 4096 || tile_length > 4 || bits_per_color > 32 {
            return Err(());
        }
        let bytes_per_color: u8 = (bits_per_color + 7) / 8;
        assert(colors_per_tile * bytes_per_color <= 255 * 4) by (nonlinear_arith)
            requires colors_per_tile <= 255, bytes_per_color <= 4;
        let tile_bytes: u32 = tile_length as u32 + colors_per_tile as u32 * bytes_per_color as u32;
        assert(tile_bytes * width <= tile_bytes * width * height || height == 0) by (nonlinear_arith)
            requires height >= 0, tile_bytes >= 0, width >= 0;
        assert(tile_bytes * width <= 1024 * 4096) by (nonlinear_arith)
            requires tile_bytes <= 1024, width <= 4096;
        let backing_len = (tile_bytes * width * height) as usize;
        let mut backing: Vec<u8> = Vec::new();
        let mut i: usize = 0;
        while i < backing_len
            invariant
                i <= backing_len,
                backing@ == Seq::new(i as nat, |_i: int| 0u8),
            decreases backing_len - i,
        {
            backing.push(0);
            i += 1;
        }
        let mut drawing_colors: Vec<Color> = Vec::new();
        let mut j: u8 = 0;
        while j < colors_per_tile
            invariant
                j <= colors_per_tile,
                drawing_colors@ == Seq::new(j as nat, |_i: int| Color(0)),
            decreases colors_per_tile - j,
        {
            drawing_colors.push(Color(0));
            j += 1;
        }
        let img = Image {
            tile_length,
            colors_per_tile,
            bits_per_color,
            bytes_per_color,
            width,
            resource_id: None,
            backing,
            drawing_colors,
        };
        proof {
            let row = img.row_bytes();
            assert(row == tile_bytes * width);
            if row > 0 {
                assert(row * height == height * row + 0) by (nonlinear_arith);
                vstd::arithmetic::div_mod::lemma_fundamental_div_mod_converse(row * height, row, height as int, 0);
                assert(row * height == tile_bytes * width * height) by (nonlinear_arith)
                    requires row == tile_bytes * width;
            } else {
                assert(tile_bytes * width * height == 0) by (nonlinear_arith)
                    requires tile_bytes * width == 0;
            }
        }
        Ok(img)
    }

    /// Records the GPU's resource ID for the image, once the GPU has a copy of it.
    pub fn set_resource_id(&mut self, resource_id: u32)
        ensures
            final(self).resource_id_spec() == Some(resource_id),
            final(self).backing_spec() == old(self).backing_spec(),
            final(self).width_spec() == old(self).width_spec(),
    {
        self.resource_id = Some(resource_id);
    }

    /// Whether the GPU can hold the image as a resource: it is made of plain 32-bit pixels.
    pub fn virtio_compatible(&self) -> (r: bool)
        ensures
            r == (self.tile_length_spec() == 0 && self.colors_per_tile_spec() == 1 && self.bits_per_color_spec() == 32),
    {
        self.tile_length == 0 && self.colors_per_tile == 1 && self.bits_per_color == 32
    }

    /// Returns the width in tiles.
    pub fn width(&self) -> (r: u32)
        ensures
            r == self.width_spec(),
    {
        self.width
    }

    /// Returns the height in tiles: the number of whole rows in the image's bytes.
    pub fn height(&self) -> (r: u32)
        requires
            self.tile_bytes() * self.width_spec() > 0,
            self.backing_spec().len() <= u32::MAX,
            self.tile_bytes() * self.width_spec() <= u32::MAX,
            self.bits_per_color_spec() <= 32,
        ensures
            r == (self.backing_spec().len() as int) / (self.tile_bytes() * self.width_spec()),
    {
        let bytes_per_color: u32 = (self.bits_per_color as u32 + 7) / 8;
        assert(self.colors_per_tile * bytes_per_color <= 255 * 5) by (nonlinear_arith)
            requires self.colors_per_tile <= 255, bytes_per_color <= 5;
        let tile_bytes: u32 = self.tile_length as u32 + self.colors_per_tile as u32 * bytes_per_color;
        let bytes_per_row = tile_bytes * self.width;
        self.backing.len() as u32 / bytes_per_row
    }

    /// Replaces the drawing colors from `first_index` on with `colors`, as many as fit.
    pub fn set_colors(&mut self, first_index: usize, colors: &[Color])
        ensures
            final(self).drawing_colors_spec().len() == old(self).drawing_colors_spec().len(),
            forall|i: int| 0 <= i < old(self).drawing_colors_spec().len() ==>
                #[trigger] final(self).drawing_colors_spec()[i] == if first_index <= i < first_index + colors@.len() {
                    colors@[i - first_index]
                } else {
                    old(self).drawing_colors_spec()[i]
                },
            final(self).backing_spec() == old(self).backing_spec(),
    {
        let n = self.drawing_colors.len();
        if first_index >= n {
            return;
        }
        let upper_bound = if colors.len() <= n - first_index { colors.len() } else { n - first_index };
        let mut i: usize = 0;
        while i < upper_bound
            invariant
                n == self.drawing_colors@.len(),
                first_index < n,
                upper_bound <= colors@.len(),
                upper_bound <= n - first_index,
                upper_bound == colors@.len() || upper_bound == n - first_index,
                i <= upper_bound,
                self.backing@ == old(self).backing@,
                forall|k: int| 0 <= k < n ==>
                    #[trigger] self.drawing_colors@[k] == if first_index <= k < first_index + i {
                        colors@[k - first_index]
                    } else {
                        old(self).drawing_colors@[k]
                    },
            decreases upper_bound - i,
        {
            self.drawing_colors.set(first_index + i, colors[i]);
            i += 1;
        }
    }

    /// The offset in the GPU's copy of the image of the top-left corner of `rect`.
    pub fn transfer_offset(&self, rect: Rectangle) -> (r: u64)
        requires
            rect.x + rect.y * self.width_spec() <= u32::MAX,
            self.bits_per_color_spec() <= 32,
        ensures
            r == (rect.x + rect.y * self.width_spec()) * self.tile_bytes(),
    {
        let bytes_per_color: u64 = (self.bits_per_color as u64 + 7) / 8;
        assert(self.colors_per_tile * bytes_per_color <= 255 * 5) by (nonlinear_arith)
            requires self.colors_per_tile <= 255, bytes_per_color <= 5;
        let tile_bytes: u64 = self.tile_length as u64 + self.colors_per_tile as u64 * bytes_per_color;
        let cell = rect.x + rect.y * self.width;
        assert(cell * tile_bytes <= u32::MAX * 2000) by (nonlinear_arith)
            requires cell <= u32::MAX, tile_bytes <= 2000;
        cell as u64 * tile_bytes
    }

    /// The rectangle the whole image covers.
    pub fn rect(&self) -> (r: Rectangle)
        requires
            self.tile_bytes() * self.width_spec() > 0,
            self.backing_spec().len() <= u32::MAX,
            self.tile_bytes() * self.width_spec() <= u32::MAX,
            self.bits_per_color_spec() <= 32,
        ensures
            r == (Rectangle { x: 0, y: 0, width: self.width_spec(),
                height: ((self.backing_spec().len() as int) / (self.tile_bytes() * self.width_spec())) as u32 }),
    {
        Rectangle::new(0, 0, self.width(), self.height())
    }

    /// Returns the bytes per tile index.
    pub fn tile_length(&self) -> (r: u8)
        ensures
            r == self.tile_length_spec(),
    {
        self.tile_length
    }

    /// Returns the colors per tile.
    pub fn colors_per_tile(&self) -> (r: u8)
        ensures
            r == self.colors_per_tile_spec(),
    {
        self.colors_per_tile
    }

    /// Returns the bits per color.
    pub fn bits_per_color(&self) -> (r: u8)
        ensures
            r == self.bits_per_color_spec(),
    {
        self.bits_per_color
    }

    /// Returns the colors currently used for drawing new tiles.
    pub fn colors(&self) -> (r: &[Color])
        ensures
            r@ == self.drawing_colors_spec(),
    {
        self.drawing_colors.as_slice()
    }

    /// Whether the image's bytes `after` are `before` with the cells in the rectangle of `w` by `h`
    /// cells from column `x` and row `y` filled with `pattern` (and no other byte changed).
    pub open spec fn filled(&self, before: Seq<u8>, after: Seq<u8>, pattern: Seq<u8>, x: int, y: int, w: int, h: int) -> bool {
        &&& after.len() == before.len()
        &&& forall|k: int| 0 <= k < before.len() ==> #[trigger] after[k] ==
            if in_cells(self.cell_column(k), self.cell_row(k), x, y, w, h) {
                pattern[k % self.tile_bytes()]
            } else {
                before[k]
            }
    }

    /// Fills the rectangle `rect`, cut to the image's bounds, with cells showing `tile` in the
    /// current drawing colors.
    pub fn draw_rect_region(&mut self, rect: Rectangle, tile: Tile)
        requires
            old(self).wf(),
            old(self).row_bytes() > 0,
            rect.x + rect.width <= u32::MAX,
            rect.y + rect.height <= u32::MAX,
            rect.x + rect.width > old(self).width_spec() ==> rect.x <= old(self).width_spec(),
            rect.y + rect.height > old(self).height_spec() ==> rect.y <= old(self).height_spec(),
        ensures
            final(self).wf(),
            final(self).tile_length_spec() == old(self).tile_length_spec(),
            final(self).colors_per_tile_spec() == old(self).colors_per_tile_spec(),
            final(self).bits_per_color_spec() == old(self).bits_per_color_spec(),
            final(self).width_spec() == old(self).width_spec(),
            final(self).drawing_colors_spec() == old(self).drawing_colors_spec(),
            final(self).resource_id_spec() == old(self).resource_id_spec(),
            old(self).filled(old(self).backing_spec(), final(self).backing_spec(),
                cell_bytes(tile, old(self).drawing_colors_spec(), old(self).tile_length_spec() as int,
                    old(self).bytes_per_color_spec() as int),
                rect.x as int, rect.y as int,
                clip_spec(rect.x, rect.width, old(self).width_spec()) as int,
                clip_spec(rect.y, rect.height, old(self).height_spec() as u32) as int),
    {
        let self_width = self.width;
        let bpt = self.tile_bytes_exec();
        assert(bpt > 0 && self_width > 0) by (nonlinear_arith)
            requires bpt * self_width > 0, bpt >= 0, self_width >= 0;
        assert(bpt * self_width <= 1024 * 4096) by (nonlinear_arith)
            requires bpt <= 1024, self_width <= 4096;
        let self_height = self.height();
        let mut rect = rect;
        if rect.x + rect.width > self_width {
            rect.width = self_width - rect.x;
        }
        if rect.y + rect.height > self_height {
            rect.height = self_height - rect.y;
        }
        let pattern = self.cell_pattern(tile);
        let ghost before = self.backing@;
        let ghost w: int = self_width as int;
        let ghost b: int = bpt as int;
        let mut y = rect.y;
        while y < rect.y + rect.height
            invariant
                self.wf(),
                self.tile_length == old(self).tile_length,
                self.colors_per_tile == old(self).colors_per_tile,
                self.bits_per_color == old(self).bits_per_color,
                self.bytes_per_color == old(self).bytes_per_color,
                self.width == old(self).width,
                self.drawing_colors@ == old(self).drawing_colors@,
                self.resource_id == old(self).resource_id,
                before == old(self).backing@,
                self_width == self.width,
                self_height == old(self).height_spec(),
                self_height <= 4096,
                self_width <= 4096,
                bpt == old(self).tile_bytes(),
                bpt > 0,
                self_width > 0,
                w == self_width,
                b == bpt,
                pattern@.len() == bpt,
                rect.x + rect.width <= self_width,
                rect.y + rect.height <= self_height,
                rect.y <= y <= rect.y + rect.height,
                old(self).filled(before, self.backing@, pattern@, rect.x as int, rect.y as int,
                    rect.width as int, (y - rect.y) as int),
            decreases rect.y + rect.height - y,
        {
            let mut x = rect.x;
            while x < rect.x + rect.width
                invariant
                    self.wf(),
                    self.tile_length == old(self).tile_length,
                    self.colors_per_tile == old(self).colors_per_tile,
                    self.bits_per_color == old(self).bits_per_color,
                    self.bytes_per_color == old(self).bytes_per_color,
                    self.width == old(self).width,
                    self.drawing_colors@ == old(self).drawing_colors@,
                    self.resource_id == old(self).resource_id,
                    before == old(self).backing@,
                    self_width == self.width,
                    self_height == old(self).height_spec(),
                    self_height <= 4096,
                    self_width <= 4096,
                    bpt == old(self).tile_bytes(),
                    bpt > 0,
                    self_width > 0,
                    w == self_width,
                    b == bpt,
                    pattern@.len() == bpt,
                    rect.x + rect.width <= self_width,
                    rect.y + rect.height <= self_height,
                    rect.y <= y < rect.y + rect.height,
                    rect.x <= x <= rect.x + rect.width,
                    self.backing@.len() == before.len(),
                    forall|k: int| 0 <= k < before.len() ==> #[trigger] self.backing@[k] ==
                        if in_cells(old(self).cell_column(k), old(self).cell_row(k), rect.x as int, rect.y as int,
                            rect.width as int, (y - rect.y) as int)
                            || (old(self).cell_row(k) == y && rect.x <= old(self).cell_column(k) < x) {
                            pattern@[k % b]
                        } else {
                            before[k]
                        },
                decreases rect.x + rect.width - x,
            {
                proof {
                    assert(y * self_width <= 4096 * 4096) by (nonlinear_arith)
                        requires y < self_height, self_height <= 4096, self_width <= 4096;
                    assert(x + y * self_width <= (self_width - 1) + (self_height - 1) * self_width) by (nonlinear_arith)
                        requires x < self_width, y < self_height;
                    assert((self_width - 1) + (self_height - 1) * self_width == self_height * self_width - 1)
                        by (nonlinear_arith);
                    assert(before.len() == bpt * self_width * self_height);
                    assert((x + y * self_width) * bpt + bpt <= before.len()) by (nonlinear_arith)
                        requires x + y * self_width <= self_height * self_width - 1,
                            before.len() == bpt * self_width * self_height, bpt > 0;
                }
                let start = (x + y * self_width) as usize * bpt;
                let mut i: usize = 0;
                while i < bpt
                    invariant
                        self.wf(),
                        self.tile_length == old(self).tile_length,
                        self.colors_per_tile == old(self).colors_per_tile,
                        self.bits_per_color == old(self).bits_per_color,
                        self.bytes_per_color == old(self).bytes_per_color,
                        self.width == old(self).width,
                        self.drawing_colors@ == old(self).drawing_colors@,
                        self.resource_id == old(self).resource_id,
                        before == old(self).backing@,
                        bpt == old(self).tile_bytes(),
                        bpt > 0,
                        self_width > 0,
                        w == self_width,
                        b == bpt,
                        self_width == old(self).width,
                        pattern@.len() == bpt,
                        x < self_width,
                        start == (x + y * w) * b,
                        start + bpt <= before.len(),
                        i <= bpt,
                        self.backing@.len() == before.len(),
                        forall|k: int| 0 <= k < before.len() ==> #[trigger] self.backing@[k] ==
                            if in_cells(old(self).cell_column(k), old(self).cell_row(k), rect.x as int, rect.y as int,
                                rect.width as int, (y - rect.y) as int)
                                || (old(self).cell_row(k) == y && rect.x <= old(self).cell_column(k) < x)
                                || (old(self).cell_row(k) == y && old(self).cell_column(k) == x && k % b < i) {
                                pattern@[k % b]
                            } else {
                                before[k]
                            },
                    decreases bpt - i,
                {
                    let ghost prev = self.backing@;
                    self.backing.set(start + i, pattern[i]);
                    proof {
                        lemma_cell_position(x as int, y as int, w, b, i as int);
                        assert forall|k: int| 0 <= k < before.len() implies #[trigger] self.backing@[k] ==
                            if in_cells(old(self).cell_column(k), old(self).cell_row(k), rect.x as int, rect.y as int,
                                rect.width as int, (y - rect.y) as int)
                                || (old(self).cell_row(k) == y && rect.x <= old(self).cell_column(k) < x)
                                || (old(self).cell_row(k) == y && old(self).cell_column(k) == x && k % b < i + 1) {
                                pattern@[k % b]
                            } else {
                                before[k]
                            } by {
                            if k != start + i {
                                assert(self.backing@[k] == prev[k]);
                                lemma_cell_decompose(k, w, b);
                                if old(self).cell_row(k) == y && old(self).cell_column(k) == x && k % b == i {
                                    assert(k == (x + y * w) * b + i);
                                }
                            }
                        }
                    }
                    i += 1;
                }
                x += 1;
                proof {
                    assert forall|k: int| 0 <= k < before.len() implies #[trigger] self.backing@[k] ==
                        if in_cells(old(self).cell_column(k), old(self).cell_row(k), rect.x as int, rect.y as int,
                            rect.width as int, (y - rect.y) as int)
                            || (old(self).cell_row(k) == y && rect.x <= old(self).cell_column(k) < x) {
                            pattern@[k % b]
                        } else {
                            before[k]
                        } by {
                        lemma_cell_decompose(k, w, b);
                    }
                }
            }
            y += 1;
        }
    }

    /// Whether the image's bytes `after` are `before` with each cell of the rectangle of `w` by
    /// `h` cells from column `x` and row `y` replaced by the cell at the same place in the
    /// rectangle from column `src_x` and row `src_y` of the bytes `src` of an image `src_width`
    /// cells wide (and no other byte changed).
    pub open spec fn copied(
        &self,
        before: Seq<u8>,
        after: Seq<u8>,
        src: Seq<u8>,
        src_width: int,
        src_x: int,
        src_y: int,
        x: int,
        y: int,
        w: int,
        h: int,
    ) -> bool {
        &&& after.len() == before.len()
        &&& forall|k: int| 0 <= k < before.len() ==> #[trigger] after[k] ==
            if in_cells(self.cell_column(k), self.cell_row(k), x, y, w, h) {
                src[((self.cell_column(k) - x + src_x) + (self.cell_row(k) - y + src_y) * src_width)
                    * self.tile_bytes() + k % self.tile_bytes()]
            } else {
                before[k]
            }
    }

    /// Whether `other` stores its tiles the same way as this image: the same bytes per tile index,
    /// colors per tile and bits per color.
    pub open spec fn same_format(&self, other: &Image) -> bool {
        &&& self.tile_length_spec() == other.tile_length_spec()
        &&& self.colors_per_tile_spec() == other.colors_per_tile_spec()
        &&& self.bits_per_color_spec() == other.bits_per_color_spec()
    }

    /// The width of the rectangle that `blit` copies from `src`: that of `src_rect`, cut to the
    /// bounds of the source and of this image.
    pub open spec fn blit_width(&self, src: &Image, src_rect: Rectangle, dest_x: u32) -> u32 {
        fit_span(dest_x, fit_span(src_rect.x, src_rect.width, src.width_spec()), self.width_spec())
    }

    /// The height of the rectangle that `blit` copies from `src`: that of `src_rect`, cut to the
    /// bounds of the source and of this image.
    pub open spec fn blit_height(&self, src: &Image, src_rect: Rectangle, dest_y: u32) -> u32 {
        fit_span(dest_y, fit_span(src_rect.y, src_rect.height, src.height_spec() as u32),
            self.height_spec() as u32)
    }

    /// Copies the cells of `src_rect` in `src` to this image, with their top-left corner at column
    /// `dest_x` and row `dest_y`. The rectangle is cut to the bounds of both images. Fails,
    /// changing nothing, if the images store their tiles differently.
    pub fn blit(&mut self, src: &Image, src_rect: Rectangle, dest_x: u32, dest_y: u32) -> (r: Result<(), ()>)
        requires
            old(self).wf(),
            src.wf(),
            old(self).row_bytes() > 0,
            src.row_bytes() > 0,
        ensures
            !old(self).same_format(src) ==> r is Err && *final(self) == *old(self),
            old(self).same_format(src) ==> {
                let w = old(self).blit_width(src, src_rect, dest_x);
                let h = old(self).blit_height(src, src_rect, dest_y);
                &&& r is Ok
                &&& final(self).wf()
                &&& final(self).tile_length_spec() == old(self).tile_length_spec()
                &&& final(self).colors_per_tile_spec() == old(self).colors_per_tile_spec()
                &&& final(self).bits_per_color_spec() == old(self).bits_per_color_spec()
                &&& final(self).width_spec() == old(self).width_spec()
                &&& final(self).drawing_colors_spec() == old(self).drawing_colors_spec()
                &&& final(self).resource_id_spec() == old(self).resource_id_spec()
                &&& old(self).copied(old(self).backing_spec(), final(self).backing_spec(), src.backing_spec(),
                        src.width_spec() as int, src_rect.x as int, src_rect.y as int, dest_x as int, dest_y as int,
                        w as int, h as int)
            },
    {
        if src.tile_length != self.tile_length || src.colors_per_tile != self.colors_per_tile
            || src.bits_per_color != self.bits_per_color {
            return Err(());
        }
        let bpt = self.tile_bytes_exec();
        let src_x = src_rect.x;
        let src_y = src_rect.y;
        let src_width = src.width;
        assert(bpt > 0 && src_width > 0) by (nonlinear_arith)
            requires bpt * src_width > 0, bpt >= 0, src_width >= 0;
        assert(bpt * src_width <= 1024 * 4096) by (nonlinear_arith)
            requires bpt <= 1024, src_width <= 4096;
        let src_height = src.height();
        let dest_width = self.width;
        assert(dest_width > 0) by (nonlinear_arith)
            requires bpt * dest_width > 0, bpt >= 0, dest_width >= 0;
        assert(bpt * dest_width <= 1024 * 4096) by (nonlinear_arith)
            requires bpt <= 1024, dest_width <= 4096;
        let dest_height = self.height();
        let width = fit_span_exec(dest_x, fit_span_exec(src_x, src_rect.width, src_width), dest_width);
        let height = fit_span_exec(dest_y, fit_span_exec(src_y, src_rect.height, src_height), dest_height);
        if width == 0 || height == 0 {
            return Ok(());
        }
        let ghost before = self.backing@;
        let ghost sb = src.backing@;
        let src_len = src.backing.len();
        assert(before.len() == bpt * dest_width * dest_height) by (nonlinear_arith)
            requires before.len() == (bpt * dest_width) * dest_height;
        assert(sb.len() == bpt * src_width * src_height) by (nonlinear_arith)
            requires sb.len() == (bpt * src_width) * src_height;
        let ghost dw: int = dest_width as int;
        let ghost sw: int = src_width as int;
        let ghost b: int = bpt as int;
        let mut dy: u32 = 0;
        while dy < height
            invariant
                self.wf(),
                self.tile_length == old(self).tile_length,
                self.colors_per_tile == old(self).colors_per_tile,
                self.bits_per_color == old(self).bits_per_color,
                self.bytes_per_color == old(self).bytes_per_color,
                self.width == old(self).width,
                self.drawing_colors@ == old(self).drawing_colors@,
                self.resource_id == old(self).resource_id,
                before == old(self).backing@,
                sb == src.backing@,
                dest_width == self.width,
                dw == dest_width,
                sw == src_width,
                b == bpt,
                bpt == old(self).tile_bytes(),
                bpt == src.tile_bytes(),
                bpt > 0,
                dest_width > 0,
                src_width == src.width_spec(),
                dest_height == old(self).height_spec(),
                src_height == src.height_spec(),
                dest_width <= 4096,
                src_width <= 4096,
                dest_height <= 4096,
                src_height <= 4096,
                src_x + width <= src_width,
                src_y + height <= src_height,
                dest_x + width <= dest_width,
                dest_y + height <= dest_height,
                before.len() == bpt * dest_width * dest_height,
                sb.len() == bpt * src_width * src_height,
                sb.len() == src_len,
                dy <= height,
                self.backing@.len() == before.len(),
                forall|k: int| 0 <= k < before.len() ==> #[trigger] self.backing@[k] ==
                    if in_cells(old(self).cell_column(k), old(self).cell_row(k), dest_x as int, dest_y as int,
                        width as int, dy as int) {
                        sb[((old(self).cell_column(k) - dest_x + src_x) + (old(self).cell_row(k) - dest_y + src_y) * sw)
                            * b + k % b]
                    } else {
                        before[k]
                    },
            decreases height - dy,
        {
            let mut dx: u32 = 0;
            while dx < width
                invariant
                    self.wf(),
                    self.tile_length == old(self).tile_length,
                    self.colors_per_tile == old(self).colors_per_tile,
                    self.bits_per_color == old(self).bits_per_color,
                    self.bytes_per_color == old(self).bytes_per_color,
                    self.width == old(self).width,
                    self.drawing_colors@ == old(self).drawing_colors@,
                    self.resource_id == old(self).resource_id,
                    before == old(self).backing@,
                    sb == src.backing@,
                    dest_width == self.width,
                    dw == dest_width,
                    sw == src_width,
                    b == bpt,
                    bpt == old(self).tile_bytes(),
                    bpt == src.tile_bytes(),
                    bpt > 0,
                    dest_width > 0,
                    src_width == src.width_spec(),
                    dest_height == old(self).height_spec(),
                    src_height == src.height_spec(),
                    dest_width <= 4096,
                    src_width <= 4096,
                    dest_height <= 4096,
                    src_height <= 4096,
                    src_x + width <= src_width,
                    src_y + height <= src_height,
                    dest_x + width <= dest_width,
                    dest_y + height <= dest_height,
                    before.len() == bpt * dest_width * dest_height,
                    sb.len() == bpt * src_width * src_height,
                    sb.len() == src_len,
                    dy < height,
                    dx <= width,
                    self.backing@.len() == before.len(),
                    forall|k: int| 0 <= k < before.len() ==> #[trigger] self.backing@[k] ==
                        if in_cells(old(self).cell_column(k), old(self).cell_row(k), dest_x as int, dest_y as int,
                            width as int, dy as int)
                            || (old(self).cell_row(k) == dest_y + dy && dest_x <= old(self).cell_column(k) < dest_x + dx) {
                            sb[((old(self).cell_column(k) - dest_x + src_x) + (old(self).cell_row(k) - dest_y + src_y) * sw)
                                * b + k % b]
                        } else {
                            before[k]
                        },
                decreases width - dx,
            {
                let ghost cx: int = (dest_x + dx) as int;
                let ghost cy: int = (dest_y + dy) as int;
                proof {
                    assert((dest_y + dy) * dest_width <= 4096 * 4096) by (nonlinear_arith)
                        requires dest_y + dy < dest_height, dest_height <= 4096, dest_width <= 4096;
                    assert((src_y + dy) * src_width <= 4096 * 4096) by (nonlinear_arith)
                        requires src_y + dy < src_height, src_height <= 4096, src_width <= 4096;
                    assert((dest_x + dx) + (dest_y + dy) * dest_width <= dest_height * dest_width - 1) by (nonlinear_arith)
                        requires dest_x + dx < dest_width, dest_y + dy < dest_height;
                    assert(((dest_x + dx) + (dest_y + dy) * dest_width) * bpt + bpt <= before.len()) by (nonlinear_arith)
                        requires (dest_x + dx) + (dest_y + dy) * dest_width <= dest_height * dest_width - 1,
                            before.len() == bpt * dest_width * dest_height, bpt > 0;
                    assert((src_x + dx) + (src_y + dy) * src_width <= src_height * src_width - 1) by (nonlinear_arith)
                        requires src_x + dx < src_width, src_y + dy < src_height;
                    assert(((src_x + dx) + (src_y + dy) * src_width) * bpt + bpt <= sb.len()) by (nonlinear_arith)
                        requires (src_x + dx) + (src_y + dy) * src_width <= src_height * src_width - 1,
                            sb.len() == bpt * src_width * src_height, bpt > 0;
                }
                let dest_start = ((dest_x + dx) + (dest_y + dy) * dest_width) as usize * bpt;
                let src_start = ((src_x + dx) + (src_y + dy) * src_width) as usize * bpt;
                let mut j: usize = 0;
                while j < bpt
                    invariant
                        self.wf(),
                        self.tile_length == old(self).tile_length,
                        self.colors_per_tile == old(self).colors_per_tile,
                        self.bits_per_color == old(self).bits_per_color,
                        self.bytes_per_color == old(self).bytes_per_color,
                        self.width == old(self).width,
                        self.drawing_colors@ == old(self).drawing_colors@,
                        self.resource_id == old(self).resource_id,
                        before == old(self).backing@,
                        sb == src.backing@,
                        dw == dest_width,
                        sw == src_width,
                        b == bpt,
                        dest_width == old(self).width,
                        bpt == old(self).tile_bytes(),
                        bpt > 0,
                        dest_width > 0,
                        cx == dest_x + dx,
                        cy == dest_y + dy,
                        dest_x + dx < dest_width,
                        dest_start == (cx + cy * dw) * b,
                        src_start == ((src_x + dx) + (src_y + dy) * sw) * b,
                        dest_start + bpt <= before.len(),
                        src_start + bpt <= sb.len(),
                        sb.len() == src_len,
                        j <= bpt,
                        self.backing@.len() == before.len(),
                        forall|k: int| 0 <= k < before.len() ==> #[trigger] self.backing@[k] ==
                            if in_cells(old(self).cell_column(k), old(self).cell_row(k), dest_x as int, dest_y as int,
                                width as int, dy as int)
                                || (old(self).cell_row(k) == cy && dest_x <= old(self).cell_column(k) < cx)
                                || (old(self).cell_row(k) == cy && old(self).cell_column(k) == cx && k % b < j) {
                                sb[((old(self).cell_column(k) - dest_x + src_x) + (old(self).cell_row(k) - dest_y + src_y) * sw)
                                    * b + k % b]
                            } else {
                                before[k]
                            },
                    decreases bpt - j,
                {
                    let ghost prev = self.backing@;
                    let byte = src.backing[src_start + j];
                    self.backing.set(dest_start + j, byte);
                    proof {
                        lemma_cell_position(cx, cy, dw, b, j as int);
                        assert forall|k: int| 0 <= k < before.len() implies #[trigger] self.backing@[k] ==
                            if in_cells(old(self).cell_column(k), old(self).cell_row(k), dest_x as int, dest_y as int,
                                width as int, dy as int)
                                || (old(self).cell_row(k) == cy && dest_x <= old(self).cell_column(k) < cx)
                                || (old(self).cell_row(k) == cy && old(self).cell_column(k) == cx && k % b < j + 1) {
                                sb[((old(self).cell_column(k) - dest_x + src_x) + (old(self).cell_row(k) - dest_y + src_y) * sw)
                                    * b + k % b]
                            } else {
                                before[k]
                            } by {
                            if k != dest_start + j {
                                assert(self.backing@[k] == prev[k]);
                                lemma_cell_decompose(k, dw, b);
                                if old(self).cell_row(k) == cy && old(self).cell_column(k) == cx && k % b == j {
                                    assert(k == (cx + cy * dw) * b + j);
                                }
                            }
                        }
                    }
                    j += 1;
                }
                dx += 1;
                proof {
                    assert forall|k: int| 0 <= k < before.len() implies #[trigger] self.backing@[k] ==
                        if in_cells(old(self).cell_column(k), old(self).cell_row(k), dest_x as int, dest_y as int,
                            width as int, dy as int)
                            || (old(self).cell_row(k) == dest_y + dy && dest_x <= old(self).cell_column(k) < dest_x + dx) {
                            sb[((old(self).cell_column(k) - dest_x + src_x) + (old(self).cell_row(k) - dest_y + src_y) * sw)
                                * b + k % b]
                        } else {
                            before[k]
                        } by {
                        lemma_cell_decompose(k, dw, b);
                    }
                }
            }
            dy += 1;
        }
        Ok(())
    }

    /// The width of the rectangle that `move_rect` moves: that of `src_rect`, cut so that it fits
    /// in the image from both the source and the destination corner.
    pub open spec fn move_width(&self, src_rect: Rectangle, dest_x: u32) -> u32 {
        fit_span(dest_x, fit_span(src_rect.x, src_rect.width, self.width_spec()), self.width_spec())
    }

    /// The height of the rectangle that `move_rect` moves: that of `src_rect`, cut so that it fits
    /// in the image from both the source and the destination corner.
    pub open spec fn move_height(&self, src_rect: Rectangle, dest_y: u32) -> u32 {
        let height = self.height_spec() as u32;
        fit_span(dest_y, fit_span(src_rect.y, src_rect.height, height), height)
    }

    /// Moves the cells of `src_rect` to the rectangle of the same size with its top-left corner at
    /// column `dest_x` and row `dest_y`, correctly even where the two overlap. The rectangle is cut
    /// so that both it and its destination lie in the image.
    pub fn move_rect(&mut self, src_rect: Rectangle, dest_x: u32, dest_y: u32)
        requires
            old(self).wf(),
            old(self).row_bytes() > 0,
        ensures
            final(self).wf(),
            final(self).tile_length_spec() == old(self).tile_length_spec(),
            final(self).colors_per_tile_spec() == old(self).colors_per_tile_spec(),
            final(self).bits_per_color_spec() == old(self).bits_per_color_spec(),
            final(self).width_spec() == old(self).width_spec(),
            final(self).drawing_colors_spec() == old(self).drawing_colors_spec(),
            final(self).resource_id_spec() == old(self).resource_id_spec(),
            old(self).copied(old(self).backing_spec(), final(self).backing_spec(), old(self).backing_spec(),
                old(self).width_spec() as int, src_rect.x as int, src_rect.y as int, dest_x as int, dest_y as int,
                old(self).move_width(src_rect, dest_x) as int, old(self).move_height(src_rect, dest_y) as int),
    {
        let self_width = self.width;
        let bpt = self.tile_bytes_exec();
        assert(bpt > 0 && self_width > 0) by (nonlinear_arith)
            requires bpt * self_width > 0, bpt >= 0, self_width >= 0;
        assert(bpt * self_width <= 1024 * 4096) by (nonlinear_arith)
            requires bpt <= 1024, self_width <= 4096;
        let self_height = self.height();
        let src_x = src_rect.x;
        let src_y = src_rect.y;
        let width = fit_span_exec(dest_x, fit_span_exec(src_x, src_rect.width, self_width), self_width);
        let height = fit_span_exec(dest_y, fit_span_exec(src_y, src_rect.height, self_height), self_height);
        if width == 0 || height == 0 {
            proof {
                assert(self.backing@ =~= old(self).backing@);
            }
            return;
        }
        let ghost before = self.backing@;
        let ghost wd: int = self_width as int;
        let ghost b: int = bpt as int;
        assert(before.len() == bpt * self_width * self_height) by (nonlinear_arith)
            requires before.len() == (bpt * self_width) * self_height;
        assert(dest_y * self_width <= 4096 * 4096 && src_y * self_width <= 4096 * 4096) by (nonlinear_arith)
            requires dest_y <= self_height, src_y <= self_height, self_height <= 4096, self_width <= 4096;
        if dest_x + dest_y * self_width <= src_x + src_y * self_width {
            // The destination starts no later than the source: copy forwards.
            proof {
                if src_y < dest_y {
                    assert(src_x + src_y * self_width < dest_x + dest_y * self_width) by (nonlinear_arith)
                        requires src_x < self_width, src_y < dest_y;
                }
            }
            let mut dy: u32 = 0;
            while dy < height
                invariant
                    self.wf(),
                    self.tile_length == old(self).tile_length,
                    self.colors_per_tile == old(self).colors_per_tile,
                    self.bits_per_color == old(self).bits_per_color,
                    self.bytes_per_color == old(self).bytes_per_color,
                    self.width == old(self).width,
                    self.drawing_colors@ == old(self).drawing_colors@,
                    self.resource_id == old(self).resource_id,
                    before == old(self).backing@,
                    self_width == self.width,
                    wd == self_width,
                    b == bpt,
                    bpt == old(self).tile_bytes(),
                    bpt > 0,
                    self_width > 0,
                    self_height == old(self).height_spec(),
                    self_width <= 4096,
                    self_height <= 4096,
                    src_x + width <= self_width,
                    src_y + height <= self_height,
                    dest_x + width <= self_width,
                    dest_y + height <= self_height,
                    src_y > dest_y || (src_y == dest_y && src_x >= dest_x),
                    before.len() == bpt * self_width * self_height,
                    dy <= height,
                    self.backing@.len() == before.len(),
                    forall|k: int| 0 <= k < before.len() ==> #[trigger] self.backing@[k] ==
                        if in_cells(old(self).cell_column(k), old(self).cell_row(k), dest_x as int, dest_y as int,
                            width as int, dy as int) {
                            before[((old(self).cell_column(k) - dest_x + src_x) + (old(self).cell_row(k) - dest_y + src_y) * wd)
                                * b + k % b]
                        } else {
                            before[k]
                        },
                decreases height - dy,
            {
                let mut dx: u32 = 0;
                while dx < width
                    invariant
                        self.wf(),
                        self.tile_length == old(self).tile_length,
                        self.colors_per_tile == old(self).colors_per_tile,
                        self.bits_per_color == old(self).bits_per_color,
                        self.bytes_per_color == old(self).bytes_per_color,
                        self.width == old(self).width,
                        self.drawing_colors@ == old(self).drawing_colors@,
                        self.resource_id == old(self).resource_id,
                        before == old(self).backing@,
                        self_width == self.width,
                        wd == self_width,
                        b == bpt,
                        bpt == old(self).tile_bytes(),
                        bpt > 0,
                        self_width > 0,
                        self_height == old(self).height_spec(),
                        self_width <= 4096,
                        self_height <= 4096,
                        src_x + width <= self_width,
                        src_y + height <= self_height,
                        dest_x + width <= self_width,
                        dest_y + height <= self_height,
                        src_y > dest_y || (src_y == dest_y && src_x >= dest_x),
                        before.len() == bpt * self_width * self_height,
                        dy < height,
                        dx <= width,
                        self.backing@.len() == before.len(),
                        forall|k: int| 0 <= k < before.len() ==> #[trigger] self.backing@[k] ==
                            if in_cells(old(self).cell_column(k), old(self).cell_row(k), dest_x as int, dest_y as int,
                                width as int, dy as int)
                                || (old(self).cell_row(k) == dest_y + dy && dest_x <= old(self).cell_column(k) < dest_x + dx) {
                                before[((old(self).cell_column(k) - dest_x + src_x) + (old(self).cell_row(k) - dest_y + src_y) * wd)
                                    * b + k % b]
                            } else {
                                before[k]
                            },
                    decreases width - dx,
                {
                    let ghost cx: int = (dest_x + dx) as int;
                    let ghost cy: int = (dest_y + dy) as int;
                    let ghost sx: int = (src_x + dx) as int;
                    let ghost sy: int = (src_y + dy) as int;
                    proof {
                        lemma_move_cell_bounds(dest_x as int + dx, dest_y as int + dy, wd, self_height as int, b,
                            before.len() as int);
                        lemma_move_cell_bounds(src_x as int + dx, src_y as int + dy, wd, self_height as int, b,
                            before.len() as int);
                    }
                    let dest_start = ((dest_x + dx) + (dest_y + dy) * self_width) as usize * bpt;
                    let src_start = ((src_x + dx) + (src_y + dy) * self_width) as usize * bpt;
                    let mut j: usize = 0;
                    while j < bpt
                        invariant
                            self.wf(),
                            self.tile_length == old(self).tile_length,
                            self.colors_per_tile == old(self).colors_per_tile,
                            self.bits_per_color == old(self).bits_per_color,
                            self.bytes_per_color == old(self).bytes_per_color,
                            self.width == old(self).width,
                            self.drawing_colors@ == old(self).drawing_colors@,
                            self.resource_id == old(self).resource_id,
                            before == old(self).backing@,
                            wd == self_width,
                            b == bpt,
                            self_width == old(self).width,
                            bpt == old(self).tile_bytes(),
                            bpt > 0,
                            self_width > 0,
                            cx == dest_x + dx,
                            cy == dest_y + dy,
                            sx == src_x + dx,
                            sy == src_y + dy,
                            dest_x + dx < self_width,
                            src_x + dx < self_width,
                            src_y > dest_y || (src_y == dest_y && src_x >= dest_x),
                            dest_start == (cx + cy * wd) * b,
                            src_start == (sx + sy * wd) * b,
                            dest_start + bpt <= before.len(),
                            src_start + bpt <= before.len(),
                            j <= bpt,
                            self.backing@.len() == before.len(),
                            forall|k: int| 0 <= k < before.len() ==> #[trigger] self.backing@[k] ==
                                if in_cells(old(self).cell_column(k), old(self).cell_row(k), dest_x as int, dest_y as int,
                                    width as int, dy as int)
                                    || (old(self).cell_row(k) == cy && dest_x <= old(self).cell_column(k) < cx)
                                    || (old(self).cell_row(k) == cy && old(self).cell_column(k) == cx && k % b < j) {
                                    before[((old(self).cell_column(k) - dest_x + src_x) + (old(self).cell_row(k) - dest_y + src_y) * wd)
                                        * b + k % b]
                                } else {
                                    before[k]
                                },
                        decreases bpt - j,
                    {
                        proof {
                            lemma_cell_position(sx, sy, wd, b, j as int);
                            lemma_cell_position(cx, cy, wd, b, j as int);
                            assert(self.backing@[src_start + j] == before[src_start + j]);
                        }
                        let byte = self.backing[src_start + j];
                        let ghost prev = self.backing@;
                        self.backing.set(dest_start + j, byte);
                        proof {
                            assert forall|k: int| 0 <= k < before.len() implies #[trigger] self.backing@[k] ==
                                if in_cells(old(self).cell_column(k), old(self).cell_row(k), dest_x as int, dest_y as int,
                                    width as int, dy as int)
                                    || (old(self).cell_row(k) == cy && dest_x <= old(self).cell_column(k) < cx)
                                    || (old(self).cell_row(k) == cy && old(self).cell_column(k) == cx && k % b < j + 1) {
                                    before[((old(self).cell_column(k) - dest_x + src_x) + (old(self).cell_row(k) - dest_y + src_y) * wd)
                                        * b + k % b]
                                } else {
                                    before[k]
                                } by {
                                if k != dest_start + j {
                                    assert(self.backing@[k] == prev[k]);
                                    lemma_cell_decompose(k, wd, b);
                                    if old(self).cell_row(k) == cy && old(self).cell_column(k) == cx && k % b == j {
                                        assert(k == (cx + cy * wd) * b + j);
                                    }
                                }
                            }
                        }
                        j += 1;
                    }
                    dx += 1;
                    proof {
                        assert forall|k: int| 0 <= k < before.len() implies #[trigger] self.backing@[k] ==
                            if in_cells(old(self).cell_column(k), old(self).cell_row(k), dest_x as int, dest_y as int,
                                width as int, dy as int)
                                || (old(self).cell_row(k) == dest_y + dy && dest_x <= old(self).cell_column(k) < dest_x + dx) {
                                before[((old(self).cell_column(k) - dest_x + src_x) + (old(self).cell_row(k) - dest_y + src_y) * wd)
                                    * b + k % b]
                            } else {
                                before[k]
                            } by {
                            lemma_cell_decompose(k, wd, b);
                        }
                    }
                }
                dy += 1;
            }
        } else {
            // The destination starts after the source: copy backwards, from the bottom-right.
            proof {
                if dest_y < src_y {
                    assert(dest_x + dest_y * self_width < src_x + src_y * self_width) by (nonlinear_arith)
                        requires dest_x < self_width, dest_y < src_y;
                }
            }
            self.move_cells_backwards(src_x, src_y, dest_x, dest_y, width, height, bpt);
        }
    }

    // Moves the `width` by `height` cells from (`src_x`, `src_y`) to (`dest_x`, `dest_y`), which
    // starts after the source, from the bottom-right cell backwards, so that no source cell is
    // overwritten before it is read.
    fn move_cells_backwards(
        &mut self,
        src_x: u32,
        src_y: u32,
        dest_x: u32,
        dest_y: u32,
        width: u32,
        height: u32,
        bpt: usize,
    )
        requires
            old(self).wf(),
            old(self).row_bytes() > 0,
            bpt == old(self).tile_bytes(),
            bpt > 0,
            old(self).width_spec() > 0,
            src_x + width <= old(self).width_spec(),
            src_y + height <= old(self).height_spec(),
            dest_x + width <= old(self).width_spec(),
            dest_y + height <= old(self).height_spec(),
            src_y < dest_y || (src_y == dest_y && src_x < dest_x),
        ensures
            final(self).wf(),
            final(self).tile_length_spec() == old(self).tile_length_spec(),
            final(self).colors_per_tile_spec() == old(self).colors_per_tile_spec(),
            final(self).bits_per_color_spec() == old(self).bits_per_color_spec(),
            final(self).width_spec() == old(self).width_spec(),
            final(self).drawing_colors_spec() == old(self).drawing_colors_spec(),
            final(self).resource_id_spec() == old(self).resource_id_spec(),
            old(self).copied(old(self).backing_spec(), final(self).backing_spec(), old(self).backing_spec(),
                old(self).width_spec() as int, src_x as int, src_y as int, dest_x as int, dest_y as int,
                width as int, height as int),
    {
        let self_width = self.width;
        let ghost self_height = old(self).height_spec();
        let ghost before = self.backing@;
        let ghost wd: int = self_width as int;
        let ghost b: int = bpt as int;
        assert(before.len() == (bpt * self_width) * self_height);
        assert(before.len() == bpt * self_width * self_height) by (nonlinear_arith)
            requires before.len() == (bpt * self_width) * self_height;
        let mut dy: u32 = height;
        while dy > 0
            invariant
                self.wf(),
                self.tile_length == old(self).tile_length,
                self.colors_per_tile == old(self).colors_per_tile,
                self.bits_per_color == old(self).bits_per_color,
                self.bytes_per_color == old(self).bytes_per_color,
                self.width == old(self).width,
                self.drawing_colors@ == old(self).drawing_colors@,
                self.resource_id == old(self).resource_id,
                before == old(self).backing@,
                self_width == self.width,
                wd == self_width,
                b == bpt,
                bpt == old(self).tile_bytes(),
                bpt > 0,
                self_width > 0,
                self_height == old(self).height_spec(),
                self_width <= 4096,
                self_height <= 4096,
                src_x + width <= self_width,
                src_y + height <= self_height,
                dest_x + width <= self_width,
                dest_y + height <= self_height,
                src_y < dest_y || (src_y == dest_y && src_x < dest_x),
                before.len() == bpt * self_width * self_height,
                dy <= height,
                self.backing@.len() == before.len(),
                forall|k: int| 0 <= k < before.len() ==> #[trigger] self.backing@[k] ==
                    if in_cells(old(self).cell_column(k), old(self).cell_row(k), dest_x as int, dest_y + dy,
                        width as int, height - dy) {
                        before[((old(self).cell_column(k) - dest_x + src_x) + (old(self).cell_row(k) - dest_y + src_y) * wd)
                            * b + k % b]
                    } else {
                        before[k]
                    },
            decreases dy,
        {
            dy -= 1;
            let mut dx: u32 = width;
            while dx > 0
                invariant
                    self.wf(),
                    self.tile_length == old(self).tile_length,
                    self.colors_per_tile == old(self).colors_per_tile,
                    self.bits_per_color == old(self).bits_per_color,
                    self.bytes_per_color == old(self).bytes_per_color,
                    self.width == old(self).width,
                    self.drawing_colors@ == old(self).drawing_colors@,
                    self.resource_id == old(self).resource_id,
                    before == old(self).backing@,
                    self_width == self.width,
                    wd == self_width,
                    b == bpt,
                    bpt == old(self).tile_bytes(),
                    bpt > 0,
                    self_width > 0,
                    self_height == old(self).height_spec(),
                    self_width <= 4096,
                    self_height <= 4096,
                    src_x + width <= self_width,
                    src_y + height <= self_height,
                    dest_x + width <= self_width,
                    dest_y + height <= self_height,
                    src_y < dest_y || (src_y == dest_y && src_x < dest_x),
                    before.len() == bpt * self_width * self_height,
                    dy < height,
                    dx <= width,
                    self.backing@.len() == before.len(),
                    forall|k: int| 0 <= k < before.len() ==> #[trigger] self.backing@[k] ==
                        if in_cells(old(self).cell_column(k), old(self).cell_row(k), dest_x as int, dest_y + dy + 1,
                            width as int, height - dy - 1)
                            || (old(self).cell_row(k) == dest_y + dy && dest_x + dx <= old(self).cell_column(k) < dest_x + width) {
                            before[((old(self).cell_column(k) - dest_x + src_x) + (old(self).cell_row(k) - dest_y + src_y) * wd)
                                * b + k % b]
                        } else {
                            before[k]
                        },
                decreases dx,
            {
                dx -= 1;
                let ghost cx: int = (dest_x + dx) as int;
                let ghost cy: int = (dest_y + dy) as int;
                let ghost sx: int = (src_x + dx) as int;
                let ghost sy: int = (src_y + dy) as int;
                proof {
                    lemma_move_cell_bounds(dest_x as int + dx, dest_y as int + dy, wd, self_height, b,
                        before.len() as int);
                    lemma_move_cell_bounds(src_x as int + dx, src_y as int + dy, wd, self_height, b,
                        before.len() as int);
                }
                let dest_start = ((dest_x + dx) + (dest_y + dy) * self_width) as usize * bpt;
                let src_start = ((src_x + dx) + (src_y + dy) * self_width) as usize * bpt;
                let mut j: usize = 0;
                while j < bpt
                    invariant
                        self.wf(),
                        self.tile_length == old(self).tile_length,
                        self.colors_per_tile == old(self).colors_per_tile,
                        self.bits_per_color == old(self).bits_per_color,
                        self.bytes_per_color == old(self).bytes_per_color,
                        self.width == old(self).width,
                        self.drawing_colors@ == old(self).drawing_colors@,
                        self.resource_id == old(self).resource_id,
                        before == old(self).backing@,
                        wd == self_width,
                        b == bpt,
                        self_width == old(self).width,
                        bpt == old(self).tile_bytes(),
                        bpt > 0,
                        self_width > 0,
                        cx == dest_x + dx,
                        cy == dest_y + dy,
                        sx == src_x + dx,
                        sy == src_y + dy,
                        dest_x + dx < self_width,
                        src_x + dx < self_width,
                        dx < width,
                        src_y < dest_y || (src_y == dest_y && src_x < dest_x),
                        dest_start == (cx + cy * wd) * b,
                        src_start == (sx + sy * wd) * b,
                        dest_start + bpt <= before.len(),
                        src_start + bpt <= before.len(),
                        j <= bpt,
                        self.backing@.len() == before.len(),
                        forall|k: int| 0 <= k < before.len() ==> #[trigger] self.backing@[k] ==
                            if in_cells(old(self).cell_column(k), old(self).cell_row(k), dest_x as int, dest_y + dy + 1,
                                width as int, height - dy - 1)
                                || (old(self).cell_row(k) == cy && cx < old(self).cell_column(k) < dest_x + width)
                                || (old(self).cell_row(k) == cy && old(self).cell_column(k) == cx && k % b < j) {
                                before[((old(self).cell_column(k) - dest_x + src_x) + (old(self).cell_row(k) - dest_y + src_y) * wd)
                                    * b + k % b]
                            } else {
                                before[k]
                            },
                    decreases bpt - j,
                {
                    proof {
                        lemma_cell_position(sx, sy, wd, b, j as int);
                        lemma_cell_position(cx, cy, wd, b, j as int);
                        assert(self.backing@[src_start + j] == before[src_start + j]);
                    }
                    let byte = self.backing[src_start + j];
                    let ghost prev = self.backing@;
                    self.backing.set(dest_start + j, byte);
                    proof {
                        assert forall|k: int| 0 <= k < before.len() implies #[trigger] self.backing@[k] ==
                            if in_cells(old(self).cell_column(k), old(self).cell_row(k), dest_x as int, dest_y + dy + 1,
                                width as int, height - dy - 1)
                                || (old(self).cell_row(k) == cy && cx < old(self).cell_column(k) < dest_x + width)
                                || (old(self).cell_row(k) == cy && old(self).cell_column(k) == cx && k % b < j + 1) {
                                before[((old(self).cell_column(k) - dest_x + src_x) + (old(self).cell_row(k) - dest_y + src_y) * wd)
                                    * b + k % b]
                            } else {
                                before[k]
                            } by {
                            if k != dest_start + j {
                                assert(self.backing@[k] == prev[k]);
                                lemma_cell_decompose(k, wd, b);
                                if old(self).cell_row(k) == cy && old(self).cell_column(k) == cx && k % b == j {
                                    assert(k == (cx + cy * wd) * b + j);
                                }
                            }
                        }
                    }
                    j += 1;
                }
                proof {
                    assert forall|k: int| 0 <= k < before.len() implies #[trigger] self.backing@[k] ==
                        if in_cells(old(self).cell_column(k), old(self).cell_row(k), dest_x as int, dest_y + dy + 1,
                            width as int, height - dy - 1)
                            || (old(self).cell_row(k) == dest_y + dy && dest_x + dx <= old(self).cell_column(k) < dest_x + width) {
                            before[((old(self).cell_column(k) - dest_x + src_x) + (old(self).cell_row(k) - dest_y + src_y) * wd)
                                * b + k % b]
                        } else {
                            before[k]
                        } by {
                        lemma_cell_decompose(k, wd, b);
                    }
                }
            }
            proof {
                assert forall|k: int| 0 <= k < before.len() implies #[trigger] self.backing@[k] ==
                    if in_cells(old(self).cell_column(k), old(self).cell_row(k), dest_x as int, dest_y + dy,
                        width as int, height - dy) {
                        before[((old(self).cell_column(k) - dest_x + src_x) + (old(self).cell_row(k) - dest_y + src_y) * wd)
                            * b + k % b]
                    } else {
                        before[k]
                    } by {
                    lemma_cell_decompose(k, wd, b);
                }
            }
        }
    }

    // Reads the number stored least significant byte first in the `n` bytes from `start`.
    fn read_le(&self, start: usize, n: usize) -> (r: u32)
        requires
            n <= 4,
            start + n <= self.backing_spec().len(),
        ensures
            r == le_bits(self.backing_spec().subrange(start as int, start + n)),
    {
        let ghost b = self.backing@;
        let mut v: u32 = 0;
        let mut i: usize = n;
        proof {
            assert(b.subrange(start + n, start + n) =~= Seq::<u8>::empty());
            assert(b.len() == self.backing.len());
        }
        while i > 0
            invariant
                i <= n,
                n <= 4,
                start + n <= b.len(),
                b == self.backing@,
                v == le_bits(b.subrange(start + i, start + n)),
                v <= byte_span_max((n - i) as nat),
                start + n <= usize::MAX,
            decreases i,
        {
            i -= 1;
            proof {
                let t = b.subrange(start + i, start + n);
                assert(t.drop_first() =~= b.subrange(start + i + 1, start + n));
                assert(t[0] == b[start + i]);
            }
            let byte = self.backing[start + i];
            assert(v <= 0xffffffu32 ==> v << 8u32 <= 0xffffff00u32) by (bit_vector);
            assert(v <= 0xffu32 ==> (byte as u32) | (v << 8u32) <= 0xffffu32) by (bit_vector);
            assert(v <= 0xffffu32 ==> (byte as u32) | (v << 8u32) <= 0xffffffu32) by (bit_vector);
            assert(v == 0 ==> (byte as u32) | (v << 8u32) <= 0xffu32) by (bit_vector);
            v = (byte as u32) | (v << 8u32);
        }
        v
    }

    /// The tile index and colors of the cell in column `x` and row `y`, if the image has such a
    /// cell: the tile index is read from the cell's first `tile_length` bytes and each color from
    /// the following groups of bytes per color, least significant byte first, keeping only the low
    /// bits per color.
    pub fn tile(&self, x: u32, y: u32) -> (r: Option<(Tile, Vec<Color>)>)
        requires
            self.wf(),
            self.row_bytes() > 0,
        ensures
            !(x < self.width_spec() && y < self.height_spec()) ==> r is None,
            x < self.width_spec() && y < self.height_spec() ==> r is Some && r.unwrap().0 == self.tile_spec(x, y).0
                && r.unwrap().1@ == self.tile_spec(x, y).1,
    {
        let self_width = self.width;
        let bpt = self.tile_bytes_exec();
        assert(bpt > 0 && self_width > 0) by (nonlinear_arith)
            requires bpt * self_width > 0, bpt >= 0, self_width >= 0;
        assert(bpt * self_width <= 1024 * 4096) by (nonlinear_arith)
            requires bpt <= 1024, self_width <= 4096;
        if !(x < self_width && y < self.height()) {
            return None;
        }
        let self_height = self.height();
        let ghost b = self.backing@;
        proof {
            assert(y * self_width <= 4096 * 4096) by (nonlinear_arith)
                requires y < self_height, self_height <= 4096, self_width <= 4096;
            assert(x + y * self_width <= (self_width - 1) + (self_height - 1) * self_width) by (nonlinear_arith)
                requires x < self_width, y < self_height;
            assert((self_width - 1) + (self_height - 1) * self_width == self_height * self_width - 1)
                by (nonlinear_arith);
            assert((x + y * self_width) * bpt + bpt <= b.len()) by (nonlinear_arith)
                requires x + y * self_width <= self_height * self_width - 1,
                    b.len() == bpt * self_width * self_height, bpt > 0;
        }
        let idx = (x + y * self_width) as usize * bpt;
        let tile_length = self.tile_length as usize;
        let bytes_per_color = self.bytes_per_color as usize;
        let colors_per_tile = self.colors_per_tile as usize;
        let tile = Tile(self.read_le(idx, tile_length));
        let ghost bits = self.bits_per_color;
        let mut colors: Vec<Color> = Vec::new();
        let mut i: usize = 0;
        while i < colors_per_tile
            invariant
                self.wf(),
                b == self.backing@,
                i <= colors_per_tile,
                colors_per_tile == self.colors_per_tile,
                bits <= 32,
                bits == self.bits_per_color,
                tile_length == self.tile_length,
                bytes_per_color == self.bytes_per_color,
                bytes_per_color <= 4,
                bpt == self.tile_bytes(),
                bpt == tile_length + colors_per_tile * bytes_per_color,
                idx + bpt <= b.len(),
                colors@ == Seq::new(i as nat, |j: int|
                    Color(le_bits(b.subrange(idx + tile_length + bytes_per_color * j,
                        idx + tile_length + bytes_per_color * j + bytes_per_color))
                        & (((1u64 << bits) - 1) as u32))),
            decreases colors_per_tile - i,
        {
            assert(bytes_per_color * i + bytes_per_color <= colors_per_tile * bytes_per_color) by (nonlinear_arith)
                requires i < colors_per_tile;
            let start = idx + tile_length + bytes_per_color * i;
            let value = self.read_le(start, bytes_per_color);
            assert((1u64 << bits) >= 1u64) by (bit_vector)
                requires bits <= 32;
            let mask = ((1u64 << self.bits_per_color) - 1) as u32;
            colors.push(Color(value & mask));
            i += 1;
            proof {
                assert(colors@ =~= Seq::new(i as nat, |j: int|
                    Color(le_bits(b.subrange(idx + tile_length + bytes_per_color * j,
                        idx + tile_length + bytes_per_color * j + bytes_per_color))
                        & (((1u64 << bits) - 1) as u32))));
            }
        }
        Some((tile, colors))
    }

    // Returns the bytes per tile.
    fn tile_bytes_exec(&self) -> (r: usize)
        requires
            self.wf(),
        ensures
            r == self.tile_bytes(),
            r <= 1024,
    {
        let bytes_per_color = self.bytes_per_color as usize;
        assert(self.colors_per_tile * bytes_per_color <= 255 * 4) by (nonlinear_arith)
            requires self.colors_per_tile <= 255, bytes_per_color <= 4;
        self.tile_length as usize + self.colors_per_tile as usize * bytes_per_color
    }

    // Returns the bytes of one cell drawn with `tile` and the current drawing colors.
    fn cell_pattern(&self, tile: Tile) -> (r: Vec<u8>)
        requires
            self.wf(),
        ensures
            r@ == cell_bytes(tile, self.drawing_colors_spec(), self.tile_length_spec() as int,
                self.bytes_per_color_spec() as int),
            r@.len() == self.tile_bytes(),
    {
        let tile_length = self.tile_length as usize;
        let bytes_per_color = self.bytes_per_color as usize;
        let colors_count = self.drawing_colors.len();
        let ghost pattern = cell_bytes(tile, self.drawing_colors@, tile_length as int, bytes_per_color as int);
        let mut out: Vec<u8> = Vec::new();
        let mut i: usize = 0;
        while i < tile_length
            invariant
                tile_length <= 4,
                i <= tile_length,
                out@ == pattern.take(i as int),
                pattern == cell_bytes(tile, self.drawing_colors@, tile_length as int, bytes_per_color as int),
            decreases tile_length - i,
        {
            out.push(((tile.0 >> (8 * (i as u32))) & 0xff) as u8);
            i += 1;
            proof {
                assert(out@ =~= pattern.take(i as int));
            }
        }
        let mut c: usize = 0;
        while c < colors_count
            invariant
                tile_length <= 4,
                bytes_per_color <= 4,
                colors_count == self.drawing_colors@.len(),
                colors_count <= 255,
                c <= colors_count,
                out@ == pattern.take(tile_length + c * bytes_per_color),
                pattern == cell_bytes(tile, self.drawing_colors@, tile_length as int, bytes_per_color as int),
            decreases colors_count - c,
        {
            let color = self.drawing_colors[c].0;
            let mut j: usize = 0;
            while j < bytes_per_color
                invariant
                    tile_length <= 4,
                    bytes_per_color <= 4,
                    colors_count == self.drawing_colors@.len(),
                    colors_count <= 255,
                    c < colors_count,
                    color == self.drawing_colors@[c as int].0,
                    j <= bytes_per_color,
                    out@ == pattern.take(tile_length + c * bytes_per_color + j),
                    pattern == cell_bytes(tile, self.drawing_colors@, tile_length as int, bytes_per_color as int),
                decreases bytes_per_color - j,
            {
                proof {
                    let n = tile_length + c * bytes_per_color + j;
                    assert(c * bytes_per_color + j < colors_count * bytes_per_color) by (nonlinear_arith)
                        requires c < colors_count, j < bytes_per_color;
                    vstd::arithmetic::div_mod::lemma_fundamental_div_mod_converse(
                        c * bytes_per_color + j, bytes_per_color as int, c as int, j as int);
                    assert(c * bytes_per_color + j == (c as int) * (bytes_per_color as int) + j);
                    assert(pattern[n] == byte_of(color, j as int));
                }
                out.push(((color >> (8 * (j as u32))) & 0xff) as u8);
                j += 1;
                proof {
                    assert(out@ =~= pattern.take(tile_length + c * bytes_per_color + j));
                }
            }
            c += 1;
            proof {
                assert(tile_length + (c - 1) * bytes_per_color + bytes_per_color == tile_length + c * bytes_per_color)
                    by (nonlinear_arith) requires c >= 1;
            }
        }
        proof {
            assert(out@ =~= pattern);
        }
        out
    }
}

/// After `blit` or `move_rect`, reading a copied cell gives what reading its source cell gave: the
/// tile index and colors travel with the cell. (For `move_rect`, the source is the image as it was
/// before the move.)
pub proof fn lemma_read_copied_cell(
    before: Image,
    after: Image,
    src: Image,
    src_x: int,
    src_y: int,
    dest_x: int,
    dest_y: int,
    w: int,
    h: int,
    x: u32,
    y: u32,
)
    requires
        before.wf(),
        after.wf(),
        src.wf(),
        before.row_bytes() > 0,
        src.row_bytes() > 0,
        before.same_format(&src),
        after.same_format(&before),
        after.width_spec() == before.width_spec(),
        before.copied(before.backing_spec(), after.backing_spec(), src.backing_spec(), src.width_spec() as int,
            src_x, src_y, dest_x, dest_y, w, h),
        in_cells(x as int, y as int, dest_x, dest_y, w, h),
        x < before.width_spec(),
        y < before.height_spec(),
        0 <= x - dest_x + src_x < src.width_spec(),
        0 <= y - dest_y + src_y < src.height_spec(),
    ensures
        after.tile_spec(x, y) == src.tile_spec((x - dest_x + src_x) as u32, (y - dest_y + src_y) as u32),
{
    let bpt = before.tile_bytes();
    let wd = before.width_spec() as int;
    let sw = src.width_spec() as int;
    let sx = x - dest_x + src_x;
    let sy = y - dest_y + src_y;
    let id = (x + y * wd) * bpt;
    let is = (sx + sy * sw) * bpt;
    assert(bpt > 0 && wd > 0) by (nonlinear_arith)
        requires bpt * wd > 0, bpt >= 0, wd >= 0;
    assert(sw > 0) by (nonlinear_arith)
        requires bpt * sw > 0, bpt >= 0, sw >= 0;
    let hd = before.height_spec();
    let hs = src.height_spec();
    assert(before.backing_spec().len() == bpt * wd * hd) by (nonlinear_arith)
        requires before.backing_spec().len() == (bpt * wd) * hd;
    assert(src.backing_spec().len() == bpt * sw * hs) by (nonlinear_arith)
        requires src.backing_spec().len() == (bpt * sw) * hs;
    lemma_move_cell_bounds(x as int, y as int, wd, hd, bpt, before.backing_spec().len() as int);
    lemma_move_cell_bounds(sx, sy, sw, hs, bpt, src.backing_spec().len() as int);
    assert(id >= 0 && is >= 0) by (nonlinear_arith)
        requires id == (x + y * wd) * bpt, is == (sx + sy * sw) * bpt, x >= 0, y >= 0, wd > 0, sx >= 0, sy >= 0,
            sw > 0, bpt > 0;
    assert forall|j: int| 0 <= j < bpt implies #[trigger] after.backing_spec()[id + j] == src.backing_spec()[is + j] by {
        lemma_cell_position(x as int, y as int, wd, bpt, j);
        assert(before.cell_column(id + j) == x && before.cell_row(id + j) == y && (id + j) % bpt == j);
        assert(after.backing_spec()[id + j] == src.backing_spec()[((before.cell_column(id + j) - dest_x + src_x)
            + (before.cell_row(id + j) - dest_y + src_y) * sw) * bpt + (id + j) % bpt]);
    }
    assert(after.tile_bytes() == bpt);
    assert(src.tile_bytes() == bpt);
    lemma_read_cell_same_bytes(after.backing_spec(), id, src.backing_spec(), is, before.tile_length_spec() as int,
        before.bytes_per_color_spec() as int, before.colors_per_tile_spec() as nat, before.bits_per_color_spec());
}

/// After `draw_rect_region`, reading a drawn cell gives the tile index and colors that the drawn
/// cell's bytes store.
pub proof fn lemma_read_drawn_cell(
    before: Image,
    after: Image,
    pattern: Seq<u8>,
    rect_x: int,
    rect_y: int,
    w: int,
    h: int,
    x: u32,
    y: u32,
)
    requires
        before.wf(),
        after.wf(),
        before.row_bytes() > 0,
        after.same_format(&before),
        after.width_spec() == before.width_spec(),
        pattern.len() == before.tile_bytes(),
        before.filled(before.backing_spec(), after.backing_spec(), pattern, rect_x, rect_y, w, h),
        in_cells(x as int, y as int, rect_x, rect_y, w, h),
        x < before.width_spec(),
        y < before.height_spec(),
    ensures
        after.tile_spec(x, y) == read_cell(pattern, 0, before.tile_length_spec() as int,
            before.bytes_per_color_spec() as int, before.colors_per_tile_spec() as nat, before.bits_per_color_spec()),
{
    let bpt = before.tile_bytes();
    let wd = before.width_spec() as int;
    let id = (x + y * wd) * bpt;
    assert(bpt > 0 && wd > 0) by (nonlinear_arith)
        requires bpt * wd > 0, bpt >= 0, wd >= 0;
    let hd = before.height_spec();
    assert(before.backing_spec().len() == bpt * wd * hd) by (nonlinear_arith)
        requires before.backing_spec().len() == (bpt * wd) * hd;
    lemma_move_cell_bounds(x as int, y as int, wd, hd, bpt, before.backing_spec().len() as int);
    assert(id >= 0) by (nonlinear_arith)
        requires id == (x + y * wd) * bpt, x >= 0, y >= 0, wd > 0, bpt > 0;
    assert forall|j: int| 0 <= j < bpt implies #[trigger] after.backing_spec()[id + j] == pattern[0 + j] by {
        lemma_cell_position(x as int, y as int, wd, bpt, j);
        assert(before.cell_column(id + j) == x && before.cell_row(id + j) == y && (id + j) % bpt == j);
    }
    assert(after.tile_bytes() == bpt);
    lemma_read_cell_same_bytes(after.backing_spec(), id, pattern, 0, before.tile_length_spec() as int,
        before.bytes_per_color_spec() as int, before.colors_per_tile_spec() as nat, before.bits_per_color_spec());
}

/// The number of 2D resource IDs that can be handed out to the GPU.
pub const MAX_RESOURCES: usize = 4096;

/// The first slot at or after `start + offset` (going round the slots `used`) that is not in use,
/// looking at no more than the slots from `offset` to the end of one round.
pub open spec fn first_free_slot(used: Seq<bool>, start: int, offset: int) -> Option<int>
    decreases used.len() - offset,
{
    if offset >= used.len() || offset < 0 {
        None
    } else if !used[(start + offset) % (used.len() as int)] {
        Some((start + offset) % (used.len() as int))
    } else {
        first_free_slot(used, start, offset + 1)
    }
}

/// The slot that `first_free_slot` finds is free and lies among the slots; it finds none only if
/// every slot from `offset` on, going round from `start`, is in use. So `alloc_resource` never
/// hands out an ID that is in use, and fails only when every ID is.
pub proof fn lemma_first_free_slot(used: Seq<bool>, start: int, offset: int)
    requires
        used.len() > 0,
        start >= 0,
        offset >= 0,
    ensures
        first_free_slot(used, start, offset) matches Some(i) ==> 0 <= i < used.len() && !used[i],
        first_free_slot(used, start, offset) is None ==> forall|j: int| offset <= j < used.len()
            ==> #[trigger] used[(start + j) % (used.len() as int)],
    decreases used.len() - offset,
{
    if offset < used.len() {
        lemma_first_free_slot(used, start, offset + 1);
    }
}

/// The IDs of the 2D resources given to the GPU: which are in use, and where the search for a free
/// one starts next.
#[derive(Debug)]
pub struct ResourceIds {
    used: Vec<bool>,
    next_id: usize,
}

impl ResourceIds {
    /// For each ID, counting from 1, whether it is in use.
    pub closed spec fn used_spec(&self) -> Seq<bool> {
        self.used@
    }

    /// The counter from which the next search for a free ID starts.
    pub closed spec fn next_id_spec(&self) -> usize {
        self.next_id
    }

    /// Whether there is a slot for each of the `MAX_RESOURCES` IDs.
    pub open spec fn wf(&self) -> bool {
        self.used_spec().len() == MAX_RESOURCES
    }

    /// No ID in use, and the search starts at the first one.
    pub fn new() -> (r: ResourceIds)
        ensures
            r.wf(),
            r.next_id_spec() == 0,
            forall|i: int| 0 <= i < MAX_RESOURCES ==> !#[trigger] r.used_spec()[i],
    {
        let mut used: Vec<bool> = Vec::new();
        let mut i: usize = 0;
        while i < MAX_RESOURCES
            invariant
                i <= MAX_RESOURCES,
                used@.len() == i,
                forall|j: int| 0 <= j < i ==> !#[trigger] used@[j],
            decreases MAX_RESOURCES - i,
        {
            used.push(false);
            i += 1;
        }
        ResourceIds { used, next_id: 0 }
    }

    /// Claims a free ID for a new 2D resource: the first free slot going round from the counter
    /// (modulo the number of slots), which is then moved on by one. Returns the ID, counting from
    /// 1, or `None` if every ID is in use.
    pub fn alloc_resource(&mut self) -> (r: Option<u32>)
        requires
            old(self).wf(),
        ensures
            final(self).wf(),
            final(self).next_id_spec() == old(self).next_id_spec().wrapping_add(1),
            match first_free_slot(old(self).used_spec(), (old(self).next_id_spec() % MAX_RESOURCES) as int, 0) {
                Some(i) => r == Some((i + 1) as u32) && final(self).used_spec() == old(self).used_spec().update(i, true),
                None => r is None && final(self).used_spec() == old(self).used_spec(),
            },
    {
        let start = self.next_id % MAX_RESOURCES;
        self.next_id = self.next_id.wrapping_add(1);
        let mut offset: usize = 0;
        while offset < MAX_RESOURCES
            invariant
                self.wf(),
                self.used@ == old(self).used@,
                self.next_id == old(self).next_id.wrapping_add(1),
                start == old(self).next_id % MAX_RESOURCES,
                offset <= MAX_RESOURCES,
                first_free_slot(self.used@, start as int, 0) == first_free_slot(self.used@, start as int, offset as int),
            decreases MAX_RESOURCES - offset,
        {
            let i = (start + offset) % MAX_RESOURCES;
            if !self.used[i] {
                self.used.set(i, true);
                return Some((i + 1) as u32);
            }
            offset += 1;
        }
        None
    }

    /// Gives back the ID `id` (counting from 1), which must be in use.
    pub fn free_resource(&mut self, id: u32)
        requires
            old(self).wf(),
            1 <= id <= MAX_RESOURCES,
            old(self).used_spec()[id - 1],
        ensures
            final(self).wf(),
            final(self).next_id_spec() == old(self).next_id_spec(),
            final(self).used_spec() == old(self).used_spec().update(id - 1, false),
    {
        let i = (id - 1) as usize;
        self.used.set(i, false);
    }
}

} // verus!
