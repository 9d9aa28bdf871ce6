//! The bookkeeping of the heap's master blocks: the blocks of memory that hold the heap's nodes.
//! Each master block has a fixed number of node slots, tracked by a bitmap, and a dynamically
//! allocated master block is freed once none of its slots is in use and enough unused slots would
//! remain elsewhere.

use vstd::prelude::*;
use vstd::std_specs::bits::{u64_trailing_ones, axiom_u64_trailing_ones};

verus! {

/// The number of nodes a master block can contain.
pub const NODES_PER_MASTER_BLOCK: usize = 64;

/// The average number of guards that can be allocated in each master block.
pub const GUARDS_PER_MASTER_BLOCK: usize = 32;

/// The number of unused guard slots that must remain so that the heap's maximum number of
/// simultaneous visitors can each claim one.
pub const MAX_VISITORS: usize = 31;

/// The number of slots available for guard nodes in the first master block right after its
/// initialization, if nodes are then added in the order block, guard, block, guard, ...
pub const INITIAL_UNUSED_GUARD_SLOTS: usize = 31;

/// Whether bit `i` of `bits` is set.
pub open spec fn bit_set(bits: u64, i: u64) -> bool {
    (bits >> i) & 1u64 == 1u64
}

/// The node-slot bookkeeping of a master block.
#[derive(Debug, Clone, Copy, PartialEq, Eq, Structural)]
pub struct MasterBlock {
    /// A bitmap of which node slots are currently in use.
    nodes_used: u64,
    /// Whether this block was allocated on the heap (and can therefore be freed).
    dynamic: bool,
    /// Whether this block has been freed.
    freed: bool,
}

impl MasterBlock {
    /// The bitmap of used node slots.
    pub closed spec fn used(&self) -> u64 {
        self.nodes_used
    }

    /// Whether this master block was allocated on the heap.
    pub closed spec fn is_dynamic(&self) -> bool {
        self.dynamic
    }

    /// Whether this master block has been freed.
    pub closed spec fn is_freed(&self) -> bool {
        self.freed
    }

    /// Returns the statically allocated first master block, whose first slot already holds the
    /// heap's tail guard.
    pub fn make_first() -> (m: MasterBlock)
        ensures
            m.used() == 1,
            !m.is_dynamic(),
            !m.is_freed(),
    {
        MasterBlock { nodes_used: 1, dynamic: false, freed: false }
    }

    /// Returns a new master block allocated on the heap, with all of its slots unused.
    pub fn new_dynamic() -> (m: MasterBlock)
        ensures
            m.used() == 0,
            m.is_dynamic(),
            !m.is_freed(),
    {
        MasterBlock { nodes_used: 0, dynamic: true, freed: false }
    }

    /// Returns the bitmap of used node slots.
    pub fn nodes_used(&self) -> (r: u64)
        ensures
            r == self.used(),
    {
        self.nodes_used
    }

    /// Claims the first unused node slot and returns its index, or `None` if every slot is used.
    pub fn claim_node(&mut self) -> (r: Option<u32>)
        ensures
            old(self).used() == u64::MAX ==> r is None && *final(self) == *old(self),
            old(self).used() != u64::MAX ==> r is Some && {
                let i = r.unwrap() as u64;
                &&& i < 64
                &&& !bit_set(old(self).used(), i)
                &&& forall|j: u64| j < i ==> #[trigger] bit_set(old(self).used(), j)
                &&& final(self).used() == old(self).used() | (1u64 << i)
            },
            final(self).is_dynamic() == old(self).is_dynamic(),
            final(self).is_freed() == old(self).is_freed(),
    {
        if self.nodes_used == u64::MAX {
            return None;
        }
        // Index of the first zero
        let index = self.nodes_used.trailing_ones();
        proof {
            axiom_u64_trailing_ones(self.nodes_used);
        }
        let mask = 1u64 << index;
        self.nodes_used = self.nodes_used | mask;
        Some(index)
    }

    /// Marks the node slot `index` as unused, then frees this master block if none of its slots is
    /// in use and freeing it leaves at least `MAX_VISITORS` unused guard slots. Returns whether the
    /// block was freed.
    pub fn unuse_node(&mut self, index: u32, unused_guard_slots: &mut usize) -> (freed: bool)
        requires
            index < 64,
            bit_set(old(self).used(), index as u64),
        ensures
            final(self).used() == (if freed { u64::MAX } else { old(self).used() & !(1u64 << index) }),
            freed == (old(self).used() & !(1u64 << index) == 0 && old(self).is_dynamic()
                && *old(unused_guard_slots) >= MAX_VISITORS + GUARDS_PER_MASTER_BLOCK),
            freed ==> *final(unused_guard_slots) == *old(unused_guard_slots) - GUARDS_PER_MASTER_BLOCK,
            !freed ==> *final(unused_guard_slots) == *old(unused_guard_slots),
            final(self).is_freed() == (old(self).is_freed() || freed),
            final(self).is_dynamic() == old(self).is_dynamic(),
    {
        let mask = 1u64 << index;
        self.nodes_used = self.nodes_used & !mask;
        if self.nodes_used == 0 {
            self.try_free(unused_guard_slots)
        } else {
            false
        }
    }

    // Frees this master block if all of its node slots are unused and freeing it would not reduce
    // the number of unused guard slots below the minimum. Does nothing to a statically allocated
    // block.
    fn try_free(&mut self, unused_guard_slots: &mut usize) -> (freed: bool)
        requires
            old(self).used() == 0,
        ensures
            freed == (old(self).is_dynamic() && *old(unused_guard_slots) >= MAX_VISITORS + GUARDS_PER_MASTER_BLOCK),
            final(self).used() == (if freed { u64::MAX } else { 0 }),
            freed ==> *final(unused_guard_slots) == *old(unused_guard_slots) - GUARDS_PER_MASTER_BLOCK,
            !freed ==> *final(unused_guard_slots) == *old(unused_guard_slots),
            final(self).is_freed() == (old(self).is_freed() || freed),
            final(self).is_dynamic() == old(self).is_dynamic(),
    {
        if !self.dynamic {
            // A block that isn't dynamically allocated can't be dynamically freed.
            return false;
        }
        let new_unused_guard_slots = unused_guard_slots.saturating_sub(GUARDS_PER_MASTER_BLOCK);
        if new_unused_guard_slots < MAX_VISITORS {
            // There would be too few slots left if we continued.
            return false;
        }
        *unused_guard_slots = new_unused_guard_slots;
        // Mark the nodes in this master block as used so they won't be claimed by anyone else,
        // then free it.
        self.nodes_used = u64::MAX;
        self.freed = true;
        true
    }
}

/// Claiming the first unused slot and then giving it back (without the block being freed) leaves
/// the bitmap of used slots as it was.
pub proof fn lemma_claim_then_unuse(used: u64, i: u64)
    requires
        i < 64,
        !bit_set(used, i),
    ensures
        (used | (1u64 << i)) & !(1u64 << i) == used,
        bit_set(used | (1u64 << i), i),
{
    assert(i < 64 && !((used >> i) & 1u64 == 1u64) ==> (used | (1u64 << i)) & !(1u64 << i) == used) by (bit_vector);
    assert(i < 64 ==> ((used | (1u64 << i)) >> i) & 1 == 1) by (bit_vector);
}

} // verus!
