//! Small shared helpers: the store clock, walking ancestry, and slot timing.
use vstd::prelude::*;

use crate::constants::{
    ATTESTATION_DUE_BPS_GLOAS, BASIS_POINTS, MIN_SEED_LOOKAHEAD, PAYLOAD_ATTESTATION_DUE_BPS,
    SLOTS_PER_EPOCH_U64, SLOT_DURATION_MS,
};
use crate::constants::spec_epoch_start_slot;
use crate::containers::block::BeaconBlock;
use crate::containers::chain::Checkpoint;
use crate::containers::state::BeaconState;
use crate::error::ForkChoiceError;
use crate::primitives::{Epoch, Gwei, Root, Slot};

use super::payload_status::spec_parent_payload_status;
use super::store::{
    blocks_ordered, spec_supported_payload_status, ForkChoiceNode, LatestMessage, PayloadStatus,
    Store,
};

verus! {

/// `a - b`, or zero when `b > a`.
pub open spec fn sat_sub(a: u64, b: u64) -> u64 {
    if a >= b {
        (a - b) as u64
    } else {
        0
    }
}

/// `a + b`, or `u64::MAX` when the sum does not fit.
pub open spec fn sat_add(a: u64, b: u64) -> u64 {
    if a + b <= u64::MAX {
        (a + b) as u64
    } else {
        u64::MAX
    }
}

/// `a * b`, or `u64::MAX` when the product does not fit.
pub open spec fn sat_mul(a: u64, b: u64) -> u64 {
    if a * b <= u64::MAX {
        (a * b) as u64
    } else {
        u64::MAX
    }
}

/// `a * b`, saturating at `u64::MAX`.
pub fn saturating_mul(a: u64, b: u64) -> (r: u64)
    ensures
        r == sat_mul(a, b),
{
    match a.checked_mul(b) {
        Some(v) => v,
        None => u64::MAX,
    }
}

/// Seconds as milliseconds, saturating at `u64::MAX`.
pub open spec fn spec_seconds_to_ms(seconds: u64) -> u64 {
    sat_mul(seconds, 1000)
}

/// The slot a wall-clock time falls in, for a chain started at `genesis`.
pub open spec fn spec_slot_at_time(genesis: u64, time: u64) -> u64 {
    (spec_seconds_to_ms(sat_sub(time, genesis)) / SLOT_DURATION_MS) as u64
}

/// The slot the store's clock is in.
pub open spec fn spec_current_slot(store: Store) -> u64 {
    spec_slot_at_time(store.genesis_time, store.time)
}

/// The epoch of a slot.
pub open spec fn spec_epoch_of(slot: u64) -> u64 {
    (slot / SLOTS_PER_EPOCH_U64) as u64
}

/// The checkpoint a block's chain votes from: its pulled-up justification
/// once the block's epoch is over, else its post-state's justified checkpoint.
pub open spec fn spec_voting_source(store: Store, block_root: Root) -> Result<Checkpoint, ForkChoiceError> {
    if !store.blocks@.contains_key(block_root) {
        Err(ForkChoiceError::UnknownBlock(block_root))
    } else if spec_epoch_of(spec_current_slot(store)) > spec_epoch_of(store.blocks@[block_root].slot.0) {
        if store.unrealized_justifications@.contains_key(block_root) {
            Ok(store.unrealized_justifications@[block_root])
        } else {
            Err(ForkChoiceError::MissingUnrealizedJustification(block_root))
        }
    } else if store.block_states@.contains_key(block_root) {
        Ok(store.block_states@[block_root].current_justified_checkpoint)
    } else {
        Err(ForkChoiceError::UnknownBlock(block_root))
    }
}

/// Walk back from `node` along parent links to the block at or before `slot`,
/// carrying each parent's payload branch.
pub open spec fn spec_get_ancestor(blocks: Map<Root, BeaconBlock>, node: ForkChoiceNode, slot: Slot) -> Result<
    ForkChoiceNode,
    ForkChoiceError,
>
    decreases (if blocks.contains_key(node.root) {
        blocks[node.root].slot.0 + 1
    } else {
        0
    }),
    when blocks_ordered(blocks)
{
    if !blocks.contains_key(node.root) {
        Err(ForkChoiceError::UnknownBlock(node.root))
    } else {
        let block = blocks[node.root];
        if block.slot.0 <= slot.0 {
            Ok(node)
        } else {
            match spec_parent_payload_status(blocks, block) {
                Err(e) => Err(e),
                Ok(status) => spec_get_ancestor(
                    blocks,
                    ForkChoiceNode { root: block.parent_root, payload_status: status },
                    slot,
                ),
            }
        }
    }
}

/// Whether `ancestor` lies on `node`'s line: same root at the ancestor's slot,
/// and a matching branch unless the ancestor is still pending.
pub open spec fn spec_is_ancestor(blocks: Map<Root, BeaconBlock>, node: ForkChoiceNode, ancestor: ForkChoiceNode) -> Result<
    bool,
    ForkChoiceError,
> {
    if !blocks.contains_key(ancestor.root) {
        Err(ForkChoiceError::UnknownBlock(ancestor.root))
    } else {
        match spec_get_ancestor(blocks, node, blocks[ancestor.root].slot) {
            Err(e) => Err(e),
            Ok(found) => Ok(found.root == ancestor.root && (found.payload_status == ancestor.payload_status
                || ancestor.payload_status == PayloadStatus::Pending)),
        }
    }
}

impl Store {
    /// How many whole slots have passed since genesis, by the store's own clock.
    pub fn get_slots_since_genesis(&self) -> (r: u64)
        ensures
            r == spec_current_slot(*self),
    {
        self.slot_at_time(self.time)
    }

    /// The slot the store thinks it is now.
    pub fn get_current_slot(&self) -> (r: Slot)
        ensures
            r.0 == spec_current_slot(*self),
    {
        Slot::new(self.get_slots_since_genesis())
    }

    /// Which slot a wall-clock `time` (Unix seconds) falls in, by this store's genesis.
    pub fn slot_at_time(&self, time: u64) -> (r: u64)
        ensures
            r == spec_slot_at_time(self.genesis_time, time),
    {
        seconds_to_milliseconds(time.saturating_sub(self.genesis_time)) / SLOT_DURATION_MS
    }

    /// The wall-clock start time (Unix seconds) of `slot`, by this store's genesis.
    pub fn slot_start_time(&self, slot: u64) -> (r: u64)
        ensures
            r == sat_add(self.genesis_time, (sat_mul(slot, SLOT_DURATION_MS) / 1000) as u64),
    {
        self.genesis_time.saturating_add(saturating_mul(slot, SLOT_DURATION_MS) / 1_000)
    }

    /// The epoch the store thinks it is now.
    pub fn get_current_store_epoch(&self) -> (r: Epoch)
        ensures
            r.0 == spec_epoch_of(spec_current_slot(*self)),
    {
        self.get_current_slot().epoch()
    }

    /// Milliseconds elapsed since the start of the current slot.
    pub fn time_into_slot_ms(&self) -> (r: u64)
        ensures
            r == spec_seconds_to_ms(sat_sub(self.time, self.genesis_time)) % SLOT_DURATION_MS,
    {
        let seconds_since_genesis = self.time.saturating_sub(self.genesis_time);
        seconds_to_milliseconds(seconds_since_genesis) % SLOT_DURATION_MS
    }

    /// The beacon state cached at the store's current justified checkpoint.
    pub fn get_justified_state(&self) -> (r: Result<&BeaconState, ForkChoiceError>)
        requires
            self.checkpoint_states.wf(),
        ensures
            match r {
                Ok(s) => self.checkpoint_states@.contains_key(self.justified_checkpoint)
                    && *s == self.checkpoint_states@[self.justified_checkpoint],
                Err(e) => !self.checkpoint_states@.contains_key(self.justified_checkpoint)
                    && e == ForkChoiceError::JustifiedStateMissing,
            },
    {
        match self.checkpoint_states.get(&self.justified_checkpoint) {
            Some(s) => Ok(s),
            None => Err(ForkChoiceError::JustifiedStateMissing),
        }
    }

    /// Walk back up the chain from `node` to the block at or before `slot`,
    /// recomputing each parent's payload branch from the child's bid.
    pub fn get_ancestor(&self, node: ForkChoiceNode, slot: Slot) -> (r: Result<ForkChoiceNode, ForkChoiceError>)
        requires
            self.wf(),
        ensures
            r == spec_get_ancestor(self.blocks@, node, slot),
    {
        let mut current = node;
        loop
            invariant
                self.wf(),
                spec_get_ancestor(self.blocks@, current, slot) == spec_get_ancestor(self.blocks@, node, slot),
            decreases (if self.blocks@.contains_key(current.root) {
                self.blocks@[current.root].slot.0 + 1
            } else {
                0
            }),
        {
            let block = match self.blocks.get(&current.root) {
                Some(b) => b,
                None => return Err(ForkChoiceError::UnknownBlock(current.root)),
            };
            if block.slot.0 <= slot.0 {
                return Ok(current);
            }
            let parent_status = match self.get_parent_payload_status(block) {
                Ok(s) => s,
                Err(e) => return Err(e),
            };
            current = ForkChoiceNode::new(block.parent_root, parent_status);
        }
    }

    /// Does `ancestor` lie on `node`'s line, matching both block root and branch?
    /// A pending ancestor matches either resolved branch.
    pub fn is_ancestor(&self, node: ForkChoiceNode, ancestor: ForkChoiceNode) -> (r: Result<bool, ForkChoiceError>)
        requires
            self.wf(),
        ensures
            r == spec_is_ancestor(self.blocks@, node, ancestor),
    {
        let ancestor_block = match self.blocks.get(&ancestor.root) {
            Some(b) => b,
            None => return Err(ForkChoiceError::UnknownBlock(ancestor.root)),
        };
        let ancestor_slot = ancestor_block.slot;
        let node_ancestor = self.get_ancestor(node, ancestor_slot)?;
        if !node_ancestor.root.equals(&ancestor.root) {
            return Ok(false);
        }
        Ok(node_ancestor.payload_status == ancestor.payload_status || ancestor.payload_status
            == PayloadStatus::Pending)
    }

    /// The checkpoint block for `epoch` on `root`'s chain: the block at the
    /// epoch's first slot, or the latest ancestor before it.
    pub fn get_checkpoint_block(&self, root: Root, epoch: Epoch) -> (r: Result<Root, ForkChoiceError>)
        requires
            self.wf(),
        ensures
            match spec_get_ancestor(
                self.blocks@,
                ForkChoiceNode { root, payload_status: PayloadStatus::Pending },
                Slot(spec_epoch_start_slot(epoch.0)),
            ) {
                Ok(n) => r == Ok::<Root, ForkChoiceError>(n.root),
                Err(e) => r == Err::<Root, ForkChoiceError>(e),
            },
    {
        let epoch_first_slot = epoch.start_slot();
        let node = ForkChoiceNode::pending(root);
        Ok(self.get_ancestor(node, epoch_first_slot)?.root)
    }

    /// Turn a validator's latest vote into the exact node it supports.
    pub fn get_supported_node(&self, message: LatestMessage) -> (r: Result<ForkChoiceNode, ForkChoiceError>)
        requires
            self.blocks.wf(),
        ensures
            self.blocks@.contains_key(message.root) ==> r == Ok::<ForkChoiceNode, ForkChoiceError>(
                ForkChoiceNode {
                    root: message.root,
                    payload_status: spec_supported_payload_status(
                        message.slot,
                        message.payload_present,
                        self.blocks@[message.root].slot,
                    ),
                },
            ),
            !self.blocks@.contains_key(message.root) ==> r == Err::<ForkChoiceNode, ForkChoiceError>(
                ForkChoiceError::UnknownBlock(message.root),
            ),
    {
        let block = match self.blocks.get(&message.root) {
            Some(b) => b,
            None => return Err(ForkChoiceError::UnknownBlock(message.root)),
        };
        Ok(ForkChoiceNode::new(message.root, message.supported_payload_status(block.slot)))
    }

    /// The justified checkpoint the block at `block_root` votes from: its
    /// pulled-up justification if it is from an earlier epoch, else its own
    /// post-state's justified checkpoint.
    pub fn get_voting_source(&self, block_root: Root) -> (r: Result<Checkpoint, ForkChoiceError>)
        requires
            self.maps_wf(),
        ensures
            r == spec_voting_source(*self, block_root),
            !self.blocks@.contains_key(block_root) ==> r == Err::<Checkpoint, ForkChoiceError>(
                ForkChoiceError::UnknownBlock(block_root),
            ),
            self.blocks@.contains_key(block_root) && spec_epoch_of(spec_current_slot(*self))
                > spec_epoch_of(self.blocks@[block_root].slot.0) ==> r == (if self.unrealized_justifications@.contains_key(block_root) {
                Ok::<Checkpoint, ForkChoiceError>(self.unrealized_justifications@[block_root])
            } else {
                Err(ForkChoiceError::MissingUnrealizedJustification(block_root))
            }),
            self.blocks@.contains_key(block_root) && spec_epoch_of(spec_current_slot(*self))
                <= spec_epoch_of(self.blocks@[block_root].slot.0) ==> r == (if self.block_states@.contains_key(block_root) {
                Ok::<Checkpoint, ForkChoiceError>(self.block_states@[block_root].current_justified_checkpoint)
            } else {
                Err(ForkChoiceError::UnknownBlock(block_root))
            }),
    {
        let block = match self.blocks.get(&block_root) {
            Some(b) => b,
            None => return Err(ForkChoiceError::UnknownBlock(block_root)),
        };
        let current_epoch = self.get_current_store_epoch();
        let block_epoch = block.slot.epoch();
        if current_epoch.0 > block_epoch.0 {
            match self.unrealized_justifications.get(&block_root) {
                Some(c) => Ok(*c),
                None => Err(ForkChoiceError::MissingUnrealizedJustification(block_root)),
            }
        } else {
            match self.block_states.get(&block_root) {
                Some(head_state) => Ok(head_state.current_justified_checkpoint),
                None => Err(ForkChoiceError::UnknownBlock(block_root)),
            }
        }
    }

    /// The bytes of the dependent root of `root`, or the error finding it.
    pub open spec fn spec_dependent_root(self, root: Root) -> Result<Seq<u8>, ForkChoiceError> {
        if spec_epoch_of(spec_current_slot(self)) <= MIN_SEED_LOOKAHEAD {
            Ok(crate::ssz::basic::zeros(32))
        } else {
            match spec_get_ancestor(
                self.blocks@,
                ForkChoiceNode { root, payload_status: PayloadStatus::Pending },
                Slot(sat_sub(spec_epoch_start_slot((spec_epoch_of(spec_current_slot(self)) - MIN_SEED_LOOKAHEAD) as u64), 1)),
            ) {
                Ok(n) => Ok(n.root.0@),
                Err(e) => Err(e),
            }
        }
    }

    /// The earlier block whose root seeds the randomness for `root`'s recent
    /// duties; the zero root near genesis.
    pub fn get_dependent_root(&self, root: Root) -> (r: Result<Root, ForkChoiceError>)
        requires
            self.wf(),
        ensures
            match r {
                Ok(z) => self.spec_dependent_root(root) == Ok::<Seq<u8>, ForkChoiceError>(z.0@),
                Err(e) => self.spec_dependent_root(root) == Err::<Seq<u8>, ForkChoiceError>(e),
            },
            spec_epoch_of(spec_current_slot(*self)) <= MIN_SEED_LOOKAHEAD ==> (r matches Ok(z) && z.0@
                == crate::ssz::basic::zeros(32)),
            spec_epoch_of(spec_current_slot(*self)) > MIN_SEED_LOOKAHEAD ==> match spec_get_ancestor(
                self.blocks@,
                ForkChoiceNode { root, payload_status: PayloadStatus::Pending },
                Slot(sat_sub(
                    spec_epoch_start_slot((spec_epoch_of(spec_current_slot(*self)) - MIN_SEED_LOOKAHEAD) as u64),
                    1,
                )),
            ) {
                Ok(n) => r == Ok::<Root, ForkChoiceError>(n.root),
                Err(e) => r == Err::<Root, ForkChoiceError>(e),
            },
    {
        let epoch = self.get_current_store_epoch();
        if epoch.0 <= MIN_SEED_LOOKAHEAD {
            return Ok(Root::zero());
        }
        let node = ForkChoiceNode::pending(root);
        let dependent_epoch_start = epoch.saturating_sub(MIN_SEED_LOOKAHEAD).start_slot().as_u64();
        let dependent_slot = Slot::new(dependent_epoch_start.saturating_sub(1));
        Ok(self.get_ancestor(node, dependent_slot)?.root)
    }
}

/// Is `next` the slot immediately after `previous`?
pub fn is_next_slot(previous: Slot, next: Slot) -> (r: bool)
    ensures
        r == (previous.0 + 1 == next.0),
{
    match previous.0.checked_add(1) {
        Some(n) => n == next.0,
        None => false,
    }
}

/// Is `current` at or after the slot immediately following `previous`?
pub fn is_at_or_after_next_slot(previous: Slot, current: Slot) -> (r: bool)
    ensures
        r == (previous.0 + 1 <= current.0),
{
    match previous.0.checked_add(1) {
        Some(n) => current.0 >= n,
        None => false,
    }
}

/// How far `slot` sits into its own epoch, counted in slots.
pub fn compute_slots_since_epoch_start(slot: Slot) -> (r: u64)
    ensures
        r == slot.0 % SLOTS_PER_EPOCH_U64,
{
    let start = slot.epoch().start_slot();
    proof {
        assert(slot.0 / 32 * 32 <= slot.0);
    }
    slot.0 - start.0
}

/// Multiply seconds by 1000, saturating at `u64::MAX` instead of overflowing.
pub fn seconds_to_milliseconds(seconds: u64) -> (r: u64)
    ensures
        r == spec_seconds_to_ms(seconds),
{
    saturating_mul(seconds, 1_000)
}

/// Turn a fraction of a slot, given in basis points, into milliseconds.
pub fn get_slot_component_duration_ms(basis_points: u64) -> (r: u64)
    requires
        basis_points * SLOT_DURATION_MS <= u64::MAX,
    ensures
        r == basis_points * SLOT_DURATION_MS / (BASIS_POINTS as int),
{
    basis_points * SLOT_DURATION_MS / BASIS_POINTS
}

/// How long into a slot an attestation still counts as on time, in milliseconds.
pub fn get_attestation_due_ms() -> (r: u64)
    ensures
        r == 3000,
{
    get_slot_component_duration_ms(ATTESTATION_DUE_BPS_GLOAS)
}

/// How long into a slot a payload attestation still counts as on time, in milliseconds.
pub fn get_payload_attestation_due_ms() -> (r: u64)
    ensures
        r == 9000,
{
    get_slot_component_duration_ms(PAYLOAD_ATTESTATION_DUE_BPS)
}

/// The ancestor found for `slot` is a stored block at or before `slot`; a
/// stored node already at or before `slot` is its own ancestor; an unknown
/// node has none.
pub proof fn lemma_ancestor_at_or_before(blocks: Map<Root, BeaconBlock>, node: ForkChoiceNode, slot: Slot)
    requires
        blocks_ordered(blocks),
    ensures
        spec_get_ancestor(blocks, node, slot) matches Ok(a) ==> blocks.contains_key(a.root)
            && blocks[a.root].slot.0 <= slot.0,
        blocks.contains_key(node.root) && blocks[node.root].slot.0 <= slot.0 ==> spec_get_ancestor(
            blocks,
            node,
            slot,
        ) == Ok::<ForkChoiceNode, ForkChoiceError>(node),
        !blocks.contains_key(node.root) ==> spec_get_ancestor(blocks, node, slot) == Err::<
            ForkChoiceNode,
            ForkChoiceError,
        >(ForkChoiceError::UnknownBlock(node.root)),
    decreases (if blocks.contains_key(node.root) {
        blocks[node.root].slot.0 + 1
    } else {
        0
    }),
{
    if blocks.contains_key(node.root) {
        let block = blocks[node.root];
        if block.slot.0 > slot.0 {
            match spec_parent_payload_status(blocks, block) {
                Err(_) => {},
                Ok(status) => {
                    lemma_ancestor_at_or_before(
                        blocks,
                        ForkChoiceNode { root: block.parent_root, payload_status: status },
                        slot,
                    );
                },
            }
        }
    }
}

} // verus!
