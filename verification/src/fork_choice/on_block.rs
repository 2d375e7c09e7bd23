//! Importing a new block together with the post-state its state transition
//! produced.
use vstd::prelude::*;

use crate::constants::{spec_epoch_start_slot, PTC_SIZE};
use crate::containers::block::{BeaconBlock, SignedBeaconBlock};
use crate::containers::chain::Checkpoint;
use crate::containers::state::BeaconState;
use crate::error::ForkChoiceError;
use crate::primitives::byte_arrays::lemma_root_eq;
use crate::primitives::{Root, Slot};

use super::checkpoints::{later_checkpoint, spec_pulled_up};
use super::head::spec_head_outcome;
use super::helpers::spec_current_slot;
use super::helpers::spec_get_ancestor;
use super::payload_status::spec_parent_payload_status;
use super::store::{blocks_ordered, BlockTimeliness, ForkChoiceNode, PayloadStatus, Store};
use super::timeliness::spec_timeliness;
use super::weight::{spec_boost_fits, spec_states_wf};

verus! {

/// The checks a new block must pass before it is imported, in the order
/// they are made: a known parent state, a recorded payload when the block
/// builds on its parent's full branch, not from the future, after the
/// finalized slot, and descended from the finalized block.
pub open spec fn spec_block_checks(store: Store, block: BeaconBlock) -> Result<(), ForkChoiceError> {
    let finalized_slot = spec_epoch_start_slot(store.finalized_checkpoint.epoch.0);
    if !store.block_states@.contains_key(block.parent_root) {
        Err(ForkChoiceError::UnknownParent(block.parent_root))
    } else {
        match spec_parent_payload_status(store.blocks@, block) {
            Err(e) => Err(e),
            Ok(status) => if status == PayloadStatus::Full && !store.payloads@.contains_key(block.parent_root) {
                Err(ForkChoiceError::PayloadParentEnvelopeNotRecorded(block.parent_root))
            } else if spec_current_slot(store) < block.slot.0 {
                Err(
                    ForkChoiceError::BlockFromFuture {
                        block_slot: block.slot,
                        current_slot: Slot(spec_current_slot(store)),
                    },
                )
            } else if block.slot.0 <= finalized_slot {
                Err(
                    ForkChoiceError::BlockBeforeFinalizedSlot {
                        block_slot: block.slot,
                        finalized_slot: Slot(finalized_slot),
                    },
                )
            } else {
                match spec_get_ancestor(
                    store.blocks@,
                    ForkChoiceNode { root: block.parent_root, payload_status: PayloadStatus::Pending },
                    Slot(finalized_slot),
                ) {
                    Err(e) => Err(e),
                    Ok(n) => if n.root != store.finalized_checkpoint.root {
                        Err(ForkChoiceError::BlockNotDescendedFromFinalized)
                    } else {
                        Ok(())
                    },
                }
            },
        }
    }
}

/// The root a block is filed under: the one whose bytes are its
/// hash-tree-root.
pub open spec fn spec_block_key(block: BeaconBlock) -> Root {
    choose|k: Root| k.0@ == block.spec_root()
}

/// Filing `block` keeps every block later than its known parent: it is not
/// its own parent, it is later than its parent, and earlier than any stored
/// block that names it as parent. The state transition accepts only such
/// blocks.
pub open spec fn spec_fits_block_order(store: Store, block: BeaconBlock) -> bool {
    &&& block.parent_root.0@ != block.spec_root()
    &&& store.blocks@.contains_key(block.parent_root) ==> store.blocks@[block.parent_root].slot.0 < block.slot.0
    &&& forall|r: Root|
        #[trigger] store.blocks@.contains_key(r) && store.blocks@[r].parent_root.0@ == block.spec_root()
            ==> block.slot.0 < store.blocks@[r].slot.0
}

/// `after` is `before` with `block` and `state` filed under the block's
/// root, empty payload-vote vectors for it, and its timeliness recorded;
/// nothing else changes.
pub open spec fn spec_filed(before: Store, block: BeaconBlock, state: BeaconState, after: Store) -> bool {
    let key = spec_block_key(block);
    &&& after.maps_wf()
    &&& after.blocks@ == before.blocks@.insert(key, block)
    &&& after.block_states@ == before.block_states@.insert(key, state)
    &&& after.block_timeliness@ == before.block_timeliness@.insert(key, spec_timeliness(before, block.slot.0))
    &&& after.payload_timeliness_vote@ == before.payload_timeliness_vote@.insert(
        key,
        after.payload_timeliness_vote@[key],
    )
    &&& after.payload_timeliness_vote@[key]@ == Seq::new(PTC_SIZE as nat, |i: int| None::<bool>)
    &&& after.payload_data_availability_vote@ == before.payload_data_availability_vote@.insert(
        key,
        after.payload_data_availability_vote@[key],
    )
    &&& after.payload_data_availability_vote@[key]@ == Seq::new(PTC_SIZE as nat, |i: int| None::<bool>)
    &&& after == (Store {
        blocks: after.blocks,
        block_states: after.block_states,
        block_timeliness: after.block_timeliness,
        payload_timeliness_vote: after.payload_timeliness_vote,
        payload_data_availability_vote: after.payload_data_availability_vote,
        ..before
    })
}

/// `a` and `b` hold the same entries, in the same order, in every map, and
/// agree on every other field.
pub open spec fn spec_same_store(a: Store, b: Store) -> bool {
    &&& a.blocks.entries@ == b.blocks.entries@
    &&& a.block_states.entries@ == b.block_states.entries@
    &&& a.block_timeliness.entries@ == b.block_timeliness.entries@
    &&& a.payload_timeliness_vote.entries@ == b.payload_timeliness_vote.entries@
    &&& a.payload_data_availability_vote.entries@ == b.payload_data_availability_vote.entries@
    &&& a == (Store {
        blocks: a.blocks,
        block_states: a.block_states,
        block_timeliness: a.block_timeliness,
        payload_timeliness_vote: a.payload_timeliness_vote,
        payload_data_availability_vote: a.payload_data_availability_vote,
        ..b
    })
}

/// What importing `block` with post-state `state` gives once the checks
/// passed and the pre-import head is `head`: the proposer-boost update runs
/// on the store with the block filed (`mid`); if finding a dependent root
/// fails the store is left as it was, else the block stays filed, the boost
/// goes to it when it earns it, the post-state's checkpoints are adopted
/// where they are later, and the tip is pulled up with `pulled_justified`
/// and `pulled_finalized`.
pub open spec fn spec_import_outcome(
    before: Store,
    block: BeaconBlock,
    state: BeaconState,
    pulled_justified: Checkpoint,
    pulled_finalized: Checkpoint,
    head: Root,
    mid: Store,
    r: Result<(), ForkChoiceError>,
    after: Store,
) -> bool {
    let key = spec_block_key(block);
    match mid.spec_dependent_root(key) {
        Err(e) => r == Err::<(), ForkChoiceError>(e) && spec_same_store(after, before),
        Ok(_) => match mid.spec_dependent_root(head) {
            Err(e) => r == Err::<(), ForkChoiceError>(e) && spec_same_store(after, before),
            Ok(_) => r is Ok && exists|settled: Store|
                {
                    &&& spec_filed(
                        before,
                        block,
                        state,
                        Store {
                            proposer_boost_root: before.proposer_boost_root,
                            justified_checkpoint: before.justified_checkpoint,
                            finalized_checkpoint: before.finalized_checkpoint,
                            ..settled
                        },
                    )
                    &&& settled.proposer_boost_root == if mid.spec_earns_boost(head, key) {
                        key
                    } else {
                        before.proposer_boost_root
                    }
                    &&& settled.justified_checkpoint == later_checkpoint(
                        before.justified_checkpoint,
                        state.current_justified_checkpoint,
                    )
                    &&& settled.finalized_checkpoint == later_checkpoint(
                        before.finalized_checkpoint,
                        state.finalized_checkpoint,
                    )
                    &&& #[trigger] spec_pulled_up(settled, key, pulled_justified, pulled_finalized, after)
                },
        },
    }
}

/// A vote vector with one empty slot per committee position.
fn empty_votes() -> (v: Vec<Option<bool>>)
    ensures
        v@ == Seq::new(PTC_SIZE as nat, |i: int| None::<bool>),
{
    let mut v: Vec<Option<bool>> = Vec::new();
    let mut i: u64 = 0;
    while i < PTC_SIZE
        invariant
            i <= PTC_SIZE,
            v@ == Seq::new(i as nat, |j: int| None::<bool>),
        decreases PTC_SIZE - i,
    {
        v.push(None);
        i = i + 1;
        assert(v@ =~= Seq::new(i as nat, |j: int| None::<bool>));
    }
    v
}

/// Filing a block that fits the block order keeps the blocks ordered.
proof fn lemma_filed_blocks_ordered(blocks: Map<Root, BeaconBlock>, key: Root, block: BeaconBlock)
    requires
        blocks_ordered(blocks),
        key.0@ == block.spec_root(),
        block.parent_root.0@ != block.spec_root(),
        blocks.contains_key(block.parent_root) ==> blocks[block.parent_root].slot.0 < block.slot.0,
        forall|r: Root|
            #[trigger] blocks.contains_key(r) && blocks[r].parent_root.0@ == block.spec_root() ==> block.slot.0
                < blocks[r].slot.0,
    ensures
        blocks_ordered(blocks.insert(key, block)),
{
    let filed = blocks.insert(key, block);
    assert forall|r: Root|
        #![trigger filed[r]]
        filed.contains_key(r) && filed.contains_key(filed[r].parent_root) implies filed[filed[r].parent_root].slot.0
        < filed[r].slot.0 by {
        let p = filed[r].parent_root;
        lemma_root_eq(p, key);
        if r == key {
            assert(p != key);
        } else {
            assert(filed[r] == blocks[r]);
            if p != key {
                assert(blocks[r] == blocks[r]);
            }
        }
    }
}

impl Store {
    /// Import a block whose state transition has produced `post_state`.
    ///
    /// The block is refused outright if its parent's state is unknown, if it
    /// builds on a full parent whose payload was never recorded, if it is
    /// from the future, at or before the finalized slot, or not descended
    /// from the finalized block. Otherwise the pre-import head is found, and
    /// the block and its post-state are filed under the block's root with
    /// empty payload-vote vectors and its timeliness; then the proposer
    /// boost and the checkpoints are updated. A failure leaves the store's
    /// entries as they were. `pulled_justified` and `pulled_finalized` are
    /// the checkpoints the post-state reaches once justification and
    /// finalization are processed on it, for pulling up the tip. Folding in
    /// the payload-attestation votes the block carries is left to the
    /// caller, which holds the committees they need.
    pub fn on_block_with_post_state(
        &mut self,
        signed_block: SignedBeaconBlock,
        post_state: BeaconState,
        pulled_justified: Checkpoint,
        pulled_finalized: Checkpoint,
    ) -> (r: Result<(), ForkChoiceError>)
        requires
            old(self).wf(),
            spec_states_wf(*old(self)),
            spec_boost_fits(*old(self)),
            signed_block.message.spec_fields_wf(),
            spec_fits_block_order(*old(self), signed_block.message),
        ensures
            spec_block_checks(*old(self), signed_block.message) matches Err(e) ==> r == Err::<(), ForkChoiceError>(e)
                && *final(self) == *old(self),
            spec_block_checks(*old(self), signed_block.message) is Ok ==> exists|
                head: Result<ForkChoiceNode, ForkChoiceError>,
            |
                #[trigger] spec_head_outcome(*old(self), head) && match head {
                    Err(e) => r == Err::<(), ForkChoiceError>(e) && *final(self) == *old(self),
                    Ok(h) => exists|mid: Store|
                        #[trigger] spec_filed(*old(self), signed_block.message, post_state, mid) && spec_import_outcome(
                            *old(self),
                            signed_block.message,
                            post_state,
                            pulled_justified,
                            pulled_finalized,
                            h.root,
                            mid,
                            r,
                            *final(self),
                        ),
                },
    {
        let block = signed_block.message;
        let ghost before = *self;
        // Checks made before anything is filed.
        if !self.block_states.contains_key(&block.parent_root) {
            return Err(ForkChoiceError::UnknownParent(block.parent_root));
        }
        let parent_full = self.is_parent_node_full(&block)?;
        if parent_full && !self.is_payload_verified(block.parent_root) {
            return Err(ForkChoiceError::PayloadParentEnvelopeNotRecorded(block.parent_root));
        }
        let current = self.get_current_slot();
        if current.0 < block.slot.0 {
            return Err(ForkChoiceError::BlockFromFuture { block_slot: block.slot, current_slot: current });
        }
        let finalized_slot = self.finalized_checkpoint.epoch.start_slot();
        if block.slot.0 <= finalized_slot.0 {
            return Err(ForkChoiceError::BlockBeforeFinalizedSlot { block_slot: block.slot, finalized_slot });
        }
        let finalized_block = self.get_checkpoint_block(block.parent_root, self.finalized_checkpoint.epoch)?;
        proof {
            lemma_root_eq(self.finalized_checkpoint.root, finalized_block);
        }
        if !self.finalized_checkpoint.root.equals(&finalized_block) {
            return Err(ForkChoiceError::BlockNotDescendedFromFinalized);
        }
        let block_root = match block.hash_tree_root() {
            Ok(node) => Root(node.0),
            Err(_) => {
                proof {
                    assert(false);
                }
                return Err(ForkChoiceError::BlockNotDescendedFromFinalized);
            },
        };
        proof {
            lemma_root_eq(block_root, spec_block_key(block));
        }
        let pre_import_head = self.get_head()?;
        let justified = post_state.current_justified_checkpoint;
        let finalized = post_state.finalized_checkpoint;
        let block_slot = block.slot;
        let ghost filed_block = block;
        let ghost filed_state = post_state;
        // File the block, its post-state, its vote vectors and timeliness.
        let time_into_slot = self.time_into_slot_ms();
        let is_current_slot = current.0 == block_slot.0;
        let timeliness = BlockTimeliness {
            attestation_timely: is_current_slot && time_into_slot < super::helpers::get_attestation_due_ms(),
            payload_attestation_timely: is_current_slot && time_into_slot
                < super::helpers::get_payload_attestation_due_ms(),
        };
        let undo_blocks = self.blocks.insert_with_undo(block_root, block);
        let undo_states = self.block_states.insert_with_undo(block_root, post_state);
        let undo_timely_votes = self.payload_timeliness_vote.insert_with_undo(block_root, empty_votes());
        let undo_available_votes = self.payload_data_availability_vote.insert_with_undo(block_root, empty_votes());
        let undo_timeliness = self.block_timeliness.insert_with_undo(block_root, timeliness);
        let ghost mid = *self;
        proof {
            lemma_filed_blocks_ordered(before.blocks@, block_root, filed_block);
            assert(spec_filed(before, filed_block, filed_state, mid));
        }
        match self.update_proposer_boost_root(pre_import_head.root, block_root) {
            Ok(()) => {},
            Err(e) => {
                self.block_timeliness.restore(undo_timeliness);
                self.payload_data_availability_vote.restore(undo_available_votes);
                self.payload_timeliness_vote.restore(undo_timely_votes);
                self.block_states.restore(undo_states);
                self.blocks.restore(undo_blocks);
                proof {
                    assert(self.blocks.entries@ =~= before.blocks.entries@);
                    assert(self.block_states.entries@ =~= before.block_states.entries@);
                    assert(self.block_timeliness.entries@ =~= before.block_timeliness.entries@);
                    assert(self.payload_timeliness_vote.entries@ =~= before.payload_timeliness_vote.entries@);
                    assert(self.payload_data_availability_vote.entries@
                        =~= before.payload_data_availability_vote.entries@);
                }
                return Err(e);
            },
        }
        self.update_checkpoints(justified, finalized);
        let ghost settled = *self;
        self.compute_pulled_up_tip(block_root, pulled_justified, pulled_finalized)?;
        proof {
            assert(spec_filed(
                before,
                filed_block,
                filed_state,
                Store {
                    proposer_boost_root: before.proposer_boost_root,
                    justified_checkpoint: before.justified_checkpoint,
                    finalized_checkpoint: before.finalized_checkpoint,
                    ..settled
                },
            ));
            assert(spec_pulled_up(settled, spec_block_key(filed_block), pulled_justified, pulled_finalized, *self));
            assert(spec_import_outcome(
                before,
                filed_block,
                filed_state,
                pulled_justified,
                pulled_finalized,
                pre_import_head.root,
                mid,
                Ok::<(), ForkChoiceError>(()),
                *self,
            ));
        }
        Ok(())
    }
}

} // verus!
