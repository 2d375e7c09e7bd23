//! Starting a fork-choice store from a trusted anchor block and its state.
use vstd::prelude::*;

use crate::constants::{SLOTS_PER_EPOCH_U64, SLOT_DURATION_MS};
use crate::containers::block::BeaconBlock;
use crate::containers::state::BeaconState;
use crate::containers::chain::Checkpoint;
use crate::error::ForkChoiceError;
use crate::primitives::{Epoch, Root};
use crate::ssz::basic::zeros;

use super::keyed_map::KeyedMap;
use super::store::{spec_invariants_hold, BlockTimeliness, Store};

verus! {

/// The anchor's time: genesis plus the anchor slot's start, in seconds,
/// where neither step overflows.
pub open spec fn spec_anchor_time(genesis_time: u64, slot: u64) -> Option<u64> {
    if SLOT_DURATION_MS * slot > u64::MAX {
        None
    } else if genesis_time + (SLOT_DURATION_MS * slot) / 1000 > u64::MAX {
        None
    } else {
        Some((genesis_time + (SLOT_DURATION_MS * slot) / 1000) as u64)
    }
}

/// A second copy of `state`, read back from its SSZ encoding: a well-formed
/// state with the same encoding.
fn copy_state(state: &BeaconState) -> (r: BeaconState)
    requires
        state.spec_fields_wf(),
        state.spec_ssz().len() <= u32::MAX,
    ensures
        r.spec_fields_wf(),
        r.spec_ssz() == state.spec_ssz(),
{
    let mut buffer: Vec<u8> = Vec::new();
    let _ = state.serialize(&mut buffer);
    proof {
        assert(buffer@ =~= state.spec_ssz());
        assert(state.spec_fields_wf() && state.spec_ssz() == buffer@);
    }
    match BeaconState::deserialize(buffer.as_slice()) {
        Ok(copy) => copy,
        Err(_) => {
            proof {
                assert(false);
            }
            BeaconState::default()
        },
    }
}

/// Build the initial fork-choice store from a trusted anchor block and its
/// post-state: both checkpoints point at the anchor, whose block, state,
/// timeliness and unrealized justification are the store's only entries.
pub fn get_forkchoice_store(anchor_state: BeaconState, anchor_block: BeaconBlock) -> (r: Result<
    Store,
    ForkChoiceError,
>)
    requires
        anchor_state.spec_fields_wf(),
        anchor_block.spec_fields_wf(),
        anchor_state.spec_ssz().len() <= u32::MAX,
    ensures
        match r {
            Err(e) => if anchor_block.state_root.0@ != anchor_state.spec_root() {
                e matches ForkChoiceError::AnchorStateRootMismatch { got, want } && got == anchor_block.state_root
                    && want.0@ == anchor_state.spec_root()
            } else {
                spec_anchor_time(anchor_state.genesis_time, anchor_state.slot.0) is None && e
                    == ForkChoiceError::AnchorTimeOverflow
            },
            Ok(s) => {
                let anchor = Checkpoint {
                    epoch: Epoch(anchor_state.slot.0 / SLOTS_PER_EPOCH_U64),
                    root: s.justified_checkpoint.root,
                };
                &&& anchor_block.state_root.0@ == anchor_state.spec_root()
                &&& spec_anchor_time(anchor_state.genesis_time, anchor_state.slot.0) == Some(s.time)
                &&& s.genesis_time == anchor_state.genesis_time
                &&& s.justified_checkpoint.root.0@ == anchor_block.spec_root()
                &&& s.justified_checkpoint == anchor
                &&& s.finalized_checkpoint == anchor
                &&& s.unrealized_justified_checkpoint == anchor
                &&& s.unrealized_finalized_checkpoint == anchor
                &&& s.proposer_boost_root.0@ == zeros(32)
                &&& s.maps_wf()
                &&& s.blocks@ == map![anchor.root => anchor_block]
                &&& s.block_states@ == map![anchor.root => anchor_state]
                &&& s.block_timeliness@ == map![anchor.root => BlockTimeliness {
                    attestation_timely: true,
                    payload_attestation_timely: true,
                }]
                &&& s.checkpoint_states@.dom() == set![anchor]
                &&& s.checkpoint_states@[anchor].spec_fields_wf()
                &&& s.checkpoint_states@[anchor].spec_ssz() == anchor_state.spec_ssz()
                &&& anchor_block.parent_root.0@ != anchor_block.spec_root() ==> spec_invariants_hold(s) && s.wf()
                &&& s.unrealized_justifications@ == map![anchor.root => anchor]
                &&& s.equivocating_indices@.dom().is_empty()
                &&& s.latest_messages@.dom().is_empty()
                &&& s.payloads@.dom().is_empty()
                &&& s.queued_payload_envelopes@.dom().is_empty()
                &&& s.data_column_sidecars@.dom().is_empty()
                &&& s.payload_timeliness_vote@.dom().is_empty()
                &&& s.payload_data_availability_vote@.dom().is_empty()
            },
        },
{
    let computed_state_root = match (&anchor_state).hash_tree_root() {
        Ok(node) => Root(node.0),
        Err(_) => {
            proof {
                assert(false);
            }
            return Err(ForkChoiceError::AnchorTimeOverflow);
        },
    };
    if !anchor_block.state_root.equals(&computed_state_root) {
        proof {
            crate::primitives::byte_arrays::lemma_root_eq(anchor_block.state_root, computed_state_root);
        }
        return Err(
            ForkChoiceError::AnchorStateRootMismatch { got: anchor_block.state_root, want: computed_state_root },
        );
    }
    proof {
        crate::primitives::byte_arrays::lemma_root_eq(anchor_block.state_root, computed_state_root);
    }
    let anchor_root = match (&anchor_block).hash_tree_root() {
        Ok(node) => Root(node.0),
        Err(_) => {
            proof {
                assert(false);
            }
            return Err(ForkChoiceError::AnchorTimeOverflow);
        },
    };
    let anchor_epoch = anchor_state.slot.epoch();
    let justified = Checkpoint { epoch: anchor_epoch, root: anchor_root };
    let finalized = justified;
    let time = match SLOT_DURATION_MS.checked_mul(anchor_state.slot.0) {
        Some(product) => match anchor_state.genesis_time.checked_add(product / 1000) {
            Some(t) => t,
            None => {
                return Err(ForkChoiceError::AnchorTimeOverflow);
            },
        },
        None => {
            return Err(ForkChoiceError::AnchorTimeOverflow);
        },
    };
    let genesis_time = anchor_state.genesis_time;
    let checkpoint_state = copy_state(&anchor_state);
    let ghost block_value = anchor_block;
    let mut blocks: KeyedMap<Root, BeaconBlock> = KeyedMap::new();
    blocks.insert(anchor_root, anchor_block);
    let mut block_states: KeyedMap<Root, BeaconState> = KeyedMap::new();
    block_states.insert(anchor_root, anchor_state);
    let mut block_timeliness: KeyedMap<Root, BlockTimeliness> = KeyedMap::new();
    block_timeliness.insert(anchor_root, BlockTimeliness { attestation_timely: true, payload_attestation_timely: true });
    let mut checkpoint_states: KeyedMap<Checkpoint, BeaconState> = KeyedMap::new();
    checkpoint_states.insert(justified, checkpoint_state);
    let mut unrealized_justifications: KeyedMap<Root, Checkpoint> = KeyedMap::new();
    unrealized_justifications.insert(anchor_root, justified);
    let s = Store {
        time,
        genesis_time,
        justified_checkpoint: justified,
        finalized_checkpoint: finalized,
        unrealized_justified_checkpoint: justified,
        unrealized_finalized_checkpoint: finalized,
        proposer_boost_root: Root::zero(),
        equivocating_indices: KeyedMap::new(),
        blocks,
        block_states,
        block_timeliness,
        checkpoint_states,
        latest_messages: KeyedMap::new(),
        unrealized_justifications,
        payloads: KeyedMap::new(),
        queued_payload_envelopes: KeyedMap::new(),
        data_column_sidecars: KeyedMap::new(),
        payload_timeliness_vote: KeyedMap::new(),
        payload_data_availability_vote: KeyedMap::new(),
    };
    proof {
        assert(s.blocks@ =~= map![anchor_root => block_value]);
        assert(s.block_states@ =~= map![anchor_root => s.block_states@[anchor_root]]);
        crate::primitives::byte_arrays::lemma_root_eq(block_value.parent_root, anchor_root);
        assert(s.checkpoint_states@.dom() =~= set![justified]);
        assert(s.block_timeliness@ =~= map![anchor_root => BlockTimeliness {
            attestation_timely: true,
            payload_attestation_timely: true,
        }]);
        assert(s.unrealized_justifications@ =~= map![anchor_root => justified]);
        assert(s.equivocating_indices@.dom() =~= Set::empty());
        assert(s.latest_messages@.dom() =~= Set::empty());
        assert(s.payloads@.dom() =~= Set::empty());
        assert(s.queued_payload_envelopes@.dom() =~= Set::empty());
        assert(s.data_column_sidecars@.dom() =~= Set::empty());
        assert(s.payload_timeliness_vote@.dom() =~= Set::empty());
        assert(s.payload_data_availability_vote@.dom() =~= Set::empty());
    }
    Ok(s)
}

} // verus!
