//! The proposer's re-org decision and its guards: re-org only a single
//! late, weak head whose parent is strongly supported, never across an epoch
//! boundary, never while running behind, and never at the cost of finality.
use vstd::prelude::*;

use crate::constants::{
    BASIS_POINTS, PROPOSER_REORG_CUTOFF_BPS, REORG_MAX_EPOCHS_SINCE_FINALIZATION,
    REORG_HEAD_WEIGHT_THRESHOLD, REORG_PARENT_WEIGHT_THRESHOLD, SLOTS_PER_EPOCH_U64, SLOT_DURATION_MS,
};
use crate::error::ForkChoiceError;
use crate::primitives::{Gwei, Root, Slot};

use super::helpers::{get_slot_component_duration_ms, is_next_slot, sat_sub};
use super::payload_status::spec_parent_payload_status;
use super::store::{ForkChoiceNode, PayloadStatus, Store};
use super::timeliness::spec_time_into_slot;
use crate::containers::committees::spec_committee_count;
use crate::containers::registry::spec_active_indices;
use crate::containers::state::BeaconState;
use super::weight::{
    calculate_committee_fraction, spec_add_committee_weights, spec_attestation_score, spec_committee_fraction_fits, spec_is_head_weak,
    spec_state_committee_fraction, spec_states_wf,
};

verus! {

/// How far into a slot a proposer may still re-org, in milliseconds.
pub open spec fn spec_reorg_cutoff_ms() -> u64 {
    (PROPOSER_REORG_CUTOFF_BPS * SLOT_DURATION_MS / (BASIS_POINTS as int)) as u64
}

/// How far into a slot a proposer may still re-org, in milliseconds.
pub fn get_proposer_reorg_cutoff_ms() -> (r: u64)
    ensures
        r == spec_reorg_cutoff_ms(),
{
    get_slot_component_duration_ms(PROPOSER_REORG_CUTOFF_BPS)
}

/// Is `slot` after the first slot of its epoch?
pub fn is_after_epoch_boundary(slot: Slot) -> (r: bool)
    ensures
        r == (slot.0 % SLOTS_PER_EPOCH_U64 != 0),
{
    slot.0 % SLOTS_PER_EPOCH_U64 != 0
}

/// Whether the head block missed its slot's attestation deadline.
pub open spec fn spec_is_head_late(store: Store, head_root: Root) -> Result<bool, ForkChoiceError> {
    if store.block_timeliness@.contains_key(head_root) {
        Ok(!store.block_timeliness@[head_root].attestation_timely)
    } else {
        Err(ForkChoiceError::MissingBlockTimeliness(head_root))
    }
}

/// Whether the parent of `root` has more attestation support, counted on
/// its pending node, than the parent-weight fraction of a committee.
pub open spec fn spec_is_parent_strong(store: Store, root: Root) -> Result<bool, ForkChoiceError> {
    if !store.checkpoint_states@.contains_key(store.justified_checkpoint) {
        Err(ForkChoiceError::JustifiedStateMissing)
    } else {
        let justified_state = store.checkpoint_states@[store.justified_checkpoint];
        match spec_state_committee_fraction(justified_state, REORG_PARENT_WEIGHT_THRESHOLD) {
            Err(e) => Err(e),
            Ok(threshold) => if !store.blocks@.contains_key(root) {
                Err(ForkChoiceError::UnknownBlock(root))
            } else {
                let parent = ForkChoiceNode {
                    root: store.blocks@[root].parent_root,
                    payload_status: PayloadStatus::Pending,
                };
                match spec_attestation_score(store, parent, justified_state) {
                    Err(e) => Err(e),
                    Ok(weight) => Ok(weight.0 > threshold.0),
                }
            },
        }
    }
}

/// Whether head and parent imply the same unrealized justified checkpoint.
pub open spec fn spec_is_ffg_competitive(store: Store, head_root: Root, parent_root: Root) -> Result<
    bool,
    ForkChoiceError,
> {
    if !store.unrealized_justifications@.contains_key(head_root) {
        Err(ForkChoiceError::MissingUnrealizedJustification(head_root))
    } else if !store.unrealized_justifications@.contains_key(parent_root) {
        Err(ForkChoiceError::MissingUnrealizedJustification(parent_root))
    } else {
        Ok(store.unrealized_justifications@[head_root] == store.unrealized_justifications@[parent_root])
    }
}

/// Whether finality is recent enough, seen from `slot`, to allow a re-org.
pub open spec fn spec_is_finalization_ok(store: Store, slot: Slot) -> bool {
    sat_sub((slot.0 / SLOTS_PER_EPOCH_U64) as u64, store.finalized_checkpoint.epoch.0)
        <= REORG_MAX_EPOCHS_SINCE_FINALIZATION
}

/// The number of the first `n` stored blocks made by `proposer` at `slot`.
pub open spec fn spec_count_proposer_blocks(store: Store, proposer: u64, slot: u64, n: nat) -> nat
    decreases n,
{
    if n == 0 {
        0
    } else {
        let b = store.blocks.entries@[n - 1].1;
        spec_count_proposer_blocks(store, proposer, slot, (n - 1) as nat) + if b.proposer_index.0 == proposer
            && b.slot.0 == slot {
            1nat
        } else {
            0nat
        }
    }
}

/// Whether the proposer of `root`'s slot stored more than one block in it.
pub open spec fn spec_is_proposer_equivocation(store: Store, root: Root) -> Result<bool, ForkChoiceError> {
    if !store.blocks@.contains_key(root) {
        Err(ForkChoiceError::UnknownBlock(root))
    } else {
        let block = store.blocks@[root];
        Ok(
            spec_count_proposer_blocks(
                store,
                block.proposer_index.0,
                block.slot.0,
                store.blocks.entries@.len(),
            ) > 1,
        )
    }
}

/// The node a proposer at `slot` builds on: the head's parent when a re-org
/// is justified, else the head.
pub open spec fn spec_proposer_head(store: Store, head_node: ForkChoiceNode, slot: Slot) -> Result<
    ForkChoiceNode,
    ForkChoiceError,
> {
    if !store.blocks@.contains_key(head_node.root) {
        Err(ForkChoiceError::UnknownBlock(head_node.root))
    } else {
        let head_block = store.blocks@[head_node.root];
        let parent_root = head_block.parent_root;
        if !store.blocks@.contains_key(parent_root) {
            Err(ForkChoiceError::UnknownParent(parent_root))
        } else {
            let parent_slot = store.blocks@[parent_root].slot.0;
            match spec_parent_payload_status(store.blocks@, head_block) {
                Err(e) => Err(e),
                Ok(status) => if store.proposer_boost_root == head_node.root {
                    Err(ForkChoiceError::ProposerBoostStillActive(head_node.root))
                } else {
                    match spec_is_head_late(store, head_node.root) {
                        Err(e) => Err(e),
                        Ok(head_late) => match spec_is_ffg_competitive(store, head_node.root, parent_root) {
                            Err(e) => Err(e),
                            Ok(ffg_competitive) => match spec_is_head_weak(store, head_node.root) {
                                Err(e) => Err(e),
                                Ok(head_weak) => match spec_is_parent_strong(store, head_node.root) {
                                    Err(e) => Err(e),
                                    Ok(parent_strong) => match spec_is_proposer_equivocation(store, head_node.root) {
                                        Err(e) => Err(e),
                                        Ok(equivocation) => {
                                            let head_slot = head_block.slot.0;
                                            let single_slot = parent_slot + 1 == head_slot && head_slot + 1
                                                == slot.0;
                                            let current_time_ok = head_slot + 1 == slot.0;
                                            let on_time = spec_time_into_slot(store) <= spec_reorg_cutoff_ms();
                                            let inside_epoch = slot.0 % SLOTS_PER_EPOCH_U64 != 0;
                                            let primary = inside_epoch && on_time && single_slot && ffg_competitive
                                                && spec_is_finalization_ok(store, slot) && head_late && head_weak
                                                && parent_strong;
                                            let by_equivocation = head_weak && current_time_ok && equivocation;
                                            Ok(
                                                if primary || by_equivocation {
                                                    ForkChoiceNode { root: parent_root, payload_status: status }
                                                } else {
                                                    head_node
                                                },
                                            )
                                        },
                                    },
                                },
                            },
                        },
                    }
                },
            }
        }
    }
}

/// The justified state, if present, can compute the parent-weight threshold
/// without overflow.
pub open spec fn spec_parent_threshold_fits(store: Store) -> bool {
    store.checkpoint_states@.contains_key(store.justified_checkpoint) ==> spec_committee_fraction_fits(
        store.checkpoint_states@[store.justified_checkpoint],
        REORG_PARENT_WEIGHT_THRESHOLD,
    )
}

impl Store {
    /// Did the head block miss its slot's attestation deadline?
    pub fn is_head_late(&self, head_root: Root) -> (r: Result<bool, ForkChoiceError>)
        requires
            self.block_timeliness.wf(),
        ensures
            r == spec_is_head_late(*self, head_root),
    {
        match self.block_timeliness.get(&head_root) {
            Some(t) => Ok(!t.attestation_timely),
            None => Err(ForkChoiceError::MissingBlockTimeliness(head_root)),
        }
    }

    /// Is the parent of `root` strongly enough supported to re-org onto?
    pub fn is_parent_strong(&self, root: Root) -> (r: Result<bool, ForkChoiceError>)
        requires
            self.wf(),
            spec_parent_threshold_fits(*self),
        ensures
            r == spec_is_parent_strong(*self, root),
    {
        let justified_state = self.get_justified_state()?;
        let parent_threshold = calculate_committee_fraction(justified_state, REORG_PARENT_WEIGHT_THRESHOLD)?;
        let parent_root = match self.blocks.get(&root) {
            Some(b) => b.parent_root,
            None => return Err(ForkChoiceError::UnknownBlock(root)),
        };
        let parent_node = ForkChoiceNode::pending(parent_root);
        let parent_weight = self.get_attestation_score(parent_node, justified_state)?;
        Ok(parent_weight.0 > parent_threshold.0)
    }

    /// Would re-orging keep the chain's finality view intact?
    pub fn is_ffg_competitive(&self, head_root: Root, parent_root: Root) -> (r: Result<bool, ForkChoiceError>)
        requires
            self.unrealized_justifications.wf(),
        ensures
            r == spec_is_ffg_competitive(*self, head_root, parent_root),
    {
        let head = match self.unrealized_justifications.get(&head_root) {
            Some(c) => c,
            None => return Err(ForkChoiceError::MissingUnrealizedJustification(head_root)),
        };
        let parent = match self.unrealized_justifications.get(&parent_root) {
            Some(c) => c,
            None => return Err(ForkChoiceError::MissingUnrealizedJustification(parent_root)),
        };
        Ok(head.equals(parent))
    }

    /// Is the chain finalizing recently enough to allow a re-org?
    pub fn is_finalization_ok(&self, slot: Slot) -> (r: bool)
        ensures
            r == spec_is_finalization_ok(*self, slot),
    {
        let epochs_since_finalization = slot.epoch().0.saturating_sub(self.finalized_checkpoint.epoch.0);
        epochs_since_finalization <= REORG_MAX_EPOCHS_SINCE_FINALIZATION
    }

    /// Is the proposer early enough in its slot to re-org?
    pub fn is_proposing_on_time(&self) -> (r: bool)
        ensures
            r == (spec_time_into_slot(*self) <= spec_reorg_cutoff_ms()),
    {
        self.time_into_slot_ms() <= get_proposer_reorg_cutoff_ms()
    }

    /// Did the proposer of `root`'s slot store more than one block in it?
    pub fn is_proposer_equivocation(&self, root: Root) -> (r: Result<bool, ForkChoiceError>)
        requires
            self.blocks.wf(),
        ensures
            r == spec_is_proposer_equivocation(*self, root),
    {
        let block = match self.blocks.get(&root) {
            Some(b) => b,
            None => return Err(ForkChoiceError::UnknownBlock(root)),
        };
        let proposer_index = block.proposer_index.0;
        let slot = block.slot.0;
        let n = self.blocks.len();
        let mut matching: usize = 0;
        let mut i: usize = 0;
        while i < n
            invariant
                n == self.blocks.entries@.len(),
                i <= n,
                matching <= i,
                matching == spec_count_proposer_blocks(*self, proposer_index, slot, i as nat),
            decreases n - i,
        {
            let b = self.blocks.value_at(i);
            if b.proposer_index.0 == proposer_index && b.slot.0 == slot {
                matching = matching + 1;
            }
            i = i + 1;
        }
        Ok(matching > 1)
    }

    /// Decide which node the proposer at `slot` should build on, given the
    /// `head_node` it would otherwise extend: the head's parent when every
    /// guard of the main re-org route agrees, or when a weak previous-slot
    /// head's proposer equivocated; otherwise the head itself.
    pub fn get_proposer_head(&self, head_node: ForkChoiceNode, slot: Slot) -> (r: Result<
        ForkChoiceNode,
        ForkChoiceError,
    >)
        requires
            self.wf(),
            spec_states_wf(*self),
            spec_parent_threshold_fits(*self),
        ensures
            r == spec_proposer_head(*self, head_node, slot),
    {
        let head_block = match self.blocks.get(&head_node.root) {
            Some(b) => b,
            None => return Err(ForkChoiceError::UnknownBlock(head_node.root)),
        };
        let parent_root = head_block.parent_root;
        let head_slot = head_block.slot;
        let parent_block = match self.blocks.get(&parent_root) {
            Some(b) => b,
            None => return Err(ForkChoiceError::UnknownParent(parent_root)),
        };
        let parent_slot = parent_block.slot;
        let parent_payload_status = self.get_parent_payload_status(head_block)?;
        let parent_node = ForkChoiceNode::new(parent_root, parent_payload_status);
        if self.proposer_boost_root.equals(&head_node.root) {
            return Err(ForkChoiceError::ProposerBoostStillActive(head_node.root));
        }
        let head_late = self.is_head_late(head_node.root)?;
        let ffg_competitive = self.is_ffg_competitive(head_node.root, parent_root)?;
        let finalization_ok = self.is_finalization_ok(slot);
        let proposing_on_time = self.is_proposing_on_time();
        let single_slot_reorg = is_next_slot(parent_slot, head_slot) && is_next_slot(head_slot, slot);
        let current_time_ok = is_next_slot(head_slot, slot);
        let head_weak = self.is_head_weak(head_node.root)?;
        let parent_strong = self.is_parent_strong(head_node.root)?;
        let proposer_equivocation = self.is_proposer_equivocation(head_node.root)?;
        let reorg_stays_inside_epoch = is_after_epoch_boundary(slot);
        let timing_allows_primary_reorg = reorg_stays_inside_epoch && proposing_on_time && single_slot_reorg;
        let finality_allows_primary_reorg = ffg_competitive && finalization_ok;
        let support_allows_primary_reorg = head_late && head_weak && parent_strong;
        let primary_reorg = timing_allows_primary_reorg && finality_allows_primary_reorg
            && support_allows_primary_reorg;
        let equivocation_reorg = head_weak && current_time_ok && proposer_equivocation;
        if primary_reorg || equivocation_reorg {
            Ok(parent_node)
        } else {
            Ok(head_node)
        }
    }
}

/// The proposer leaves the head only for a strong parent or an equivocating
/// head proposer: when the parent's attestation weight, counted on its
/// pending node against the justified state, is at most the parent-weight
/// fraction of a committee, and the head's proposer made no second block in
/// its slot, the proposer builds on the head.
pub proof fn lemma_weak_parent_keeps_head(
    store: Store,
    head_node: ForkChoiceNode,
    slot: Slot,
    threshold: Gwei,
    weight: Gwei,
)
    requires
        store.checkpoint_states@.contains_key(store.justified_checkpoint),
        store.blocks@.contains_key(head_node.root),
        spec_state_committee_fraction(
            store.checkpoint_states@[store.justified_checkpoint],
            REORG_PARENT_WEIGHT_THRESHOLD,
        ) == Ok::<Gwei, ForkChoiceError>(threshold),
        spec_attestation_score(
            store,
            ForkChoiceNode { root: store.blocks@[head_node.root].parent_root, payload_status: PayloadStatus::Pending },
            store.checkpoint_states@[store.justified_checkpoint],
        ) == Ok::<Gwei, ForkChoiceError>(weight),
        weight.0 <= threshold.0,
        spec_is_proposer_equivocation(store, head_node.root) == Ok::<bool, ForkChoiceError>(false),
    ensures
        spec_proposer_head(store, head_node, slot) matches Ok(n) ==> n == head_node,
{
}

/// The proposer builds on the head's parent, on the branch the head built
/// on, exactly when the head is weak and either its proposer equivocated and
/// the proposal is for the slot right after it, or all of these hold: the
/// proposal is not at an epoch start, the proposer is within the re-org
/// cutoff, parent, head and proposal sit in consecutive slots, head and
/// parent imply the same unrealized justification, finality is recent, the
/// head is late and the parent strong. Otherwise it builds on the head.
pub proof fn lemma_proposer_head_reorg_conditions(
    store: Store,
    head_node: ForkChoiceNode,
    slot: Slot,
    status: PayloadStatus,
    late: bool,
    competitive: bool,
    weak: bool,
    strong: bool,
    equivocation: bool,
)
    requires
        store.blocks@.contains_key(head_node.root),
        store.blocks@.contains_key(store.blocks@[head_node.root].parent_root),
        store.proposer_boost_root != head_node.root,
        spec_parent_payload_status(store.blocks@, store.blocks@[head_node.root]) == Ok::<
            PayloadStatus,
            ForkChoiceError,
        >(status),
        spec_is_head_late(store, head_node.root) == Ok::<bool, ForkChoiceError>(late),
        spec_is_ffg_competitive(store, head_node.root, store.blocks@[head_node.root].parent_root) == Ok::<
            bool,
            ForkChoiceError,
        >(competitive),
        spec_is_head_weak(store, head_node.root) == Ok::<bool, ForkChoiceError>(weak),
        spec_is_parent_strong(store, head_node.root) == Ok::<bool, ForkChoiceError>(strong),
        spec_is_proposer_equivocation(store, head_node.root) == Ok::<bool, ForkChoiceError>(equivocation),
    ensures
        ({
            let head_block = store.blocks@[head_node.root];
            let parent_slot = store.blocks@[head_block.parent_root].slot.0;
            let head_slot = head_block.slot.0;
            let reorg = weak && ((equivocation && head_slot + 1 == slot.0) || (slot.0 % 32 != 0
                && spec_time_into_slot(store) <= spec_reorg_cutoff_ms() && parent_slot + 1 == head_slot && head_slot
                + 1 == slot.0 && competitive && spec_is_finalization_ok(store, slot) && late && strong));
            spec_proposer_head(store, head_node, slot) == Ok::<ForkChoiceNode, ForkChoiceError>(
                if reorg {
                    ForkChoiceNode { root: head_block.parent_root, payload_status: status }
                } else {
                    head_node
                },
            )
        }),
{
}

/// Adding equivocating stake never lowers a head's support.
proof fn lemma_committee_weights_grow(
    store: Store,
    justified_state: BeaconState,
    head_state: BeaconState,
    slot: u64,
    base: Gwei,
    n: nat,
)
    ensures
        spec_add_committee_weights(store, justified_state, head_state, slot, base, n) matches Ok(total) ==> total.0
            >= base.0,
    decreases n,
{
    if n > 0 {
        lemma_committee_weights_grow(store, justified_state, head_state, slot, base, (n - 1) as nat);
    }
}

/// A head whose own attestation support reaches the head-weight fraction of
/// a committee is never re-orged: the proposer builds on it.
pub proof fn lemma_supported_head_kept(
    store: Store,
    head_node: ForkChoiceNode,
    slot: Slot,
    threshold: Gwei,
    weight: Gwei,
)
    requires
        store.checkpoint_states@.contains_key(store.justified_checkpoint),
        store.blocks@.contains_key(head_node.root),
        store.block_states@.contains_key(head_node.root),
        spec_state_committee_fraction(
            store.checkpoint_states@[store.justified_checkpoint],
            REORG_HEAD_WEIGHT_THRESHOLD,
        ) == Ok::<Gwei, ForkChoiceError>(threshold),
        spec_attestation_score(
            store,
            ForkChoiceNode { root: head_node.root, payload_status: PayloadStatus::Pending },
            store.checkpoint_states@[store.justified_checkpoint],
        ) == Ok::<Gwei, ForkChoiceError>(weight),
        weight.0 >= threshold.0,
    ensures
        spec_proposer_head(store, head_node, slot) matches Ok(n) ==> n == head_node,
{
    let justified_state = store.checkpoint_states@[store.justified_checkpoint];
    let head_state = store.block_states@[head_node.root];
    let head_slot = store.blocks@[head_node.root].slot.0;
    let committees = spec_committee_count(
        spec_active_indices(head_state.validators@, head_slot / SLOTS_PER_EPOCH_U64).len(),
    );
    lemma_committee_weights_grow(store, justified_state, head_state, head_slot, weight, committees as nat);
}

} // verus!
