//! Scoring a node: the stake whose latest votes back it, plus the proposer
//! boost, and the weak-head guard used when a re-org is weighed.
use vstd::prelude::*;

use crate::constants::{PROPOSER_SCORE_BOOST, REORG_HEAD_WEIGHT_THRESHOLD, SLOTS_PER_EPOCH_U64};
use crate::containers::block::BeaconBlock;
use crate::containers::committees::{spec_beacon_committee, spec_committee_count};
use crate::containers::registry::{spec_active_indices, spec_active_unslashed_indices, spec_total_active_balance};
use crate::containers::state::BeaconState;
use crate::error::ForkChoiceError;
use crate::primitives::{CommitteeIndex, Gwei, Root, Slot, ValidatorIndex};
use crate::ssz::basic::zeros;

use super::helpers::{is_next_slot, spec_is_ancestor};
use super::payload_status::spec_previous_slot_decision;
use super::store::{spec_supported_payload_status, ForkChoiceNode, LatestMessage, PayloadStatus, Store};

verus! {

/// Add two fork-choice weights, failing on `u64` overflow.
pub open spec fn spec_add_weight(total: u64, weight: u64) -> Result<Gwei, ForkChoiceError> {
    if total + weight > u64::MAX {
        Err(ForkChoiceError::WeightOverflow)
    } else {
        Ok(Gwei((total + weight) as u64))
    }
}

/// Add two fork-choice weights, returning `WeightOverflow` on `u64` overflow
/// rather than letting a wrapped sum change which node wins.
pub fn add_weight(total: Gwei, weight: Gwei) -> (r: Result<Gwei, ForkChoiceError>)
    ensures
        r == spec_add_weight(total.0, weight.0),
{
    match total.0.checked_add(weight.0) {
        Some(sum) => Ok(Gwei(sum)),
        None => Err(ForkChoiceError::WeightOverflow),
    }
}

/// `percent` percent of one slot's committee share of `total`.
pub open spec fn spec_committee_fraction(total: u64, percent: u64) -> int {
    (total / SLOTS_PER_EPOCH_U64) * percent / 100
}

/// The committee fraction of a state's stake can be computed without
/// overflow: the scaled committee share fits in a `u64`.
pub open spec fn spec_committee_fraction_fits(state: BeaconState, percent: u64) -> bool {
    spec_total_active_balance(state.validators@, state.slot.0 / SLOTS_PER_EPOCH_U64) matches Ok(t) ==> (t.0
        / SLOTS_PER_EPOCH_U64) * percent <= u64::MAX
}

/// A fraction of at most one committee's share never overflows.
pub proof fn lemma_small_fraction_fits(state: BeaconState, percent: u64)
    requires
        percent <= SLOTS_PER_EPOCH_U64,
    ensures
        spec_committee_fraction_fits(state, percent),
{
    if let Ok(t) = spec_total_active_balance(state.validators@, state.slot.0 / SLOTS_PER_EPOCH_U64) {
        let share = t.0 / SLOTS_PER_EPOCH_U64;
        assert(share * percent <= share * SLOTS_PER_EPOCH_U64) by (nonlinear_arith)
            requires
                percent <= SLOTS_PER_EPOCH_U64,
        ;
    }
}

/// What `calculate_committee_fraction` gives for a state.
pub open spec fn spec_state_committee_fraction(state: BeaconState, percent: u64) -> Result<Gwei, ForkChoiceError> {
    match spec_total_active_balance(state.validators@, state.slot.0 / SLOTS_PER_EPOCH_U64) {
        Ok(t) => Ok(Gwei(spec_committee_fraction(t.0, percent) as u64)),
        Err(e) => Err(ForkChoiceError::Transition(e)),
    }
}

/// A committee-sized slice of the total stake, taken as a percentage: the
/// total active balance divided over the slots of an epoch, then scaled by
/// `committee_percent` percent.
pub fn calculate_committee_fraction(state: &BeaconState, committee_percent: u64) -> (r: Result<Gwei, ForkChoiceError>)
    requires
        spec_committee_fraction_fits(*state, committee_percent),
    ensures
        r == spec_state_committee_fraction(*state, committee_percent),
{
    let total = match state.get_total_active_balance() {
        Ok(t) => t,
        Err(e) => return Err(ForkChoiceError::Transition(e)),
    };
    let committee_weight = total.0 / SLOTS_PER_EPOCH_U64;
    Ok(Gwei(committee_weight * committee_percent / 100))
}

/// The size of the proposer boost measured against `state`: one slot
/// committee's stake scaled by the boost percentage.
pub fn compute_proposer_score(state: &BeaconState) -> (r: Result<Gwei, ForkChoiceError>)
    requires
        spec_committee_fraction_fits(*state, PROPOSER_SCORE_BOOST),
    ensures
        r == spec_state_committee_fraction(*state, PROPOSER_SCORE_BOOST),
{
    calculate_committee_fraction(state, PROPOSER_SCORE_BOOST)
}

/// The node a latest vote supports.
pub open spec fn spec_supported_node(store: Store, message: LatestMessage) -> Result<ForkChoiceNode, ForkChoiceError> {
    if store.blocks@.contains_key(message.root) {
        Ok(
            ForkChoiceNode {
                root: message.root,
                payload_status: spec_supported_payload_status(
                    message.slot,
                    message.payload_present,
                    store.blocks@[message.root].slot,
                ),
            },
        )
    } else {
        Err(ForkChoiceError::UnknownBlock(message.root))
    }
}

/// The attestation score of `node` counted over the validators `candidates`,
/// left to right: each one with a latest vote who has not equivocated adds
/// its effective balance when its vote supports a descendant of `node`.
pub open spec fn spec_score_over(
    store: Store,
    node: ForkChoiceNode,
    state: BeaconState,
    candidates: Seq<ValidatorIndex>,
) -> Result<Gwei, ForkChoiceError>
    decreases candidates.len(),
{
    if candidates.len() == 0 {
        Ok(Gwei(0))
    } else {
        match spec_score_over(store, node, state, candidates.drop_last()) {
            Err(e) => Err(e),
            Ok(total) => {
                let v = candidates.last();
                if !store.latest_messages@.contains_key(v) || store.equivocating_indices@.contains_key(v) {
                    Ok(total)
                } else {
                    match spec_supported_node(store, store.latest_messages@[v]) {
                        Err(e) => Err(e),
                        Ok(supported) => match spec_is_ancestor(store.blocks@, supported, node) {
                            Err(e) => Err(e),
                            Ok(false) => Ok(total),
                            Ok(true) => if v.0 >= state.validators@.len() {
                                Err(ForkChoiceError::ValidatorOutOfBounds(v))
                            } else {
                                spec_add_weight(total.0, state.validators@[v.0 as int].effective_balance.0)
                            },
                        },
                    }
                }
            },
        }
    }
}

/// The attestation score of `node` measured against `state`'s active,
/// unslashed validators.
pub open spec fn spec_attestation_score(store: Store, node: ForkChoiceNode, state: BeaconState) -> Result<
    Gwei,
    ForkChoiceError,
> {
    spec_score_over(
        store,
        node,
        state,
        spec_active_unslashed_indices(state.validators@, state.slot.0 / SLOTS_PER_EPOCH_U64),
    )
}

/// The summed effective balance of the equivocating members of `committee`,
/// left to right.
pub open spec fn spec_equivocating_weight(store: Store, state: BeaconState, committee: Seq<ValidatorIndex>) -> Result<
    Gwei,
    ForkChoiceError,
>
    decreases committee.len(),
{
    if committee.len() == 0 {
        Ok(Gwei(0))
    } else {
        match spec_equivocating_weight(store, state, committee.drop_last()) {
            Err(e) => Err(e),
            Ok(total) => {
                let v = committee.last();
                if !store.equivocating_indices@.contains_key(v) {
                    Ok(total)
                } else if v.0 >= state.validators@.len() {
                    Err(ForkChoiceError::ValidatorOutOfBounds(v))
                } else {
                    spec_add_weight(total.0, state.validators@[v.0 as int].effective_balance.0)
                }
            },
        }
    }
}

impl Store {
    /// Add up the stake of every active, unslashed validator whose latest
    /// vote supports `node`, skipping those who equivocated.
    pub fn get_attestation_score(&self, node: ForkChoiceNode, state: &BeaconState) -> (r: Result<Gwei, ForkChoiceError>)
        requires
            self.wf(),
        ensures
            r == spec_attestation_score(*self, node, *state),
    {
        let epoch = state.slot.epoch();
        let candidates = state.active_unslashed_validator_indices(epoch);
        let mut total = Gwei(0);
        let mut i: usize = 0;
        proof {
            assert(candidates@.subrange(0, 0) =~= Seq::<ValidatorIndex>::empty());
        }
        while i < candidates.len()
            invariant
                self.wf(),
                i <= candidates@.len(),
                candidates@ == spec_active_unslashed_indices(state.validators@, state.slot.0 / SLOTS_PER_EPOCH_U64),
                spec_score_over(*self, node, *state, candidates@.subrange(0, i as int)) == Ok::<
                    Gwei,
                    ForkChoiceError,
                >(total),
            decreases candidates@.len() - i,
        {
            let validator = candidates[i];
            let ghost pre = candidates@.subrange(0, i + 1);
            proof {
                assert(pre.drop_last() =~= candidates@.subrange(0, i as int));
                assert(pre.last() == validator);
            }
            let message = match self.latest_messages.get(&validator) {
                Some(m) => *m,
                None => {
                    i = i + 1;
                    continue;
                },
            };
            if self.equivocating_indices.contains_key(&validator) {
                i = i + 1;
                continue;
            }
            let supported_node = match self.get_supported_node(message) {
                Ok(n) => n,
                Err(e) => {
                    proof {
                        lemma_score_error_sticks(*self, node, *state, candidates@, (i + 1) as nat);
                    }
                    return Err(e);
                },
            };
            let vote_supports_candidate = match self.is_ancestor(supported_node, node) {
                Ok(b) => b,
                Err(e) => {
                    proof {
                        lemma_score_error_sticks(*self, node, *state, candidates@, (i + 1) as nat);
                    }
                    return Err(e);
                },
            };
            if !vote_supports_candidate {
                i = i + 1;
                continue;
            }
            if validator.0 >= state.validators.items.len() as u64 {
                proof {
                    lemma_score_error_sticks(*self, node, *state, candidates@, (i + 1) as nat);
                }
                return Err(ForkChoiceError::ValidatorOutOfBounds(validator));
            }
            let weight = state.validators.items[validator.0 as usize].effective_balance;
            total = match add_weight(total, weight) {
                Ok(t) => t,
                Err(e) => {
                    proof {
                        lemma_score_error_sticks(*self, node, *state, candidates@, (i + 1) as nat);
                    }
                    return Err(e);
                },
            };
            i = i + 1;
        }
        proof {
            assert(candidates@.subrange(0, candidates@.len() as int) =~= candidates@);
        }
        Ok(total)
    }

    /// The proposer boost amount, measured against the store's justified state.
    pub fn get_proposer_score(&self) -> (r: Result<Gwei, ForkChoiceError>)
        requires
            self.wf(),
            self.checkpoint_states@.contains_key(self.justified_checkpoint) ==> spec_committee_fraction_fits(
                self.checkpoint_states@[self.justified_checkpoint],
                PROPOSER_SCORE_BOOST,
            ),
        ensures
            !self.checkpoint_states@.contains_key(self.justified_checkpoint) ==> r == Err::<Gwei, ForkChoiceError>(
                ForkChoiceError::JustifiedStateMissing,
            ),
            self.checkpoint_states@.contains_key(self.justified_checkpoint) ==> r
                == spec_state_committee_fraction(
                self.checkpoint_states@[self.justified_checkpoint],
                PROPOSER_SCORE_BOOST,
            ),
    {
        let state = self.get_justified_state()?;
        compute_proposer_score(state)
    }

    /// Total effective balance of the equivocating validators in `committee`.
    pub fn equivocating_committee_weight(&self, state: &BeaconState, committee: &[ValidatorIndex]) -> (r: Result<
        Gwei,
        ForkChoiceError,
    >)
        requires
            self.wf(),
        ensures
            r == spec_equivocating_weight(*self, *state, committee@),
    {
        let mut total = Gwei(0);
        let mut i: usize = 0;
        proof {
            assert(committee@.subrange(0, 0) =~= Seq::<ValidatorIndex>::empty());
        }
        while i < committee.len()
            invariant
                self.wf(),
                i <= committee@.len(),
                spec_equivocating_weight(*self, *state, committee@.subrange(0, i as int)) == Ok::<
                    Gwei,
                    ForkChoiceError,
                >(total),
            decreases committee@.len() - i,
        {
            let index = committee[i];
            let ghost pre = committee@.subrange(0, i + 1);
            proof {
                assert(pre.drop_last() =~= committee@.subrange(0, i as int));
                assert(pre.last() == index);
            }
            if self.equivocating_indices.contains_key(&index) {
                if index.0 >= state.validators.items.len() as u64 {
                    proof {
                        lemma_equivocating_error_sticks(*self, *state, committee@, (i + 1) as nat);
                    }
                    return Err(ForkChoiceError::ValidatorOutOfBounds(index));
                }
                let balance = state.validators.items[index.0 as usize].effective_balance;
                total = match add_weight(total, balance) {
                    Ok(t) => t,
                    Err(e) => {
                        proof {
                            lemma_equivocating_error_sticks(*self, *state, committee@, (i + 1) as nat);
                        }
                        return Err(e);
                    },
                };
            }
            i = i + 1;
        }
        proof {
            assert(committee@.subrange(0, committee@.len() as int) =~= committee@);
        }
        Ok(total)
    }
}

/// Once scoring a prefix of the candidates fails, scoring all of them fails
/// the same way.
proof fn lemma_score_error_sticks(
    store: Store,
    node: ForkChoiceNode,
    state: BeaconState,
    candidates: Seq<ValidatorIndex>,
    j: nat,
)
    requires
        j <= candidates.len(),
        spec_score_over(store, node, state, candidates.subrange(0, j as int)) is Err,
    ensures
        spec_score_over(store, node, state, candidates) == spec_score_over(
            store,
            node,
            state,
            candidates.subrange(0, j as int),
        ),
    decreases candidates.len() - j,
{
    if j < candidates.len() {
        let next = candidates.subrange(0, j + 1 as int);
        assert(next.drop_last() =~= candidates.subrange(0, j as int));
        lemma_score_error_sticks(store, node, state, candidates, j + 1);
    } else {
        assert(candidates.subrange(0, j as int) =~= candidates);
    }
}

/// Once summing a prefix of a committee fails, summing all of it fails the
/// same way.
proof fn lemma_equivocating_error_sticks(store: Store, state: BeaconState, committee: Seq<ValidatorIndex>, j: nat)
    requires
        j <= committee.len(),
        spec_equivocating_weight(store, state, committee.subrange(0, j as int)) is Err,
    ensures
        spec_equivocating_weight(store, state, committee) == spec_equivocating_weight(
            store,
            state,
            committee.subrange(0, j as int),
        ),
    decreases committee.len() - j,
{
    if j < committee.len() {
        let next = committee.subrange(0, j + 1 as int);
        assert(next.drop_last() =~= committee.subrange(0, j as int));
        lemma_equivocating_error_sticks(store, state, committee, j + 1);
    } else {
        assert(committee.subrange(0, j as int) =~= committee);
    }
}


/// Every post-state the store holds has its fixed-length vectors at their
/// lengths and its registry within its limit.
pub open spec fn spec_states_wf(store: Store) -> bool {
    forall|r: Root|
        #[trigger] store.block_states@.contains_key(r) ==> store.block_states@[r].randao_mixes.wf()
            && store.block_states@[r].validators.wf()
}

/// The head weight plus the equivocating stake of the first `n` committees
/// of `slot` in `head_state`, summed left to right.
pub open spec fn spec_add_committee_weights(
    store: Store,
    justified_state: BeaconState,
    head_state: BeaconState,
    slot: u64,
    base: Gwei,
    n: nat,
) -> Result<Gwei, ForkChoiceError>
    decreases n,
{
    if n == 0 {
        Ok(base)
    } else {
        match spec_add_committee_weights(store, justified_state, head_state, slot, base, (n - 1) as nat) {
            Err(e) => Err(e),
            Ok(total) => match spec_equivocating_weight(
                store,
                justified_state,
                spec_beacon_committee(head_state, slot, (n - 1) as u64),
            ) {
                Err(e) => Err(e),
                Ok(w) => spec_add_weight(total.0, w.0),
            },
        }
    }
}

/// Whether the block at `head_root` is weak: its attestation support, with
/// the equivocating stake of its slot's committees added in, is below the
/// re-org threshold fraction of a committee.
pub open spec fn spec_is_head_weak(store: Store, head_root: Root) -> Result<bool, ForkChoiceError> {
    if !store.checkpoint_states@.contains_key(store.justified_checkpoint) {
        Err(ForkChoiceError::JustifiedStateMissing)
    } else {
        let justified_state = store.checkpoint_states@[store.justified_checkpoint];
        match spec_state_committee_fraction(justified_state, REORG_HEAD_WEIGHT_THRESHOLD) {
            Err(e) => Err(e),
            Ok(threshold) => if !store.block_states@.contains_key(head_root) || !store.blocks@.contains_key(
                head_root,
            ) {
                Err(ForkChoiceError::UnknownBlock(head_root))
            } else {
                let head_state = store.block_states@[head_root];
                let slot = store.blocks@[head_root].slot.0;
                match spec_attestation_score(
                    store,
                    ForkChoiceNode { root: head_root, payload_status: PayloadStatus::Pending },
                    justified_state,
                ) {
                    Err(e) => Err(e),
                    Ok(weight) => {
                        let committees = spec_committee_count(
                            spec_active_indices(head_state.validators@, slot / SLOTS_PER_EPOCH_U64).len(),
                        );
                        match spec_add_committee_weights(
                            store,
                            justified_state,
                            head_state,
                            slot,
                            weight,
                            committees as nat,
                        ) {
                            Err(e) => Err(e),
                            Ok(total) => Ok(total.0 < threshold.0),
                        }
                    },
                }
            },
        }
    }
}

/// Scan the first `n` entries for another block of `proposer` in the slot
/// before `slot` that met the payload-attestation deadline: `Ok(false)` at
/// the first such block, `Ok(true)` when none is found.
pub open spec fn spec_boost_scan(
    store: Store,
    parent_root: Root,
    proposer: ValidatorIndex,
    slot: u64,
    n: nat,
) -> Result<bool, ForkChoiceError>
    decreases n,
{
    if n == 0 {
        Ok(true)
    } else {
        match spec_boost_scan(store, parent_root, proposer, slot, (n - 1) as nat) {
            Err(e) => Err(e),
            Ok(false) => Ok(false),
            Ok(true) => {
                let (root, b) = store.blocks.entries@[n - 1];
                if root == parent_root || b.proposer_index != proposer || b.slot.0 + 1 != slot {
                    Ok(true)
                } else if !store.block_timeliness@.contains_key(root) {
                    Err(ForkChoiceError::MissingBlockTimeliness(root))
                } else {
                    Ok(!store.block_timeliness@[root].payload_attestation_timely)
                }
            },
        }
    }
}

/// Whether the proposer boost counts: withheld only when the boosted block's
/// parent is in the slot just before it, is weak, and its proposer made a
/// second block in that slot that met the payload-attestation deadline.
pub open spec fn spec_should_apply_boost(store: Store) -> Result<bool, ForkChoiceError> {
    let boost_root = store.proposer_boost_root;
    if boost_root.0@ == zeros(32) {
        Ok(false)
    } else if !store.blocks@.contains_key(boost_root) {
        Err(ForkChoiceError::UnknownBlock(boost_root))
    } else {
        let block = store.blocks@[boost_root];
        let parent_root = block.parent_root;
        if !store.blocks@.contains_key(parent_root) {
            Err(ForkChoiceError::UnknownParent(parent_root))
        } else {
            let parent = store.blocks@[parent_root];
            if parent.slot.0 + 1 != block.slot.0 {
                Ok(true)
            } else {
                match spec_is_head_weak(store, parent_root) {
                    Err(e) => Err(e),
                    Ok(false) => Ok(true),
                    Ok(true) => spec_boost_scan(
                        store,
                        parent_root,
                        parent.proposer_index,
                        block.slot.0,
                        store.blocks.entries@.len(),
                    ),
                }
            }
        }
    }
}

/// The fork-choice weight of `node`: zero for a previous-slot payload
/// decision, else its attestation score plus the proposer boost when the
/// boost applies and the boosted block descends from `node`.
pub open spec fn spec_get_weight(store: Store, node: ForkChoiceNode) -> Result<Gwei, ForkChoiceError> {
    match spec_previous_slot_decision(store, node) {
        Err(e) => Err(e),
        Ok(true) => Ok(Gwei(0)),
        Ok(false) => if !store.checkpoint_states@.contains_key(store.justified_checkpoint) {
            Err(ForkChoiceError::JustifiedStateMissing)
        } else {
            let justified_state = store.checkpoint_states@[store.justified_checkpoint];
            match spec_attestation_score(store, node, justified_state) {
                Err(e) => Err(e),
                Ok(score) => match spec_should_apply_boost(store) {
                    Err(e) => Err(e),
                    Ok(false) => Ok(score),
                    Ok(true) => match spec_is_ancestor(
                        store.blocks@,
                        ForkChoiceNode { root: store.proposer_boost_root, payload_status: PayloadStatus::Pending },
                        node,
                    ) {
                        Err(e) => Err(e),
                        Ok(false) => spec_add_weight(score.0, 0),
                        Ok(true) => match spec_state_committee_fraction(justified_state, PROPOSER_SCORE_BOOST) {
                            Err(e) => Err(e),
                            Ok(boost) => spec_add_weight(score.0, boost.0),
                        },
                    },
                },
            }
        },
    }
}

/// The store's justified state, if present, can compute the proposer boost
/// without overflow.
pub open spec fn spec_boost_fits(store: Store) -> bool {
    store.checkpoint_states@.contains_key(store.justified_checkpoint) ==> spec_committee_fraction_fits(
        store.checkpoint_states@[store.justified_checkpoint],
        PROPOSER_SCORE_BOOST,
    )
}

impl Store {
    /// Is `head_root` weak enough that proposer boost could overturn it?
    pub fn is_head_weak(&self, head_root: Root) -> (r: Result<bool, ForkChoiceError>)
        requires
            self.wf(),
            spec_states_wf(*self),
        ensures
            r == spec_is_head_weak(*self, head_root),
    {
        let justified_state = self.get_justified_state()?;
        proof {
            lemma_small_fraction_fits(*justified_state, REORG_HEAD_WEIGHT_THRESHOLD);
        }
        let reorg_threshold = calculate_committee_fraction(justified_state, REORG_HEAD_WEIGHT_THRESHOLD)?;
        let head_state = match self.block_states.get(&head_root) {
            Some(s) => s,
            None => return Err(ForkChoiceError::UnknownBlock(head_root)),
        };
        let head_block = match self.blocks.get(&head_root) {
            Some(b) => b,
            None => return Err(ForkChoiceError::UnknownBlock(head_root)),
        };
        let head_node = ForkChoiceNode::pending(head_root);
        let mut head_weight = self.get_attestation_score(head_node, justified_state)?;
        let epoch = head_block.slot.epoch();
        let committees = head_state.committee_count_per_slot(epoch);
        let ghost base = head_weight;
        let mut index: u64 = 0;
        while index < committees
            invariant
                self.wf(),
                index <= committees,
                head_state.randao_mixes.wf(),
                head_state.validators.wf(),
                committees == spec_committee_count(
                    spec_active_indices(head_state.validators@, head_block.slot.0 / SLOTS_PER_EPOCH_U64).len(),
                ),
                spec_add_committee_weights(
                    *self,
                    *justified_state,
                    *head_state,
                    head_block.slot.0,
                    base,
                    index as nat,
                ) == Ok::<Gwei, ForkChoiceError>(head_weight),
                spec_is_head_weak(*self, head_root) == (match spec_add_committee_weights(
                    *self,
                    *justified_state,
                    *head_state,
                    head_block.slot.0,
                    base,
                    committees as nat,
                ) {
                    Err(e) => Err(e),
                    Ok(total) => Ok(total.0 < reorg_threshold.0),
                }),
            decreases committees - index,
        {
            let step = self.add_committee_weight(justified_state, head_state, head_block.slot, index, head_weight);
            proof {
                lemma_committee_weights_step(
                    *self,
                    *justified_state,
                    *head_state,
                    head_block.slot.0,
                    base,
                    index as nat,
                    head_weight,
                );
            }
            head_weight = match step {
                Ok(w) => w,
                Err(e) => {
                    proof {
                        lemma_committee_weights_error_sticks(
                            *self,
                            *justified_state,
                            *head_state,
                            head_block.slot.0,
                            base,
                            (index + 1) as nat,
                            committees as nat,
                        );
                    }
                    return Err(e);
                },
            };
            index = index + 1;
        }
        Ok(head_weight.0 < reorg_threshold.0)
    }

    /// `total` plus the equivocating stake of committee `index` of `slot`.
    fn add_committee_weight(
        &self,
        justified_state: &BeaconState,
        head_state: &BeaconState,
        slot: Slot,
        index: u64,
        total: Gwei,
    ) -> (r: Result<Gwei, ForkChoiceError>)
        requires
            self.wf(),
            head_state.randao_mixes.wf(),
            head_state.validators.wf(),
            index < spec_committee_count(spec_active_indices(head_state.validators@, slot.0 / SLOTS_PER_EPOCH_U64).len()),
        ensures
            r == (match spec_equivocating_weight(
                *self,
                *justified_state,
                spec_beacon_committee(*head_state, slot.0, index),
            ) {
                Err(e) => Err(e),
                Ok(w) => spec_add_weight(total.0, w.0),
            }),
    {
        let committee = head_state.beacon_committee(slot, CommitteeIndex(index));
        let weight = self.equivocating_committee_weight(justified_state, committee.as_slice())?;
        add_weight(total, weight)
    }

    /// Should the current proposer boost be counted right now?
    pub fn should_apply_proposer_boost(&self) -> (r: Result<bool, ForkChoiceError>)
        requires
            self.wf(),
            spec_states_wf(*self),
        ensures
            r == spec_should_apply_boost(*self),
    {
        if self.proposer_boost_root.is_zero() {
            return Ok(false);
        }
        let block = match self.blocks.get(&self.proposer_boost_root) {
            Some(b) => b,
            None => return Err(ForkChoiceError::UnknownBlock(self.proposer_boost_root)),
        };
        let parent_root = block.parent_root;
        let parent = match self.blocks.get(&parent_root) {
            Some(p) => p,
            None => return Err(ForkChoiceError::UnknownParent(parent_root)),
        };
        let slot = block.slot;
        if !is_next_slot(parent.slot, slot) {
            return Ok(true);
        }
        if !self.is_head_weak(parent_root)? {
            return Ok(true);
        }
        let proposer_index = parent.proposer_index;
        let n = self.blocks.len();
        let mut i: usize = 0;
        while i < n
            invariant
                self.wf(),
                n == self.blocks.entries@.len(),
                i <= n,
                spec_boost_scan(*self, parent_root, proposer_index, slot.0, i as nat) == Ok::<bool, ForkChoiceError>(
                    true,
                ),
                spec_should_apply_boost(*self) == spec_boost_scan(
                    *self,
                    parent_root,
                    proposer_index,
                    slot.0,
                    n as nat,
                ),
            decreases n - i,
        {
            let root = self.blocks.key_at(i);
            let b = self.blocks.value_at(i);
            if root.equals(&parent_root) || b.proposer_index.0 != proposer_index.0 || !is_next_slot(b.slot, slot) {
                i = i + 1;
                continue;
            }
            let timeliness = match self.block_timeliness.get(&root) {
                Some(t) => *t,
                None => {
                    proof {
                        lemma_boost_scan_stops(*self, parent_root, proposer_index, slot.0, (i + 1) as nat, n as nat);
                    }
                    return Err(ForkChoiceError::MissingBlockTimeliness(root));
                },
            };
            if timeliness.payload_attestation_timely {
                proof {
                    lemma_boost_scan_stops(*self, parent_root, proposer_index, slot.0, (i + 1) as nat, n as nat);
                }
                return Ok(false);
            }
            i = i + 1;
        }
        Ok(true)
    }

    /// The total fork-choice weight of `node`: attestation support plus any
    /// applicable proposer boost.
    pub fn get_weight(&self, node: ForkChoiceNode) -> (r: Result<Gwei, ForkChoiceError>)
        requires
            self.wf(),
            spec_states_wf(*self),
            spec_boost_fits(*self),
        ensures
            r == spec_get_weight(*self, node),
    {
        if self.is_previous_slot_payload_decision(node)? {
            return Ok(Gwei(0));
        }
        let state = self.get_justified_state()?;
        let attestation_score = self.get_attestation_score(node, state)?;
        if !self.should_apply_proposer_boost()? {
            return Ok(attestation_score);
        }
        let proposer_boost_node = ForkChoiceNode::pending(self.proposer_boost_root);
        let proposer_score = if self.is_ancestor(proposer_boost_node, node)? {
            self.get_proposer_score()?
        } else {
            Gwei(0)
        };
        add_weight(attestation_score, proposer_score)
    }
}

/// One more committee: the running sum grows by its equivocating stake.
proof fn lemma_committee_weights_step(
    store: Store,
    justified_state: BeaconState,
    head_state: BeaconState,
    slot: u64,
    base: Gwei,
    k: nat,
    total: Gwei,
)
    requires
        spec_add_committee_weights(store, justified_state, head_state, slot, base, k) == Ok::<Gwei, ForkChoiceError>(
            total,
        ),
        k < u64::MAX,
    ensures
        spec_add_committee_weights(store, justified_state, head_state, slot, base, k + 1) == (match spec_equivocating_weight(
            store,
            justified_state,
            spec_beacon_committee(head_state, slot, k as u64),
        ) {
            Err(e) => Err(e),
            Ok(w) => spec_add_weight(total.0, w.0),
        }),
{
    assert(((k + 1) - 1) as nat == k);
}

/// Once adding a prefix of the committees fails, adding more fails the same way.
proof fn lemma_committee_weights_error_sticks(
    store: Store,
    justified_state: BeaconState,
    head_state: BeaconState,
    slot: u64,
    base: Gwei,
    k: nat,
    m: nat,
)
    requires
        k <= m,
        spec_add_committee_weights(store, justified_state, head_state, slot, base, k) is Err,
    ensures
        spec_add_committee_weights(store, justified_state, head_state, slot, base, m)
            == spec_add_committee_weights(store, justified_state, head_state, slot, base, k),
    decreases m - k,
{
    if k < m {
        lemma_committee_weights_error_sticks(store, justified_state, head_state, slot, base, k, (m - 1) as nat);
    }
}

/// Once the scan stops at entry `k`, scanning further gives the same answer.
proof fn lemma_boost_scan_stops(store: Store, parent_root: Root, proposer: ValidatorIndex, slot: u64, k: nat, m: nat)
    requires
        k <= m,
        spec_boost_scan(store, parent_root, proposer, slot, k) != Ok::<bool, ForkChoiceError>(true),
    ensures
        spec_boost_scan(store, parent_root, proposer, slot, m) == spec_boost_scan(store, parent_root, proposer, slot, k),
    decreases m - k,
{
    if k < m {
        lemma_boost_scan_stops(store, parent_root, proposer, slot, k, (m - 1) as nat);
    }
}

} // verus!
