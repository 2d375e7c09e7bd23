//! Admitting an attestation into the store: the fork-choice checks on its
//! vote, and recording each attester's latest message.
use vstd::prelude::*;

use crate::constants::{spec_epoch_start_slot, SLOTS_PER_EPOCH_U64};
use crate::containers::attestation::Attestation;
use crate::error::ForkChoiceError;
use crate::primitives::{Root, Slot, ValidatorIndex};

use super::helpers::{is_at_or_after_next_slot, sat_sub, spec_current_slot, spec_epoch_of, spec_get_ancestor};
use super::keyed_map::KeyedMap;
use super::store::{ForkChoiceNode, LatestMessage, PayloadStatus, Store};

verus! {

/// Whether the attestation's target epoch is the store's current or
/// previous epoch.
pub open spec fn spec_target_epoch_ok(store: Store, attestation: Attestation) -> Result<(), ForkChoiceError> {
    let current = spec_epoch_of(spec_current_slot(store));
    let target = attestation.data.target.epoch.0;
    if target != current && target != sat_sub(current, 1) {
        Err(ForkChoiceError::AttestationFromFutureEpoch)
    } else {
        Ok(())
    }
}

/// The fork-choice checks on an attestation, in the order they are made.
pub open spec fn spec_validate_on_attestation(store: Store, attestation: Attestation, is_from_block: bool) -> Result<
    (),
    ForkChoiceError,
> {
    let data = attestation.data;
    let target = data.target;
    let index = data.index.0;
    if !is_from_block && spec_target_epoch_ok(store, attestation) is Err {
        spec_target_epoch_ok(store, attestation)
    } else if target.epoch.0 != data.slot.0 / SLOTS_PER_EPOCH_U64 {
        Err(ForkChoiceError::AttestationLmdFfgMismatch)
    } else if !store.blocks@.contains_key(target.root) {
        Err(ForkChoiceError::UnknownBlock(target.root))
    } else if !store.blocks@.contains_key(data.beacon_block_root) {
        Err(ForkChoiceError::UnknownBlock(data.beacon_block_root))
    } else if store.blocks@[data.beacon_block_root].slot.0 > data.slot.0 {
        Err(ForkChoiceError::AttestationTooEarly)
    } else if index != 0 && index != 1 {
        Err(ForkChoiceError::AttestationIndexInvalid(index))
    } else if store.blocks@[data.beacon_block_root].slot.0 == data.slot.0 && index != 0 {
        Err(ForkChoiceError::AttestationIndexInvalid(index))
    } else if index == 1 && !store.payloads@.contains_key(data.beacon_block_root) {
        Err(ForkChoiceError::AttestationPayloadEnvelopeNotRecorded)
    } else {
        match spec_get_ancestor(
            store.blocks@,
            ForkChoiceNode { root: data.beacon_block_root, payload_status: PayloadStatus::Pending },
            Slot(spec_epoch_start_slot(target.epoch.0)),
        ) {
            Err(e) => Err(e),
            Ok(checkpoint) => if target.root != checkpoint.root {
                Err(ForkChoiceError::AttestationLmdFfgMismatch)
            } else if !(data.slot.0 + 1 <= spec_current_slot(store)) {
                Err(ForkChoiceError::AttestationTooEarly)
            } else {
                Ok(())
            },
        }
    }
}

/// The latest messages after the first `n` of `indices` vote at `slot` for
/// `root`: each one not equivocating takes the new vote unless it already
/// holds a vote from the same or a later slot.
pub open spec fn spec_record_votes(
    messages: Map<ValidatorIndex, LatestMessage>,
    equivocating: Map<ValidatorIndex, ()>,
    indices: Seq<ValidatorIndex>,
    n: nat,
    vote: LatestMessage,
) -> Map<ValidatorIndex, LatestMessage>
    decreases n,
{
    if n == 0 {
        messages
    } else {
        let prev = spec_record_votes(messages, equivocating, indices, (n - 1) as nat, vote);
        let v = indices[n - 1];
        if equivocating.contains_key(v) || (prev.contains_key(v) && vote.slot.0 <= prev[v].slot.0) {
            prev
        } else {
            prev.insert(v, vote)
        }
    }
}

/// The latest message an attestation casts.
pub open spec fn spec_vote_of(attestation: Attestation) -> LatestMessage {
    LatestMessage {
        slot: attestation.data.slot,
        root: attestation.data.beacon_block_root,
        payload_present: attestation.data.index.0 == 1,
    }
}

impl Store {
    /// Reject an attestation whose target epoch is neither the store's
    /// current nor its previous epoch.
    pub fn validate_target_epoch_against_current_time(&self, attestation: &Attestation) -> (r: Result<
        (),
        ForkChoiceError,
    >)
        ensures
            r == spec_target_epoch_ok(*self, *attestation),
    {
        let target_epoch = attestation.data.target.epoch;
        let current_epoch = self.get_current_store_epoch();
        let previous_epoch = current_epoch.saturating_sub(1);
        if target_epoch.0 != current_epoch.0 && target_epoch.0 != previous_epoch.0 {
            return Err(ForkChoiceError::AttestationFromFutureEpoch);
        }
        Ok(())
    }

    /// The fork-choice checks on an attestation: its target epoch is current
    /// (unless it came in a block), target and head agree on the epoch, the
    /// voted block and target are known, the vote is not for a later block,
    /// the branch bit is valid and backed by a recorded payload, the target
    /// is the voted chain's checkpoint, and the attestation's slot is over.
    pub fn validate_on_attestation(&self, attestation: &Attestation, is_from_block: bool) -> (r: Result<
        (),
        ForkChoiceError,
    >)
        requires
            self.wf(),
        ensures
            r == spec_validate_on_attestation(*self, *attestation, is_from_block),
    {
        let data = attestation.data;
        let target = data.target;
        if !is_from_block {
            self.validate_target_epoch_against_current_time(attestation)?;
        }
        if target.epoch.0 != data.slot.epoch().0 {
            return Err(ForkChoiceError::AttestationLmdFfgMismatch);
        }
        if !self.blocks.contains_key(&target.root) {
            return Err(ForkChoiceError::UnknownBlock(target.root));
        }
        let block_slot = match self.blocks.get(&data.beacon_block_root) {
            Some(b) => b.slot,
            None => return Err(ForkChoiceError::UnknownBlock(data.beacon_block_root)),
        };
        if block_slot.0 > data.slot.0 {
            return Err(ForkChoiceError::AttestationTooEarly);
        }
        let index = data.index.0;
        if index != 0 && index != 1 {
            return Err(ForkChoiceError::AttestationIndexInvalid(index));
        }
        if block_slot.0 == data.slot.0 && index != 0 {
            return Err(ForkChoiceError::AttestationIndexInvalid(index));
        }
        if index == 1 && !self.is_payload_verified(data.beacon_block_root) {
            return Err(ForkChoiceError::AttestationPayloadEnvelopeNotRecorded);
        }
        let checkpoint_root = self.get_checkpoint_block(data.beacon_block_root, target.epoch)?;
        if !target.root.equals(&checkpoint_root) {
            return Err(ForkChoiceError::AttestationLmdFfgMismatch);
        }
        if !is_at_or_after_next_slot(data.slot, self.get_current_slot()) {
            return Err(ForkChoiceError::AttestationTooEarly);
        }
        Ok(())
    }

    /// Record the attestation's vote as the latest message of each attester
    /// that has not equivocated and holds no vote from the same or a later slot.
    pub fn update_latest_messages(&mut self, attesting_indices: &[ValidatorIndex], attestation: &Attestation)
        requires
            old(self).wf(),
        ensures
            final(self).wf(),
            final(self).latest_messages@ == spec_record_votes(
                old(self).latest_messages@,
                old(self).equivocating_indices@,
                attesting_indices@,
                attesting_indices@.len(),
                spec_vote_of(*attestation),
            ),
            *final(self) == (Store { latest_messages: final(self).latest_messages, ..*old(self) }),
    {
        let slot = attestation.data.slot;
        let root = attestation.data.beacon_block_root;
        let payload_present = attestation.data.index.0 == 1;
        let vote = LatestMessage { slot, root, payload_present };
        let ghost start = *self;
        let mut i: usize = 0;
        while i < attesting_indices.len()
            invariant
                i <= attesting_indices@.len(),
                self.wf(),
                vote == spec_vote_of(*attestation),
                *self == (Store { latest_messages: self.latest_messages, ..start }),
                self.latest_messages@ == spec_record_votes(
                    start.latest_messages@,
                    start.equivocating_indices@,
                    attesting_indices@,
                    i as nat,
                    vote,
                ),
            decreases attesting_indices@.len() - i,
        {
            let index = attesting_indices[i];
            proof {
                assert(self.equivocating_indices@ == start.equivocating_indices@);
            }
            if !self.equivocating_indices.contains_key(&index) {
                let should_write = match self.latest_messages.get(&index) {
                    None => true,
                    Some(existing) => vote.slot.0 > existing.slot.0,
                };
                if should_write {
                    self.latest_messages.insert(index, vote);
                }
            }
            proof {
                let next = spec_record_votes(
                    start.latest_messages@,
                    start.equivocating_indices@,
                    attesting_indices@,
                    (i + 1) as nat,
                    vote,
                );
                assert(attesting_indices@[i as int] == index);
                assert(self.latest_messages@ =~= next);
            }
            i = i + 1;
        }
        proof {
            assert(*self == (Store { latest_messages: self.latest_messages, ..start }));
        }
    }
}


/// Recording votes never moves a validator's latest message to an earlier
/// slot, never touches an equivocating validator's message, and never drops
/// a validator's message.
pub proof fn lemma_record_votes_monotonic(
    messages: Map<ValidatorIndex, LatestMessage>,
    equivocating: Map<ValidatorIndex, ()>,
    indices: Seq<ValidatorIndex>,
    n: nat,
    vote: LatestMessage,
)
    requires
        n <= indices.len(),
    ensures
        forall|v: ValidatorIndex|
            #[trigger] messages.contains_key(v) ==> spec_record_votes(messages, equivocating, indices, n, vote).contains_key(v)
                && messages[v].slot.0 <= spec_record_votes(messages, equivocating, indices, n, vote)[v].slot.0,
        forall|v: ValidatorIndex|
            #[trigger] equivocating.contains_key(v) ==> spec_record_votes(messages, equivocating, indices, n, vote).contains_key(v)
                == messages.contains_key(v) && (messages.contains_key(v) ==> spec_record_votes(
                messages,
                equivocating,
                indices,
                n,
                vote,
            )[v] == messages[v]),
    decreases n,
{
    if n > 0 {
        lemma_record_votes_monotonic(messages, equivocating, indices, (n - 1) as nat, vote);
    }
}

} // verus!
