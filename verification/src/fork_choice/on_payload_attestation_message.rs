//! Recording payload-timeliness committee votes in the store's per-block
//! vote vectors.
use vstd::prelude::*;

use crate::constants::PTC_SIZE;
use crate::containers::builder::{IndexedPayloadAttestation, PayloadAttestationMessage};
use crate::containers::state::BeaconState;
use crate::error::ForkChoiceError;
use crate::primitives::{Root, ValidatorIndex};
use crate::ssz::List;

use super::store::Store;

verus! {

/// The number of leading positions, among the first `n`, that index into a
/// vote vector of length `len`: the position of the first one out of range,
/// or `n` when all are in range.
pub open spec fn spec_positions_in_range(len: nat, positions: Seq<usize>, n: nat) -> nat
    decreases n,
{
    if n == 0 {
        0
    } else {
        let prev = spec_positions_in_range(len, positions, (n - 1) as nat);
        if prev < n - 1 {
            prev
        } else if positions[n - 1] >= len {
            (n - 1) as nat
        } else {
            n
        }
    }
}

/// `votes` with each of the first `m` positions set to `Some(value)`.
pub open spec fn spec_written_votes(votes: Seq<Option<bool>>, positions: Seq<usize>, m: nat, value: bool) -> Seq<
    Option<bool>,
>
    decreases m,
{
    if m == 0 {
        votes
    } else {
        spec_written_votes(votes, positions, (m - 1) as nat, value).update(positions[m - 1] as int, Some(value))
    }
}

/// Set each listed position of `votes` to `Some(value)`, in order, stopping
/// with an error at the first position past the end; the positions before it
/// stay written.
pub fn write_vote_positions(votes: &mut Vec<Option<bool>>, positions: &[usize], value: bool) -> (r: Result<
    (),
    ForkChoiceError,
>)
    ensures
        ({
            let m = spec_positions_in_range(old(votes)@.len(), positions@, positions@.len());
            &&& final(votes)@ == spec_written_votes(old(votes)@, positions@, m, value)
            &&& if m < positions@.len() {
                r == Err::<(), ForkChoiceError>(ForkChoiceError::PayloadVoteIndexOutOfBounds(positions@[m as int]))
            } else {
                r is Ok
            }
        }),
{
    let ghost start = votes@;
    let mut i: usize = 0;
    while i < positions.len()
        invariant
            i <= positions@.len(),
            start == old(votes)@,
            votes@.len() == start.len(),
            spec_positions_in_range(start.len(), positions@, i as nat) == i,
            votes@ == spec_written_votes(start, positions@, i as nat, value),
        decreases positions@.len() - i,
    {
        let index = positions[i];
        if index >= votes.len() {
            proof {
                lemma_positions_stop(start.len(), positions@, i as nat, positions@.len());
                assert(spec_positions_in_range(start.len(), positions@, positions@.len()) == i);
                assert(positions@[i as int] == index);
            }
            return Err(ForkChoiceError::PayloadVoteIndexOutOfBounds(index));
        }
        votes.set(index, Some(value));
        i = i + 1;
    }
    Ok(())
}

/// Once a position is out of range, the count of leading in-range positions
/// stays where it stopped.
proof fn lemma_positions_stop(len: nat, positions: Seq<usize>, i: nat, m: nat)
    requires
        i < m <= positions.len(),
        spec_positions_in_range(len, positions, i) == i,
        positions[i as int] >= len,
    ensures
        spec_positions_in_range(len, positions, m) == i,
    decreases m - i,
{
    if m > i + 1 {
        lemma_positions_stop(len, positions, i, (m - 1) as nat);
    }
}

/// Copy a vote vector value by value.
fn copy_votes(votes: &Vec<Option<bool>>) -> (r: Vec<Option<bool>>)
    ensures
        r@ == votes@,
{
    let mut out: Vec<Option<bool>> = Vec::new();
    let mut i: usize = 0;
    while i < votes.len()
        invariant
            i <= votes@.len(),
            out@ == votes@.subrange(0, i as int),
        decreases votes@.len() - i,
    {
        out.push(votes[i]);
        i = i + 1;
    }
    assert(votes@.subrange(0, votes@.len() as int) =~= votes@);
    out
}

impl Store {
    /// Record a payload-timeliness vote and a data-availability vote at each
    /// of `positions` for `block_root`. Both vote vectors must exist; the
    /// timeliness vector is written first, and a position past its end stops
    /// the writes with an error before the data-availability vector is touched.
    pub fn record_payload_vote_positions(
        &mut self,
        block_root: Root,
        positions: &[usize],
        payload_present: bool,
        blob_data_available: bool,
    ) -> (r: Result<(), ForkChoiceError>)
        requires
            old(self).wf(),
        ensures
            final(self).wf(),
            !(old(self).payload_timeliness_vote@.contains_key(block_root)
                && old(self).payload_data_availability_vote@.contains_key(block_root)) ==> r == Err::<
                (),
                ForkChoiceError,
            >(ForkChoiceError::PayloadAttestationForUnknownBlock(block_root)) && *final(self) == *old(self),
            old(self).payload_timeliness_vote@.contains_key(block_root)
                && old(self).payload_data_availability_vote@.contains_key(block_root) ==> ({
                let timeliness = old(self).payload_timeliness_vote@[block_root]@;
                let availability = old(self).payload_data_availability_vote@[block_root]@;
                let mt = spec_positions_in_range(timeliness.len(), positions@, positions@.len());
                let ma = spec_positions_in_range(availability.len(), positions@, positions@.len());
                &&& *final(self) == (Store {
                    payload_timeliness_vote: final(self).payload_timeliness_vote,
                    payload_data_availability_vote: final(self).payload_data_availability_vote,
                    ..*old(self)
                })
                &&& final(self).payload_timeliness_vote@.dom() == old(self).payload_timeliness_vote@.dom()
                &&& forall|k: Root|
                    k != block_root && #[trigger] old(self).payload_timeliness_vote@.contains_key(k)
                        ==> final(self).payload_timeliness_vote@[k] == old(self).payload_timeliness_vote@[k]
                &&& final(self).payload_timeliness_vote@[block_root]@ == spec_written_votes(
                    timeliness,
                    positions@,
                    mt,
                    payload_present,
                )
                &&& if mt < positions@.len() {
                    &&& r == Err::<(), ForkChoiceError>(
                        ForkChoiceError::PayloadVoteIndexOutOfBounds(positions@[mt as int]),
                    )
                    &&& final(self).payload_data_availability_vote == old(self).payload_data_availability_vote
                } else {
                    &&& final(self).payload_data_availability_vote@.dom()
                        == old(self).payload_data_availability_vote@.dom()
                    &&& forall|k: Root|
                        k != block_root && #[trigger] old(self).payload_data_availability_vote@.contains_key(k)
                            ==> final(self).payload_data_availability_vote@[k]
                            == old(self).payload_data_availability_vote@[k]
                    &&& final(self).payload_data_availability_vote@[block_root]@ == spec_written_votes(
                        availability,
                        positions@,
                        ma,
                        blob_data_available,
                    )
                    &&& if ma < positions@.len() {
                        r == Err::<(), ForkChoiceError>(
                            ForkChoiceError::PayloadVoteIndexOutOfBounds(positions@[ma as int]),
                        )
                    } else {
                        r is Ok
                    }
                }
            }),
    {
        let mut timeliness_votes = match self.payload_timeliness_vote.get(&block_root) {
            Some(v) => copy_votes(v),
            None => return Err(ForkChoiceError::PayloadAttestationForUnknownBlock(block_root)),
        };
        let mut availability_votes = match self.payload_data_availability_vote.get(&block_root) {
            Some(v) => copy_votes(v),
            None => return Err(ForkChoiceError::PayloadAttestationForUnknownBlock(block_root)),
        };
        let written = write_vote_positions(&mut timeliness_votes, positions, payload_present);
        self.payload_timeliness_vote.insert(block_root, timeliness_votes);
        if written.is_err() {
            return written;
        }
        let written = write_vote_positions(&mut availability_votes, positions, blob_data_available);
        self.payload_data_availability_vote.insert(block_root, availability_votes);
        written
    }
}

/// The positions, among the first `n` of `ptc`, that `validator` holds, in
/// increasing order.
pub open spec fn spec_ptc_positions(ptc: Seq<ValidatorIndex>, validator: ValidatorIndex, n: nat) -> Seq<usize>
    decreases n,
{
    if n == 0 {
        Seq::empty()
    } else {
        let prev = spec_ptc_positions(ptc, validator, (n - 1) as nat);
        if ptc[n - 1] == validator {
            prev.push((n - 1) as usize)
        } else {
            prev
        }
    }
}

/// The payload-timeliness committee positions `validator_index` holds in the
/// committee of a slot, found at `bucket_index` of the state's committee
/// window (the slot's place in the window, which the state transition
/// computes): every position it holds, in increasing order. A bucket past
/// the window and a validator outside the committee are errors.
pub fn ptc_positions_for_validator(
    state: &BeaconState,
    bucket_index: usize,
    validator_index: ValidatorIndex,
) -> (r: Result<Vec<usize>, ForkChoiceError>)
    ensures
        bucket_index >= state.ptc_window@.len() ==> r == Err::<Vec<usize>, ForkChoiceError>(
            ForkChoiceError::PayloadAttestationSlotOutOfWindow,
        ),
        bucket_index < state.ptc_window@.len() ==> ({
            let ptc = state.ptc_window@[bucket_index as int]@;
            let positions = spec_ptc_positions(ptc, validator_index, ptc.len());
            if positions.len() == 0 {
                r == Err::<Vec<usize>, ForkChoiceError>(ForkChoiceError::PayloadAttestationValidatorNotInPtc)
            } else {
                r matches Ok(v) && v@ == positions
            }
        }),
{
    let ptc = match state.ptc_window.get(bucket_index) {
        Some(ptc) => ptc,
        None => return Err(ForkChoiceError::PayloadAttestationSlotOutOfWindow),
    };
    let members = ptc.as_slice();
    let mut positions: Vec<usize> = Vec::new();
    let mut j: usize = 0;
    while j < members.len()
        invariant
            j <= members@.len(),
            members@ == ptc@,
            positions@ == spec_ptc_positions(ptc@, validator_index, j as nat),
        decreases members@.len() - j,
    {
        if members[j].0 == validator_index.0 {
            positions.push(j);
        }
        j = j + 1;
    }
    if positions.len() == 0 {
        return Err(ForkChoiceError::PayloadAttestationValidatorNotInPtc);
    }
    Ok(positions)
}

/// The single-participant indexed payload attestation of one message.
pub fn build_single_indexed(msg: &PayloadAttestationMessage) -> (r: Result<
    IndexedPayloadAttestation,
    ForkChoiceError,
>)
    ensures
        r matches Ok(indexed) && indexed.attesting_indices@ == seq![msg.validator_index] && indexed.data == msg.data
            && indexed.signature == msg.signature,
{
    let mut indices: List<ValidatorIndex, PTC_SIZE> = List::new();
    match indices.push(msg.validator_index) {
        Ok(()) => {},
        Err(_) => return Err(ForkChoiceError::PayloadAttestationParticipantsFull),
    }
    assert(indices@ =~= seq![msg.validator_index]);
    Ok(IndexedPayloadAttestation { attesting_indices: indices, data: msg.data, signature: msg.signature })
}

} // verus!
