//! Beacon committees: the active validators of an epoch, shuffled by the
//! seeded swap-or-not shuffle and cut into per-slot committees.
use vstd::arithmetic::div_mod::{lemma_div_is_ordered, lemma_div_multiples_vanish};
use vstd::prelude::*;

use crate::constants::{
    EPOCHS_PER_HISTORICAL_VECTOR, MAX_COMMITTEES_PER_SLOT, MIN_SEED_LOOKAHEAD, SHUFFLE_ROUND_COUNT,
    SLOTS_PER_EPOCH_U64, TARGET_COMMITTEE_SIZE, VALIDATOR_REGISTRY_LIMIT,
};
use crate::containers::registry::{lemma_active_indices_bound, spec_active_indices};
use crate::containers::state::BeaconState;
use crate::primitives::{CommitteeIndex, DomainType, Epoch, Slot, ValidatorIndex};
use crate::ssz::basic::{read_u64_le, serialize_u64, spec_u64_from_le, spec_u64_le};
use crate::ssz::merkle::{sha256_digest, spec_sha256};

verus! {

/// The domain type that seeds attester committees.
pub open spec fn spec_domain_beacon_attester() -> Seq<u8> {
    seq![1u8, 0u8, 0u8, 0u8]
}

/// The domain type that seeds attester committees.
pub fn domain_beacon_attester() -> (r: DomainType)
    ensures
        r.0@ == spec_domain_beacon_attester(),
{
    let r = DomainType([1u8, 0u8, 0u8, 0u8]);
    assert(r.0@ =~= spec_domain_beacon_attester());
    r
}

/// The four little-endian bytes of `x` below `2^32`.
pub open spec fn spec_u32_le(x: nat) -> Seq<u8> {
    seq![(x % 256) as u8, ((x / 256) % 256) as u8, ((x / 65536) % 256) as u8, ((x / 16777216) % 256) as u8]
}

/// The seed for `epoch` and `domain`: the hash of the domain, the epoch and
/// the RANDAO mix from `MIN_SEED_LOOKAHEAD + 1` epochs earlier.
pub open spec fn spec_seed(randao_mixes: Seq<[u8; 32]>, epoch: u64, domain: Seq<u8>) -> Seq<u8> {
    let mix_epoch = (epoch + EPOCHS_PER_HISTORICAL_VECTOR - MIN_SEED_LOOKAHEAD - 1) % (
    EPOCHS_PER_HISTORICAL_VECTOR as int);
    spec_sha256(domain + spec_u64_le(epoch) + randao_mixes[mix_epoch]@)
}

/// One round of the swap-or-not shuffle moving position `index` of `count`.
pub open spec fn spec_shuffle_round(index: nat, count: nat, seed: Seq<u8>, round: nat) -> nat {
    let round_byte = seq![round as u8];
    let pivot = spec_u64_from_le(spec_sha256(seed + round_byte).subrange(0, 8)) as nat % count;
    let flip = ((pivot + count - index) as nat) % count;
    let position = if index >= flip {
        index
    } else {
        flip
    };
    let source = spec_sha256(seed + round_byte + spec_u32_le(position / 256));
    let byte = source[((position % 256) / 8) as int];
    if (byte >> ((position % 8) as u8)) % 2 == 1 {
        flip
    } else {
        index
    }
}

/// Where the shuffle sends position `index` of `count` after `rounds` rounds.
pub open spec fn spec_shuffled_index(index: nat, count: nat, seed: Seq<u8>, rounds: nat) -> nat
    decreases rounds,
{
    if rounds == 0 {
        index
    } else {
        spec_shuffle_round(spec_shuffled_index(index, count, seed, (rounds - 1) as nat), count, seed, (rounds - 1) as nat)
    }
}

/// The shuffle keeps positions below the count.
pub proof fn lemma_shuffled_index_bound(index: nat, count: nat, seed: Seq<u8>, rounds: nat)
    requires
        index < count,
    ensures
        spec_shuffled_index(index, count, seed, rounds) < count,
    decreases rounds,
{
    if rounds > 0 {
        lemma_shuffled_index_bound(index, count, seed, (rounds - 1) as nat);
    }
}

/// The number of committees per slot for `active` active validators: one
/// per `TARGET_COMMITTEE_SIZE` validators of a slot, between one and
/// `MAX_COMMITTEES_PER_SLOT`.
pub open spec fn spec_committee_count(active: nat) -> u64 {
    let c = active / (SLOTS_PER_EPOCH_U64 as nat) / (TARGET_COMMITTEE_SIZE as nat);
    if c > MAX_COMMITTEES_PER_SLOT {
        MAX_COMMITTEES_PER_SLOT
    } else if c < 1 {
        1
    } else {
        c as u64
    }
}

/// Committee `index` of `count` cut from the shuffled `indices`.
pub open spec fn spec_committee(indices: Seq<ValidatorIndex>, seed: Seq<u8>, index: nat, count: nat) -> Seq<
    ValidatorIndex,
> {
    let len = indices.len();
    let start = len * index / count;
    let end = len * (index + 1) / count;
    Seq::new(
        (end - start) as nat,
        |k: int| indices[spec_shuffled_index((start + k) as nat, len, seed, SHUFFLE_ROUND_COUNT as nat) as int],
    )
}

/// The beacon committee `index` of `slot` in a state.
pub closed spec fn spec_beacon_committee(state: BeaconState, slot: u64, index: u64) -> Seq<ValidatorIndex> {
    let epoch = slot / SLOTS_PER_EPOCH_U64;
    let active = spec_active_indices(state.validators@, epoch);
    let per_slot = spec_committee_count(active.len());
    spec_committee(
        active,
        spec_seed(state.randao_mixes@, epoch, spec_domain_beacon_attester()),
        ((slot % SLOTS_PER_EPOCH_U64) * per_slot + index) as nat,
        (per_slot * SLOTS_PER_EPOCH_U64) as nat,
    )
}

/// Append the bytes of a 32-byte array.
fn append_bytes32(out: &mut Vec<u8>, bytes: &[u8; 32])
    ensures
        final(out)@ == old(out)@ + bytes@,
{
    let ghost start = out@;
    let mut k: usize = 0;
    while k < 32
        invariant
            k <= 32,
            bytes@.len() == 32,
            out@ == start + bytes@.subrange(0, k as int),
        decreases 32 - k,
    {
        out.push(bytes[k]);
        k = k + 1;
        assert(out@ =~= start + bytes@.subrange(0, k as int));
    }
    assert(bytes@.subrange(0, 32) =~= bytes@);
}

/// Where the swap-or-not shuffle sends position `index` of `index_count`.
fn compute_shuffled_index(index: u64, index_count: u64, seed: &[u8; 32]) -> (r: u64)
    requires
        index < index_count,
        index_count <= VALIDATOR_REGISTRY_LIMIT,
    ensures
        r == spec_shuffled_index(index as nat, index_count as nat, seed@, SHUFFLE_ROUND_COUNT as nat),
        r < index_count,
{
    let mut cur = index;
    let mut round: u64 = 0;
    while round < SHUFFLE_ROUND_COUNT
        invariant
            round <= SHUFFLE_ROUND_COUNT,
            index < index_count <= VALIDATOR_REGISTRY_LIMIT,
            cur < index_count,
            cur == spec_shuffled_index(index as nat, index_count as nat, seed@, round as nat),
        decreases SHUFFLE_ROUND_COUNT - round,
    {
        let round_byte = round as u8;
        let mut pivot_input: Vec<u8> = Vec::new();
        append_bytes32(&mut pivot_input, seed);
        pivot_input.push(round_byte);
        proof {
            assert(pivot_input@ =~= seed@ + seq![round as nat as u8]);
        }
        let pivot_hash = sha256_digest(pivot_input.as_slice());
        let mut pivot_bytes: Vec<u8> = Vec::new();
        append_bytes32(&mut pivot_bytes, &pivot_hash);
        let pivot = read_u64_le(pivot_bytes.as_slice(), 0) % index_count;
        proof {
            assert(pivot_bytes@.subrange(0, 8) =~= pivot_hash@.subrange(0, 8));
        }
        let flip = if pivot >= cur {
            pivot - cur
        } else {
            index_count - (cur - pivot)
        };
        assert(flip == ((pivot + index_count - cur) as nat) % (index_count as nat)) by (nonlinear_arith)
            requires
                pivot < index_count,
                cur < index_count,
                flip == (if pivot >= cur {
                    pivot - cur
                } else {
                    index_count - (cur - pivot)
                }),
        ;
        let position = if cur >= flip {
            cur
        } else {
            flip
        };
        let block = position / 256;
        let mut source_input = pivot_input;
        source_input.push((block % 256) as u8);
        source_input.push(((block / 256) % 256) as u8);
        source_input.push(((block / 65536) % 256) as u8);
        source_input.push(((block / 16777216) % 256) as u8);
        proof {
            assert(source_input@ =~= seed@ + seq![round as nat as u8] + spec_u32_le(position as nat / 256));
        }
        let source = sha256_digest(source_input.as_slice());
        let byte = source[((position % 256) / 8) as usize];
        if (byte >> ((position % 8) as u8)) % 2 == 1 {
            cur = flip;
        }
        round = round + 1;
    }
    cur
}

impl BeaconState {
    /// The seed for `epoch` and `domain_type`.
    pub fn get_seed(&self, epoch: Epoch, domain_type: DomainType) -> (r: [u8; 32])
        requires
            self.randao_mixes.wf(),
        ensures
            r@ == spec_seed(self.randao_mixes@, epoch.0, domain_type.0@),
    {
        let mix_epoch = ((epoch.0 as u128 + (EPOCHS_PER_HISTORICAL_VECTOR - MIN_SEED_LOOKAHEAD - 1) as u128)
            % EPOCHS_PER_HISTORICAL_VECTOR as u128) as usize;
        let mix = &self.randao_mixes.items[mix_epoch];
        let mut input: Vec<u8> = Vec::new();
        input.push(domain_type.0[0]);
        input.push(domain_type.0[1]);
        input.push(domain_type.0[2]);
        input.push(domain_type.0[3]);
        proof {
            assert(input@ =~= domain_type.0@);
        }
        serialize_u64(epoch.0, &mut input);
        append_bytes32(&mut input, mix);
        sha256_digest(input.as_slice())
    }

    /// The number of beacon committees per slot in `epoch`.
    pub fn committee_count_per_slot(&self, epoch: Epoch) -> (r: u64)
        ensures
            r == spec_committee_count(spec_active_indices(self.validators@, epoch.0).len()),
            1 <= r <= MAX_COMMITTEES_PER_SLOT,
    {
        let active = self.active_validator_indices(epoch);
        let c = (active.len() as u64) / SLOTS_PER_EPOCH_U64 / TARGET_COMMITTEE_SIZE;
        if c > MAX_COMMITTEES_PER_SLOT {
            MAX_COMMITTEES_PER_SLOT
        } else if c < 1 {
            1
        } else {
            c
        }
    }

    /// The beacon committee `index` of `slot`.
    pub fn beacon_committee(&self, slot: Slot, index: CommitteeIndex) -> (r: Vec<ValidatorIndex>)
        requires
            self.randao_mixes.wf(),
            self.validators.wf(),
            index.0 < spec_committee_count(
                spec_active_indices(self.validators@, slot.0 / SLOTS_PER_EPOCH_U64).len(),
            ),
        ensures
            r@ == spec_beacon_committee(*self, slot.0, index.0),
    {
        let epoch = slot.epoch();
        let per_slot = self.committee_count_per_slot(epoch);
        let active = self.active_validator_indices(epoch);
        proof {
            lemma_active_indices_bound(self.validators@, epoch.0);
        }
        let seed = self.get_seed(epoch, domain_beacon_attester());
        let count = per_slot * SLOTS_PER_EPOCH_U64;
        assert((slot.0 % SLOTS_PER_EPOCH_U64) * per_slot <= 32 * 64) by (nonlinear_arith)
            requires
                slot.0 % SLOTS_PER_EPOCH_U64 < SLOTS_PER_EPOCH_U64,
                per_slot <= MAX_COMMITTEES_PER_SLOT,
        ;
        let position = (slot.0 % SLOTS_PER_EPOCH_U64) * per_slot + index.0;
        assert(position < count) by (nonlinear_arith)
            requires
                slot.0 % SLOTS_PER_EPOCH_U64 < SLOTS_PER_EPOCH_U64,
                index.0 < per_slot,
                position == (slot.0 % SLOTS_PER_EPOCH_U64) * per_slot + index.0,
                count == per_slot * SLOTS_PER_EPOCH_U64,
        ;
        compute_committee(active.as_slice(), &seed, position, count)
    }
}

/// Committee `index` of `count` cut from the shuffled `indices`.
fn compute_committee(indices: &[ValidatorIndex], seed: &[u8; 32], index: u64, count: u64) -> (r: Vec<ValidatorIndex>)
    requires
        index < count,
        count <= MAX_COMMITTEES_PER_SLOT * SLOTS_PER_EPOCH_U64,
        indices@.len() <= VALIDATOR_REGISTRY_LIMIT,
    ensures
        r@ == spec_committee(indices@, seed@, index as nat, count as nat),
{
    let len = indices.len() as u64;
    proof {
        assert(len * index <= len * (index + 1) <= count * len) by (nonlinear_arith)
            requires
                index + 1 <= count,
        ;
        assert(len * (index + 1) <= VALIDATOR_REGISTRY_LIMIT * (MAX_COMMITTEES_PER_SLOT * SLOTS_PER_EPOCH_U64))
            by (nonlinear_arith)
            requires
                len <= VALIDATOR_REGISTRY_LIMIT,
                index + 1 <= MAX_COMMITTEES_PER_SLOT * SLOTS_PER_EPOCH_U64,
        ;
        lemma_div_is_ordered(len * index, len * (index + 1), count as int);
        lemma_div_is_ordered(len * (index + 1), count * len, count as int);
        lemma_div_multiples_vanish(len as int, count as int);
    }
    let start = len * index / count;
    let end = len * (index + 1) / count;
    let mut out: Vec<ValidatorIndex> = Vec::new();
    let mut i = start;
    while i < end
        invariant
            start <= i <= end <= len,
            len == indices@.len(),
            start as int == (len as int) * (index as int) / (count as int),
            count > 0,
            len <= VALIDATOR_REGISTRY_LIMIT,
            out@ =~= spec_committee(indices@, seed@, index as nat, count as nat).subrange(0, i - start),
            end - start == spec_committee(indices@, seed@, index as nat, count as nat).len(),
        decreases end - i,
    {
        let shuffled = compute_shuffled_index(i, len, seed);
        let ghost committee = spec_committee(indices@, seed@, index as nat, count as nat);
        assert(committee[i - start] == indices@[shuffled as int]);
        out.push(indices[shuffled as usize]);
        i = i + 1;
    }
    out
}


/// Every member of a committee cut from `indices` is one of `indices`.
pub proof fn lemma_committee_members(indices: Seq<ValidatorIndex>, seed: Seq<u8>, index: nat, count: nat)
    requires
        index < count,
    ensures
        forall|j: int|
            0 <= j < spec_committee(indices, seed, index, count).len() ==> indices.contains(
                #[trigger] spec_committee(indices, seed, index, count)[j],
            ),
{
    let len = indices.len();
    let start = len * index / count;
    let end = len * (index + 1) / count;
    let committee = spec_committee(indices, seed, index, count);
    assert(len * (index + 1) <= count * len) by (nonlinear_arith)
        requires
            index + 1 <= count,
    ;
    lemma_div_is_ordered((len * (index + 1)) as int, (count * len) as int, count as int);
    lemma_div_multiples_vanish(len as int, count as int);
    assert(len * index <= len * (index + 1)) by (nonlinear_arith);
    lemma_div_is_ordered((len * index) as int, (len * (index + 1)) as int, count as int);
    assert(start <= end <= len);
    assert forall|j: int| 0 <= j < committee.len() implies indices.contains(#[trigger] committee[j]) by {
        let pos = (start + j) as nat;
        lemma_shuffled_index_bound(pos, len, seed, SHUFFLE_ROUND_COUNT as nat);
        let k = spec_shuffled_index(pos, len, seed, SHUFFLE_ROUND_COUNT as nat) as int;
        assert(indices[k] == committee[j]);
    }
}

/// Every member of a beacon committee is a validator active in the slot's
/// epoch.
pub proof fn lemma_beacon_committee_members_active(state: BeaconState, slot: u64, index: u64)
    requires
        index < spec_committee_count(spec_active_indices(state.validators@, slot / SLOTS_PER_EPOCH_U64).len()),
    ensures
        forall|j: int|
            0 <= j < spec_beacon_committee(state, slot, index).len() ==> spec_active_indices(
                state.validators@,
                slot / SLOTS_PER_EPOCH_U64,
            ).contains(#[trigger] spec_beacon_committee(state, slot, index)[j]),
{
    let epoch = slot / SLOTS_PER_EPOCH_U64;
    let active = spec_active_indices(state.validators@, epoch);
    let per_slot = spec_committee_count(active.len());
    let position = (slot % SLOTS_PER_EPOCH_U64) * per_slot + index;
    let count = per_slot * SLOTS_PER_EPOCH_U64;
    assert(position < count) by (nonlinear_arith)
        requires
            slot % SLOTS_PER_EPOCH_U64 < SLOTS_PER_EPOCH_U64,
            index < per_slot,
            position == (slot % SLOTS_PER_EPOCH_U64) * per_slot + index,
            count == per_slot * SLOTS_PER_EPOCH_U64,
    ;
    let seed = spec_seed(state.randao_mixes@, epoch, spec_domain_beacon_attester());
    lemma_committee_members(active, seed, position as nat, count as nat);
    assert(spec_beacon_committee(state, slot, index) == spec_committee(active, seed, position as nat, count as nat));
}

} // verus!
