//! Sync committees, sync aggregates and sync contributions.
use vstd::prelude::*;
use vstd::slice::slice_subrange;

use crate::ssz::basic::{
    bool_byte, bytes_is_variable_size, bytes_size_hint, deserialize_bool, deserialize_bytes,
    deserialize_u64, deserialize_u8, hash_tree_root_bool, hash_tree_root_bytes,
    hash_tree_root_u64, hash_tree_root_u8, lemma_u64_from_le_roundtrip, lemma_u64_le_injective,
    serialize_bool, serialize_bytes, serialize_u64, serialize_u8, spec_bool_root,
    spec_u64_le, spec_u64_root, spec_u8_root, u64_is_variable_size, u64_size_hint,
    u8_is_variable_size, u8_size_hint,
};
use crate::ssz::error::{length_error, wrong_length};
use crate::ssz::merkle::{merkleize_roots, roots_view, spec_merkleize, spec_merkleize_bytes};
use crate::ssz::{DeserializeError, MerkleizationError, Node, SerializeError};
use crate::constants::SYNC_COMMITTEE_SIZE;
use crate::primitives::{BLSPubkey, BLSSignature, Root, Slot, ValidatorIndex};
use crate::ssz::Vector;

verus! {

/// Aggregate sync-committee signature with its participation bits.
#[derive(Debug, Clone, Copy, PartialEq, Eq)]
pub struct SyncAggregate {
    /// Bit per committee member (packed little-endian), set if the member's signature is included.
    pub sync_committee_bits: [u8; 64],
    /// Aggregate signature of the participating committee members.
    pub sync_committee_signature: BLSSignature,
}

impl SyncAggregate {
    /// The SSZ encoding: the fields' encodings in order.
    pub open spec fn spec_ssz(self) -> Seq<u8> {
        self.sync_committee_bits@
            + self.sync_committee_signature.spec_ssz()
    }

    /// The hash-tree-roots of the fields in order.
    pub open spec fn spec_field_roots(self) -> Seq<Seq<u8>> {
        seq![
            spec_merkleize_bytes(self.sync_committee_bits@),
            self.sync_committee_signature.spec_root(),
        ]
    }

    /// The hash-tree-root: the merkle root of the field roots.
    pub open spec fn spec_root(self) -> Seq<u8> {
        spec_merkleize(self.spec_field_roots())
    }

    /// Whether `bytes` is the encoding of some value.
    pub open spec fn spec_valid_ssz(bytes: Seq<u8>) -> bool {
        bytes.len() == 160
    }

    /// A container is variable-size when any field is.
    pub fn is_variable_size() -> (r: bool)
        ensures
            !r,
    {
        bytes_is_variable_size::<64>()
            || BLSSignature::is_variable_size()
    }

    /// The encoded size: the sum of the field sizes.
    pub fn size_hint() -> (r: usize)
        ensures
            r == 160,
    {
        bytes_size_hint::<64>()
            + BLSSignature::size_hint()
    }

    /// Append the encoding of every field in order.
    pub fn serialize(&self, buffer: &mut Vec<u8>) -> (r: Result<usize, SerializeError>)
        ensures
            r == Ok::<usize, SerializeError>(160),
            final(buffer)@ == old(buffer)@ + self.spec_ssz(),
    {
        let _ = serialize_bytes(&self.sync_committee_bits, buffer);
        let _ = self.sync_committee_signature.serialize(buffer);
        assert(buffer@ =~= old(buffer)@ + self.spec_ssz());
        Ok(160)
    }

    /// Decode every field from its fixed position in exactly 160 bytes.
    pub fn deserialize(encoding: &[u8]) -> (r: Result<Self, DeserializeError>)
        ensures
            r is Ok <==> Self::spec_valid_ssz(encoding@),
            r matches Ok(v) ==> v.spec_ssz() == encoding@,
            r matches Err(e) ==> e == length_error(encoding@.len() as usize, 160),
    {
        if encoding.len() != 160 {
            return Err(wrong_length(encoding.len(), 160));
        }
        let sync_committee_bits = deserialize_bytes::<64>(slice_subrange(encoding, 0, 64))?;
        let sync_committee_signature = BLSSignature::deserialize(slice_subrange(encoding, 64, 160))?;
        let v = SyncAggregate { sync_committee_bits, sync_committee_signature };
        proof {

            assert(v.spec_ssz() =~= encoding@);
        }
        Ok(v)
    }

    /// The merkle root of the field roots.
    pub fn hash_tree_root(&self) -> (r: Result<Node, MerkleizationError>)
        ensures
            r matches Ok(n) && n.0@ == self.spec_root(),
    {
        let r0 = hash_tree_root_bytes(&self.sync_committee_bits)?;
        let r1 = self.sync_committee_signature.hash_tree_root()?;
        let roots = [r0, r1];
        assert(roots_view(roots@) =~= self.spec_field_roots());
        Ok(merkleize_roots(roots.as_slice()))
    }

    /// A container is a composite type.
    pub fn is_composite_type() -> (r: bool)
        ensures
            r,
    {
        true
    }
}

/// The encoding of a `SyncAggregate` is 160 bytes long.
pub proof fn lemma_sync_aggregate_ssz_len(x: SyncAggregate)
    ensures
        x.spec_ssz().len() == 160,
{

}

/// Distinct `SyncAggregate` values have distinct encodings.
pub proof fn lemma_sync_aggregate_ssz_injective(a: SyncAggregate, b: SyncAggregate)
    requires
        a.spec_ssz() == b.spec_ssz(),
    ensures
        a == b,
{
    lemma_sync_aggregate_ssz_len(a);
    assert(a.spec_ssz().subrange(0, 64) =~= a.sync_committee_bits@);
    assert(b.spec_ssz().subrange(0, 64) =~= b.sync_committee_bits@);
    assert(a.sync_committee_bits =~= b.sync_committee_bits);
    assert(a.spec_ssz().subrange(64, 160) =~= a.sync_committee_signature.spec_ssz());
    assert(b.spec_ssz().subrange(64, 160) =~= b.sync_committee_signature.spec_ssz());
    assert(a.sync_committee_signature.0 =~= b.sync_committee_signature.0);
}

/// Encoding then decoding a `SyncAggregate` gives it back: its encoding is accepted
/// by the decoder, and no other value has the same encoding.
pub proof fn lemma_sync_aggregate_ssz_roundtrip(x: SyncAggregate)
    ensures
        SyncAggregate::spec_valid_ssz(x.spec_ssz()),
        forall|y: SyncAggregate| #[trigger] y.spec_ssz() == x.spec_ssz() ==> y == x,
{
    lemma_sync_aggregate_ssz_len(x);

    assert forall|y: SyncAggregate| #[trigger] y.spec_ssz() == x.spec_ssz() implies y == x by {
        lemma_sync_aggregate_ssz_injective(y, x);
    }
}

/// One sync-committee member's signature over a block root.
#[derive(Default, Debug, Clone, Copy, PartialEq, Eq)]
pub struct SyncCommitteeMessage {
    /// Slot the message signs for.
    pub slot: Slot,
    /// Block root being signed.
    pub beacon_block_root: Root,
    /// Validator that produced the message.
    pub validator_index: ValidatorIndex,
    /// Validator signature over the sync message.
    pub signature: BLSSignature,
}

impl SyncCommitteeMessage {
    /// The SSZ encoding: the fields' encodings in order.
    pub open spec fn spec_ssz(self) -> Seq<u8> {
        self.slot.spec_ssz()
            + self.beacon_block_root.spec_ssz()
            + self.validator_index.spec_ssz()
            + self.signature.spec_ssz()
    }

    /// The hash-tree-roots of the fields in order.
    pub open spec fn spec_field_roots(self) -> Seq<Seq<u8>> {
        seq![
            self.slot.spec_root(),
            self.beacon_block_root.spec_root(),
            self.validator_index.spec_root(),
            self.signature.spec_root(),
        ]
    }

    /// The hash-tree-root: the merkle root of the field roots.
    pub open spec fn spec_root(self) -> Seq<u8> {
        spec_merkleize(self.spec_field_roots())
    }

    /// Whether `bytes` is the encoding of some value.
    pub open spec fn spec_valid_ssz(bytes: Seq<u8>) -> bool {
        bytes.len() == 144
    }

    /// A container is variable-size when any field is.
    pub fn is_variable_size() -> (r: bool)
        ensures
            !r,
    {
        Slot::is_variable_size()
            || Root::is_variable_size()
            || ValidatorIndex::is_variable_size()
            || BLSSignature::is_variable_size()
    }

    /// The encoded size: the sum of the field sizes.
    pub fn size_hint() -> (r: usize)
        ensures
            r == 144,
    {
        Slot::size_hint()
            + Root::size_hint()
            + ValidatorIndex::size_hint()
            + BLSSignature::size_hint()
    }

    /// Append the encoding of every field in order.
    pub fn serialize(&self, buffer: &mut Vec<u8>) -> (r: Result<usize, SerializeError>)
        ensures
            r == Ok::<usize, SerializeError>(144),
            final(buffer)@ == old(buffer)@ + self.spec_ssz(),
    {
        let _ = self.slot.serialize(buffer);
        let _ = self.beacon_block_root.serialize(buffer);
        let _ = self.validator_index.serialize(buffer);
        let _ = self.signature.serialize(buffer);
        assert(buffer@ =~= old(buffer)@ + self.spec_ssz());
        Ok(144)
    }

    /// Decode every field from its fixed position in exactly 144 bytes.
    pub fn deserialize(encoding: &[u8]) -> (r: Result<Self, DeserializeError>)
        ensures
            r is Ok <==> Self::spec_valid_ssz(encoding@),
            r matches Ok(v) ==> v.spec_ssz() == encoding@,
            r matches Err(e) ==> e == length_error(encoding@.len() as usize, 144),
    {
        if encoding.len() != 144 {
            return Err(wrong_length(encoding.len(), 144));
        }
        let slot = Slot::deserialize(slice_subrange(encoding, 0, 8))?;
        let beacon_block_root = Root::deserialize(slice_subrange(encoding, 8, 40))?;
        let validator_index = ValidatorIndex::deserialize(slice_subrange(encoding, 40, 48))?;
        let signature = BLSSignature::deserialize(slice_subrange(encoding, 48, 144))?;
        let v = SyncCommitteeMessage { slot, beacon_block_root, validator_index, signature };
        proof {
            lemma_u64_from_le_roundtrip(encoding@.subrange(0, 8));
            lemma_u64_from_le_roundtrip(encoding@.subrange(40, 48));
            assert(v.spec_ssz() =~= encoding@);
        }
        Ok(v)
    }

    /// The merkle root of the field roots.
    pub fn hash_tree_root(&self) -> (r: Result<Node, MerkleizationError>)
        ensures
            r matches Ok(n) && n.0@ == self.spec_root(),
    {
        let r0 = self.slot.hash_tree_root()?;
        let r1 = self.beacon_block_root.hash_tree_root()?;
        let r2 = self.validator_index.hash_tree_root()?;
        let r3 = self.signature.hash_tree_root()?;
        let roots = [r0, r1, r2, r3];
        assert(roots_view(roots@) =~= self.spec_field_roots());
        Ok(merkleize_roots(roots.as_slice()))
    }

    /// A container is a composite type.
    pub fn is_composite_type() -> (r: bool)
        ensures
            r,
    {
        true
    }
}

/// The encoding of a `SyncCommitteeMessage` is 144 bytes long.
pub proof fn lemma_sync_committee_message_ssz_len(x: SyncCommitteeMessage)
    ensures
        x.spec_ssz().len() == 144,
{

}

/// Distinct `SyncCommitteeMessage` values have distinct encodings.
pub proof fn lemma_sync_committee_message_ssz_injective(a: SyncCommitteeMessage, b: SyncCommitteeMessage)
    requires
        a.spec_ssz() == b.spec_ssz(),
    ensures
        a == b,
{
    lemma_sync_committee_message_ssz_len(a);
    assert(a.spec_ssz().subrange(0, 8) =~= a.slot.spec_ssz());
    assert(b.spec_ssz().subrange(0, 8) =~= b.slot.spec_ssz());
    lemma_u64_le_injective(a.slot.0, b.slot.0);
    assert(a.spec_ssz().subrange(8, 40) =~= a.beacon_block_root.spec_ssz());
    assert(b.spec_ssz().subrange(8, 40) =~= b.beacon_block_root.spec_ssz());
    assert(a.beacon_block_root.0 =~= b.beacon_block_root.0);
    assert(a.spec_ssz().subrange(40, 48) =~= a.validator_index.spec_ssz());
    assert(b.spec_ssz().subrange(40, 48) =~= b.validator_index.spec_ssz());
    lemma_u64_le_injective(a.validator_index.0, b.validator_index.0);
    assert(a.spec_ssz().subrange(48, 144) =~= a.signature.spec_ssz());
    assert(b.spec_ssz().subrange(48, 144) =~= b.signature.spec_ssz());
    assert(a.signature.0 =~= b.signature.0);
}

/// Encoding then decoding a `SyncCommitteeMessage` gives it back: its encoding is accepted
/// by the decoder, and no other value has the same encoding.
pub proof fn lemma_sync_committee_message_ssz_roundtrip(x: SyncCommitteeMessage)
    ensures
        SyncCommitteeMessage::spec_valid_ssz(x.spec_ssz()),
        forall|y: SyncCommitteeMessage| #[trigger] y.spec_ssz() == x.spec_ssz() ==> y == x,
{
    lemma_sync_committee_message_ssz_len(x);

    assert forall|y: SyncCommitteeMessage| #[trigger] y.spec_ssz() == x.spec_ssz() implies y == x by {
        lemma_sync_committee_message_ssz_injective(y, x);
    }
}

/// A sync subcommittee's aggregated contribution.
#[derive(Default, Debug, Clone, Copy, PartialEq, Eq)]
pub struct SyncCommitteeContribution {
    /// Slot the contribution signs for.
    pub slot: Slot,
    /// Block root being signed.
    pub beacon_block_root: Root,
    /// Sync subcommittee index.
    pub subcommittee_index: u64,
    /// Participation bits for this subcommittee (packed little-endian).
    pub aggregation_bits: [u8; 16],
    /// Aggregate signature for participating subcommittee members.
    pub signature: BLSSignature,
}

impl SyncCommitteeContribution {
    /// The SSZ encoding: the fields' encodings in order.
    pub open spec fn spec_ssz(self) -> Seq<u8> {
        self.slot.spec_ssz()
            + self.beacon_block_root.spec_ssz()
            + spec_u64_le(self.subcommittee_index)
            + self.aggregation_bits@
            + self.signature.spec_ssz()
    }

    /// The hash-tree-roots of the fields in order.
    pub open spec fn spec_field_roots(self) -> Seq<Seq<u8>> {
        seq![
            self.slot.spec_root(),
            self.beacon_block_root.spec_root(),
            spec_u64_root(self.subcommittee_index),
            spec_merkleize_bytes(self.aggregation_bits@),
            self.signature.spec_root(),
        ]
    }

    /// The hash-tree-root: the merkle root of the field roots.
    pub open spec fn spec_root(self) -> Seq<u8> {
        spec_merkleize(self.spec_field_roots())
    }

    /// Whether `bytes` is the encoding of some value.
    pub open spec fn spec_valid_ssz(bytes: Seq<u8>) -> bool {
        bytes.len() == 160
    }

    /// A container is variable-size when any field is.
    pub fn is_variable_size() -> (r: bool)
        ensures
            !r,
    {
        Slot::is_variable_size()
            || Root::is_variable_size()
            || u64_is_variable_size()
            || bytes_is_variable_size::<16>()
            || BLSSignature::is_variable_size()
    }

    /// The encoded size: the sum of the field sizes.
    pub fn size_hint() -> (r: usize)
        ensures
            r == 160,
    {
        Slot::size_hint()
            + Root::size_hint()
            + u64_size_hint()
            + bytes_size_hint::<16>()
            + BLSSignature::size_hint()
    }

    /// Append the encoding of every field in order.
    pub fn serialize(&self, buffer: &mut Vec<u8>) -> (r: Result<usize, SerializeError>)
        ensures
            r == Ok::<usize, SerializeError>(160),
            final(buffer)@ == old(buffer)@ + self.spec_ssz(),
    {
        let _ = self.slot.serialize(buffer);
        let _ = self.beacon_block_root.serialize(buffer);
        let _ = serialize_u64(self.subcommittee_index, buffer);
        let _ = serialize_bytes(&self.aggregation_bits, buffer);
        let _ = self.signature.serialize(buffer);
        assert(buffer@ =~= old(buffer)@ + self.spec_ssz());
        Ok(160)
    }

    /// Decode every field from its fixed position in exactly 160 bytes.
    pub fn deserialize(encoding: &[u8]) -> (r: Result<Self, DeserializeError>)
        ensures
            r is Ok <==> Self::spec_valid_ssz(encoding@),
            r matches Ok(v) ==> v.spec_ssz() == encoding@,
            r matches Err(e) ==> e == length_error(encoding@.len() as usize, 160),
    {
        if encoding.len() != 160 {
            return Err(wrong_length(encoding.len(), 160));
        }
        let slot = Slot::deserialize(slice_subrange(encoding, 0, 8))?;
        let beacon_block_root = Root::deserialize(slice_subrange(encoding, 8, 40))?;
        let subcommittee_index = deserialize_u64(slice_subrange(encoding, 40, 48))?;
        let aggregation_bits = deserialize_bytes::<16>(slice_subrange(encoding, 48, 64))?;
        let signature = BLSSignature::deserialize(slice_subrange(encoding, 64, 160))?;
        let v = SyncCommitteeContribution { slot, beacon_block_root, subcommittee_index, aggregation_bits, signature };
        proof {
            lemma_u64_from_le_roundtrip(encoding@.subrange(0, 8));
            lemma_u64_from_le_roundtrip(encoding@.subrange(40, 48));
            assert(v.spec_ssz() =~= encoding@);
        }
        Ok(v)
    }

    /// The merkle root of the field roots.
    pub fn hash_tree_root(&self) -> (r: Result<Node, MerkleizationError>)
        ensures
            r matches Ok(n) && n.0@ == self.spec_root(),
    {
        let r0 = self.slot.hash_tree_root()?;
        let r1 = self.beacon_block_root.hash_tree_root()?;
        let r2 = hash_tree_root_u64(self.subcommittee_index)?;
        let r3 = hash_tree_root_bytes(&self.aggregation_bits)?;
        let r4 = self.signature.hash_tree_root()?;
        let roots = [r0, r1, r2, r3, r4];
        assert(roots_view(roots@) =~= self.spec_field_roots());
        Ok(merkleize_roots(roots.as_slice()))
    }

    /// A container is a composite type.
    pub fn is_composite_type() -> (r: bool)
        ensures
            r,
    {
        true
    }
}

/// The encoding of a `SyncCommitteeContribution` is 160 bytes long.
pub proof fn lemma_sync_committee_contribution_ssz_len(x: SyncCommitteeContribution)
    ensures
        x.spec_ssz().len() == 160,
{

}

/// Distinct `SyncCommitteeContribution` values have distinct encodings.
pub proof fn lemma_sync_committee_contribution_ssz_injective(a: SyncCommitteeContribution, b: SyncCommitteeContribution)
    requires
        a.spec_ssz() == b.spec_ssz(),
    ensures
        a == b,
{
    lemma_sync_committee_contribution_ssz_len(a);
    assert(a.spec_ssz().subrange(0, 8) =~= a.slot.spec_ssz());
    assert(b.spec_ssz().subrange(0, 8) =~= b.slot.spec_ssz());
    lemma_u64_le_injective(a.slot.0, b.slot.0);
    assert(a.spec_ssz().subrange(8, 40) =~= a.beacon_block_root.spec_ssz());
    assert(b.spec_ssz().subrange(8, 40) =~= b.beacon_block_root.spec_ssz());
    assert(a.beacon_block_root.0 =~= b.beacon_block_root.0);
    assert(a.spec_ssz().subrange(40, 48) =~= spec_u64_le(a.subcommittee_index));
    assert(b.spec_ssz().subrange(40, 48) =~= spec_u64_le(b.subcommittee_index));
    lemma_u64_le_injective(a.subcommittee_index, b.subcommittee_index);
    assert(a.spec_ssz().subrange(48, 64) =~= a.aggregation_bits@);
    assert(b.spec_ssz().subrange(48, 64) =~= b.aggregation_bits@);
    assert(a.aggregation_bits =~= b.aggregation_bits);
    assert(a.spec_ssz().subrange(64, 160) =~= a.signature.spec_ssz());
    assert(b.spec_ssz().subrange(64, 160) =~= b.signature.spec_ssz());
    assert(a.signature.0 =~= b.signature.0);
}

/// Encoding then decoding a `SyncCommitteeContribution` gives it back: its encoding is accepted
/// by the decoder, and no other value has the same encoding.
pub proof fn lemma_sync_committee_contribution_ssz_roundtrip(x: SyncCommitteeContribution)
    ensures
        SyncCommitteeContribution::spec_valid_ssz(x.spec_ssz()),
        forall|y: SyncCommitteeContribution| #[trigger] y.spec_ssz() == x.spec_ssz() ==> y == x,
{
    lemma_sync_committee_contribution_ssz_len(x);

    assert forall|y: SyncCommitteeContribution| #[trigger] y.spec_ssz() == x.spec_ssz() implies y == x by {
        lemma_sync_committee_contribution_ssz_injective(y, x);
    }
}

/// A sync contribution with the aggregator's selection proof.
#[derive(Default, Debug, Clone, Copy, PartialEq, Eq)]
pub struct ContributionAndProof {
    /// Validator that aggregated the contribution.
    pub aggregator_index: ValidatorIndex,
    /// Aggregated sync contribution.
    pub contribution: SyncCommitteeContribution,
    /// Signature proving the validator was selected to aggregate.
    pub selection_proof: BLSSignature,
}

impl ContributionAndProof {
    /// The SSZ encoding: the fields' encodings in order.
    pub open spec fn spec_ssz(self) -> Seq<u8> {
        self.aggregator_index.spec_ssz()
            + self.contribution.spec_ssz()
            + self.selection_proof.spec_ssz()
    }

    /// The hash-tree-roots of the fields in order.
    pub open spec fn spec_field_roots(self) -> Seq<Seq<u8>> {
        seq![
            self.aggregator_index.spec_root(),
            self.contribution.spec_root(),
            self.selection_proof.spec_root(),
        ]
    }

    /// The hash-tree-root: the merkle root of the field roots.
    pub open spec fn spec_root(self) -> Seq<u8> {
        spec_merkleize(self.spec_field_roots())
    }

    /// Whether `bytes` is the encoding of some value.
    pub open spec fn spec_valid_ssz(bytes: Seq<u8>) -> bool {
        bytes.len() == 264
    }

    /// A container is variable-size when any field is.
    pub fn is_variable_size() -> (r: bool)
        ensures
            !r,
    {
        ValidatorIndex::is_variable_size()
            || SyncCommitteeContribution::is_variable_size()
            || BLSSignature::is_variable_size()
    }

    /// The encoded size: the sum of the field sizes.
    pub fn size_hint() -> (r: usize)
        ensures
            r == 264,
    {
        ValidatorIndex::size_hint()
            + SyncCommitteeContribution::size_hint()
            + BLSSignature::size_hint()
    }

    /// Append the encoding of every field in order.
    pub fn serialize(&self, buffer: &mut Vec<u8>) -> (r: Result<usize, SerializeError>)
        ensures
            r == Ok::<usize, SerializeError>(264),
            final(buffer)@ == old(buffer)@ + self.spec_ssz(),
    {
        let _ = self.aggregator_index.serialize(buffer);
        let _ = self.contribution.serialize(buffer);
        let _ = self.selection_proof.serialize(buffer);
        assert(buffer@ =~= old(buffer)@ + self.spec_ssz());
        Ok(264)
    }

    /// Decode every field from its fixed position in exactly 264 bytes.
    pub fn deserialize(encoding: &[u8]) -> (r: Result<Self, DeserializeError>)
        ensures
            r is Ok <==> Self::spec_valid_ssz(encoding@),
            r matches Ok(v) ==> v.spec_ssz() == encoding@,
            r matches Err(e) ==> e == length_error(encoding@.len() as usize, 264),
    {
        if encoding.len() != 264 {
            return Err(wrong_length(encoding.len(), 264));
        }
        let aggregator_index = ValidatorIndex::deserialize(slice_subrange(encoding, 0, 8))?;
        let contribution = SyncCommitteeContribution::deserialize(slice_subrange(encoding, 8, 168))?;
        let selection_proof = BLSSignature::deserialize(slice_subrange(encoding, 168, 264))?;
        let v = ContributionAndProof { aggregator_index, contribution, selection_proof };
        proof {
            lemma_u64_from_le_roundtrip(encoding@.subrange(0, 8));
            lemma_sync_committee_contribution_ssz_len(contribution);
            assert(v.spec_ssz() =~= encoding@);
        }
        Ok(v)
    }

    /// The merkle root of the field roots.
    pub fn hash_tree_root(&self) -> (r: Result<Node, MerkleizationError>)
        ensures
            r matches Ok(n) && n.0@ == self.spec_root(),
    {
        let r0 = self.aggregator_index.hash_tree_root()?;
        let r1 = self.contribution.hash_tree_root()?;
        let r2 = self.selection_proof.hash_tree_root()?;
        let roots = [r0, r1, r2];
        assert(roots_view(roots@) =~= self.spec_field_roots());
        Ok(merkleize_roots(roots.as_slice()))
    }

    /// A container is a composite type.
    pub fn is_composite_type() -> (r: bool)
        ensures
            r,
    {
        true
    }
}

/// The encoding of a `ContributionAndProof` is 264 bytes long.
pub proof fn lemma_contribution_and_proof_ssz_len(x: ContributionAndProof)
    ensures
        x.spec_ssz().len() == 264,
{
    lemma_sync_committee_contribution_ssz_len(x.contribution);
}

/// Distinct `ContributionAndProof` values have distinct encodings.
pub proof fn lemma_contribution_and_proof_ssz_injective(a: ContributionAndProof, b: ContributionAndProof)
    requires
        a.spec_ssz() == b.spec_ssz(),
    ensures
        a == b,
{
    lemma_contribution_and_proof_ssz_len(a);
    lemma_sync_committee_contribution_ssz_len(a.contribution);
    lemma_sync_committee_contribution_ssz_len(b.contribution);
    assert(a.spec_ssz().subrange(0, 8) =~= a.aggregator_index.spec_ssz());
    assert(b.spec_ssz().subrange(0, 8) =~= b.aggregator_index.spec_ssz());
    lemma_u64_le_injective(a.aggregator_index.0, b.aggregator_index.0);
    assert(a.spec_ssz().subrange(8, 168) =~= a.contribution.spec_ssz());
    assert(b.spec_ssz().subrange(8, 168) =~= b.contribution.spec_ssz());
    lemma_sync_committee_contribution_ssz_injective(a.contribution, b.contribution);
    assert(a.spec_ssz().subrange(168, 264) =~= a.selection_proof.spec_ssz());
    assert(b.spec_ssz().subrange(168, 264) =~= b.selection_proof.spec_ssz());
    assert(a.selection_proof.0 =~= b.selection_proof.0);
}

/// Encoding then decoding a `ContributionAndProof` gives it back: its encoding is accepted
/// by the decoder, and no other value has the same encoding.
pub proof fn lemma_contribution_and_proof_ssz_roundtrip(x: ContributionAndProof)
    ensures
        ContributionAndProof::spec_valid_ssz(x.spec_ssz()),
        forall|y: ContributionAndProof| #[trigger] y.spec_ssz() == x.spec_ssz() ==> y == x,
{
    lemma_contribution_and_proof_ssz_len(x);

    assert forall|y: ContributionAndProof| #[trigger] y.spec_ssz() == x.spec_ssz() implies y == x by {
        lemma_contribution_and_proof_ssz_injective(y, x);
    }
}

/// A signed contribution and proof.
#[derive(Default, Debug, Clone, Copy, PartialEq, Eq)]
pub struct SignedContributionAndProof {
    /// Contribution and selection proof being signed.
    pub message: ContributionAndProof,
    /// Aggregator signature over `message`.
    pub signature: BLSSignature,
}

impl SignedContributionAndProof {
    /// The SSZ encoding: the fields' encodings in order.
    pub open spec fn spec_ssz(self) -> Seq<u8> {
        self.message.spec_ssz()
            + self.signature.spec_ssz()
    }

    /// The hash-tree-roots of the fields in order.
    pub open spec fn spec_field_roots(self) -> Seq<Seq<u8>> {
        seq![
            self.message.spec_root(),
            self.signature.spec_root(),
        ]
    }

    /// The hash-tree-root: the merkle root of the field roots.
    pub open spec fn spec_root(self) -> Seq<u8> {
        spec_merkleize(self.spec_field_roots())
    }

    /// Whether `bytes` is the encoding of some value.
    pub open spec fn spec_valid_ssz(bytes: Seq<u8>) -> bool {
        bytes.len() == 360
    }

    /// A container is variable-size when any field is.
    pub fn is_variable_size() -> (r: bool)
        ensures
            !r,
    {
        ContributionAndProof::is_variable_size()
            || BLSSignature::is_variable_size()
    }

    /// The encoded size: the sum of the field sizes.
    pub fn size_hint() -> (r: usize)
        ensures
            r == 360,
    {
        ContributionAndProof::size_hint()
            + BLSSignature::size_hint()
    }

    /// Append the encoding of every field in order.
    pub fn serialize(&self, buffer: &mut Vec<u8>) -> (r: Result<usize, SerializeError>)
        ensures
            r == Ok::<usize, SerializeError>(360),
            final(buffer)@ == old(buffer)@ + self.spec_ssz(),
    {
        let _ = self.message.serialize(buffer);
        let _ = self.signature.serialize(buffer);
        assert(buffer@ =~= old(buffer)@ + self.spec_ssz());
        Ok(360)
    }

    /// Decode every field from its fixed position in exactly 360 bytes.
    pub fn deserialize(encoding: &[u8]) -> (r: Result<Self, DeserializeError>)
        ensures
            r is Ok <==> Self::spec_valid_ssz(encoding@),
            r matches Ok(v) ==> v.spec_ssz() == encoding@,
            r matches Err(e) ==> e == length_error(encoding@.len() as usize, 360),
    {
        if encoding.len() != 360 {
            return Err(wrong_length(encoding.len(), 360));
        }
        let message = ContributionAndProof::deserialize(slice_subrange(encoding, 0, 264))?;
        let signature = BLSSignature::deserialize(slice_subrange(encoding, 264, 360))?;
        let v = SignedContributionAndProof { message, signature };
        proof {
            lemma_contribution_and_proof_ssz_len(message);
            assert(v.spec_ssz() =~= encoding@);
        }
        Ok(v)
    }

    /// The merkle root of the field roots.
    pub fn hash_tree_root(&self) -> (r: Result<Node, MerkleizationError>)
        ensures
            r matches Ok(n) && n.0@ == self.spec_root(),
    {
        let r0 = self.message.hash_tree_root()?;
        let r1 = self.signature.hash_tree_root()?;
        let roots = [r0, r1];
        assert(roots_view(roots@) =~= self.spec_field_roots());
        Ok(merkleize_roots(roots.as_slice()))
    }

    /// A container is a composite type.
    pub fn is_composite_type() -> (r: bool)
        ensures
            r,
    {
        true
    }
}

/// The encoding of a `SignedContributionAndProof` is 360 bytes long.
pub proof fn lemma_signed_contribution_and_proof_ssz_len(x: SignedContributionAndProof)
    ensures
        x.spec_ssz().len() == 360,
{
    lemma_contribution_and_proof_ssz_len(x.message);
}

/// Distinct `SignedContributionAndProof` values have distinct encodings.
pub proof fn lemma_signed_contribution_and_proof_ssz_injective(a: SignedContributionAndProof, b: SignedContributionAndProof)
    requires
        a.spec_ssz() == b.spec_ssz(),
    ensures
        a == b,
{
    lemma_signed_contribution_and_proof_ssz_len(a);
    lemma_contribution_and_proof_ssz_len(a.message);
    lemma_contribution_and_proof_ssz_len(b.message);
    assert(a.spec_ssz().subrange(0, 264) =~= a.message.spec_ssz());
    assert(b.spec_ssz().subrange(0, 264) =~= b.message.spec_ssz());
    lemma_contribution_and_proof_ssz_injective(a.message, b.message);
    assert(a.spec_ssz().subrange(264, 360) =~= a.signature.spec_ssz());
    assert(b.spec_ssz().subrange(264, 360) =~= b.signature.spec_ssz());
    assert(a.signature.0 =~= b.signature.0);
}

/// Encoding then decoding a `SignedContributionAndProof` gives it back: its encoding is accepted
/// by the decoder, and no other value has the same encoding.
pub proof fn lemma_signed_contribution_and_proof_ssz_roundtrip(x: SignedContributionAndProof)
    ensures
        SignedContributionAndProof::spec_valid_ssz(x.spec_ssz()),
        forall|y: SignedContributionAndProof| #[trigger] y.spec_ssz() == x.spec_ssz() ==> y == x,
{
    lemma_signed_contribution_and_proof_ssz_len(x);

    assert forall|y: SignedContributionAndProof| #[trigger] y.spec_ssz() == x.spec_ssz() implies y == x by {
        lemma_signed_contribution_and_proof_ssz_injective(y, x);
    }
}

/// The data a sync aggregator signs to prove selection.
#[derive(Default, Debug, Clone, Copy, PartialEq, Eq)]
pub struct SyncAggregatorSelectionData {
    /// Slot being aggregated.
    pub slot: Slot,
    /// Sync subcommittee being aggregated.
    pub subcommittee_index: u64,
}

impl SyncAggregatorSelectionData {
    /// The SSZ encoding: the fields' encodings in order.
    pub open spec fn spec_ssz(self) -> Seq<u8> {
        self.slot.spec_ssz()
            + spec_u64_le(self.subcommittee_index)
    }

    /// The hash-tree-roots of the fields in order.
    pub open spec fn spec_field_roots(self) -> Seq<Seq<u8>> {
        seq![
            self.slot.spec_root(),
            spec_u64_root(self.subcommittee_index),
        ]
    }

    /// The hash-tree-root: the merkle root of the field roots.
    pub open spec fn spec_root(self) -> Seq<u8> {
        spec_merkleize(self.spec_field_roots())
    }

    /// Whether `bytes` is the encoding of some value.
    pub open spec fn spec_valid_ssz(bytes: Seq<u8>) -> bool {
        bytes.len() == 16
    }

    /// A container is variable-size when any field is.
    pub fn is_variable_size() -> (r: bool)
        ensures
            !r,
    {
        Slot::is_variable_size()
            || u64_is_variable_size()
    }

    /// The encoded size: the sum of the field sizes.
    pub fn size_hint() -> (r: usize)
        ensures
            r == 16,
    {
        Slot::size_hint()
            + u64_size_hint()
    }

    /// Append the encoding of every field in order.
    pub fn serialize(&self, buffer: &mut Vec<u8>) -> (r: Result<usize, SerializeError>)
        ensures
            r == Ok::<usize, SerializeError>(16),
            final(buffer)@ == old(buffer)@ + self.spec_ssz(),
    {
        let _ = self.slot.serialize(buffer);
        let _ = serialize_u64(self.subcommittee_index, buffer);
        assert(buffer@ =~= old(buffer)@ + self.spec_ssz());
        Ok(16)
    }

    /// Decode every field from its fixed position in exactly 16 bytes.
    pub fn deserialize(encoding: &[u8]) -> (r: Result<Self, DeserializeError>)
        ensures
            r is Ok <==> Self::spec_valid_ssz(encoding@),
            r matches Ok(v) ==> v.spec_ssz() == encoding@,
            r matches Err(e) ==> e == length_error(encoding@.len() as usize, 16),
    {
        if encoding.len() != 16 {
            return Err(wrong_length(encoding.len(), 16));
        }
        let slot = Slot::deserialize(slice_subrange(encoding, 0, 8))?;
        let subcommittee_index = deserialize_u64(slice_subrange(encoding, 8, 16))?;
        let v = SyncAggregatorSelectionData { slot, subcommittee_index };
        proof {
            lemma_u64_from_le_roundtrip(encoding@.subrange(0, 8));
            lemma_u64_from_le_roundtrip(encoding@.subrange(8, 16));
            assert(v.spec_ssz() =~= encoding@);
        }
        Ok(v)
    }

    /// The merkle root of the field roots.
    pub fn hash_tree_root(&self) -> (r: Result<Node, MerkleizationError>)
        ensures
            r matches Ok(n) && n.0@ == self.spec_root(),
    {
        let r0 = self.slot.hash_tree_root()?;
        let r1 = hash_tree_root_u64(self.subcommittee_index)?;
        let roots = [r0, r1];
        assert(roots_view(roots@) =~= self.spec_field_roots());
        Ok(merkleize_roots(roots.as_slice()))
    }

    /// A container is a composite type.
    pub fn is_composite_type() -> (r: bool)
        ensures
            r,
    {
        true
    }
}

/// The encoding of a `SyncAggregatorSelectionData` is 16 bytes long.
pub proof fn lemma_sync_aggregator_selection_data_ssz_len(x: SyncAggregatorSelectionData)
    ensures
        x.spec_ssz().len() == 16,
{

}

/// Distinct `SyncAggregatorSelectionData` values have distinct encodings.
pub proof fn lemma_sync_aggregator_selection_data_ssz_injective(a: SyncAggregatorSelectionData, b: SyncAggregatorSelectionData)
    requires
        a.spec_ssz() == b.spec_ssz(),
    ensures
        a == b,
{
    lemma_sync_aggregator_selection_data_ssz_len(a);
    assert(a.spec_ssz().subrange(0, 8) =~= a.slot.spec_ssz());
    assert(b.spec_ssz().subrange(0, 8) =~= b.slot.spec_ssz());
    lemma_u64_le_injective(a.slot.0, b.slot.0);
    assert(a.spec_ssz().subrange(8, 16) =~= spec_u64_le(a.subcommittee_index));
    assert(b.spec_ssz().subrange(8, 16) =~= spec_u64_le(b.subcommittee_index));
    lemma_u64_le_injective(a.subcommittee_index, b.subcommittee_index);
}

/// Encoding then decoding a `SyncAggregatorSelectionData` gives it back: its encoding is accepted
/// by the decoder, and no other value has the same encoding.
pub proof fn lemma_sync_aggregator_selection_data_ssz_roundtrip(x: SyncAggregatorSelectionData)
    ensures
        SyncAggregatorSelectionData::spec_valid_ssz(x.spec_ssz()),
        forall|y: SyncAggregatorSelectionData| #[trigger] y.spec_ssz() == x.spec_ssz() ==> y == x,
{
    lemma_sync_aggregator_selection_data_ssz_len(x);

    assert forall|y: SyncAggregatorSelectionData| #[trigger] y.spec_ssz() == x.spec_ssz() implies y == x by {
        lemma_sync_aggregator_selection_data_ssz_injective(y, x);
    }
}

/// The sync committee for one period.
#[derive(Debug, Clone)]
pub struct SyncCommittee {
    /// Member public keys, in committee order.
    pub pubkeys: Vector<BLSPubkey, SYNC_COMMITTEE_SIZE>,
    /// Sum of `pubkeys`, used for fast aggregate verification.
    pub aggregate_pubkey: BLSPubkey,
}

} // verus!
