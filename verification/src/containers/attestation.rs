//! Attestations, aggregates and slashing evidence.
use vstd::prelude::*;
use vstd::slice::slice_subrange;

use crate::ssz::basic::{
    bool_byte, bytes_is_variable_size, bytes_size_hint, deserialize_bool, deserialize_bytes,
    deserialize_u64, deserialize_u8, hash_tree_root_bool, hash_tree_root_bytes,
    hash_tree_root_u64, hash_tree_root_u8, lemma_u64_from_le_roundtrip, lemma_u64_le_injective,
    serialize_bool, serialize_bytes, serialize_u64, serialize_u8, spec_bool_root,
    spec_u64_le, spec_u64_root, spec_u8_root, u64_is_variable_size, u64_size_hint,
    u8_is_variable_size, u8_size_hint,
};
use crate::ssz::error::{length_error, wrong_length};
use crate::ssz::merkle::{merkleize_roots, roots_view, spec_merkleize, spec_merkleize_bytes};
use crate::ssz::{DeserializeError, MerkleizationError, Node, SerializeError};
use crate::constants::{MAX_ATTESTING_INDICES, MAX_COMMITTEES_PER_SLOT};
use crate::containers::block::SignedBeaconBlockHeader;
use crate::containers::chain::{lemma_checkpoint_ssz_injective, lemma_checkpoint_ssz_len, Checkpoint};
use crate::primitives::{BLSSignature, CommitteeIndex, Root, Slot, ValidatorIndex};
use crate::containers::block::{
    lemma_signed_beacon_block_header_ssz_injective, lemma_signed_beacon_block_header_ssz_len,
};
use crate::ssz::{Bitlist, Bitvector, List};

verus! {

/// The vote an attestation carries: head block and finality checkpoints.
#[derive(Default, Debug, Clone, Copy)]
pub struct AttestationData {
    /// Slot the attestation is for.
    pub slot: Slot,
    /// Spec index field; for payload-branch voting `0` selects the empty branch and `1` the full one.
    pub index: CommitteeIndex,
    /// Head block root being voted for by chain-head selection.
    pub beacon_block_root: Root,
    /// Source checkpoint used by finality.
    pub source: Checkpoint,
    /// Target checkpoint used by finality.
    pub target: Checkpoint,
}

impl AttestationData {
    /// The SSZ encoding: the fields' encodings in order.
    pub open spec fn spec_ssz(self) -> Seq<u8> {
        self.slot.spec_ssz()
            + self.index.spec_ssz()
            + self.beacon_block_root.spec_ssz()
            + self.source.spec_ssz()
            + self.target.spec_ssz()
    }

    /// The hash-tree-roots of the fields in order.
    pub open spec fn spec_field_roots(self) -> Seq<Seq<u8>> {
        seq![
            self.slot.spec_root(),
            self.index.spec_root(),
            self.beacon_block_root.spec_root(),
            self.source.spec_root(),
            self.target.spec_root(),
        ]
    }

    /// The hash-tree-root: the merkle root of the field roots.
    pub open spec fn spec_root(self) -> Seq<u8> {
        spec_merkleize(self.spec_field_roots())
    }

    /// Whether `bytes` is the encoding of some value.
    pub open spec fn spec_valid_ssz(bytes: Seq<u8>) -> bool {
        bytes.len() == 128
    }

    /// A container is variable-size when any field is.
    pub fn is_variable_size() -> (r: bool)
        ensures
            !r,
    {
        Slot::is_variable_size()
            || CommitteeIndex::is_variable_size()
            || Root::is_variable_size()
            || Checkpoint::is_variable_size()
            || Checkpoint::is_variable_size()
    }

    /// The encoded size: the sum of the field sizes.
    pub fn size_hint() -> (r: usize)
        ensures
            r == 128,
    {
        Slot::size_hint()
            + CommitteeIndex::size_hint()
            + Root::size_hint()
            + Checkpoint::size_hint()
            + Checkpoint::size_hint()
    }

    /// Append the encoding of every field in order.
    pub fn serialize(&self, buffer: &mut Vec<u8>) -> (r: Result<usize, SerializeError>)
        ensures
            r == Ok::<usize, SerializeError>(128),
            final(buffer)@ == old(buffer)@ + self.spec_ssz(),
    {
        let _ = self.slot.serialize(buffer);
        let _ = self.index.serialize(buffer);
        let _ = self.beacon_block_root.serialize(buffer);
        let _ = self.source.serialize(buffer);
        let _ = self.target.serialize(buffer);
        assert(buffer@ =~= old(buffer)@ + self.spec_ssz());
        Ok(128)
    }

    /// Decode every field from its fixed position in exactly 128 bytes.
    pub fn deserialize(encoding: &[u8]) -> (r: Result<Self, DeserializeError>)
        ensures
            r is Ok <==> Self::spec_valid_ssz(encoding@),
            r matches Ok(v) ==> v.spec_ssz() == encoding@,
            r matches Err(e) ==> e == length_error(encoding@.len() as usize, 128),
    {
        if encoding.len() != 128 {
            return Err(wrong_length(encoding.len(), 128));
        }
        let slot = Slot::deserialize(slice_subrange(encoding, 0, 8))?;
        let index = CommitteeIndex::deserialize(slice_subrange(encoding, 8, 16))?;
        let beacon_block_root = Root::deserialize(slice_subrange(encoding, 16, 48))?;
        let source = Checkpoint::deserialize(slice_subrange(encoding, 48, 88))?;
        let target = Checkpoint::deserialize(slice_subrange(encoding, 88, 128))?;
        let v = AttestationData { slot, index, beacon_block_root, source, target };
        proof {
            lemma_u64_from_le_roundtrip(encoding@.subrange(0, 8));
            lemma_u64_from_le_roundtrip(encoding@.subrange(8, 16));
            lemma_checkpoint_ssz_len(source);
            lemma_checkpoint_ssz_len(target);
            assert(v.spec_ssz() =~= encoding@);
        }
        Ok(v)
    }

    /// The merkle root of the field roots.
    pub fn hash_tree_root(&self) -> (r: Result<Node, MerkleizationError>)
        ensures
            r matches Ok(n) && n.0@ == self.spec_root(),
    {
        let r0 = self.slot.hash_tree_root()?;
        let r1 = self.index.hash_tree_root()?;
        let r2 = self.beacon_block_root.hash_tree_root()?;
        let r3 = self.source.hash_tree_root()?;
        let r4 = self.target.hash_tree_root()?;
        let roots = [r0, r1, r2, r3, r4];
        assert(roots_view(roots@) =~= self.spec_field_roots());
        Ok(merkleize_roots(roots.as_slice()))
    }

    /// A container is a composite type.
    pub fn is_composite_type() -> (r: bool)
        ensures
            r,
    {
        true
    }
}

/// The encoding of a `AttestationData` is 128 bytes long.
pub proof fn lemma_attestation_data_ssz_len(x: AttestationData)
    ensures
        x.spec_ssz().len() == 128,
{
    lemma_checkpoint_ssz_len(x.source);
    lemma_checkpoint_ssz_len(x.target);
}

/// Distinct `AttestationData` values have distinct encodings.
pub proof fn lemma_attestation_data_ssz_injective(a: AttestationData, b: AttestationData)
    requires
        a.spec_ssz() == b.spec_ssz(),
    ensures
        a == b,
{
    lemma_attestation_data_ssz_len(a);
    lemma_checkpoint_ssz_len(a.source);
    lemma_checkpoint_ssz_len(b.source);
    lemma_checkpoint_ssz_len(a.target);
    lemma_checkpoint_ssz_len(b.target);
    assert(a.spec_ssz().subrange(0, 8) =~= a.slot.spec_ssz());
    assert(b.spec_ssz().subrange(0, 8) =~= b.slot.spec_ssz());
    lemma_u64_le_injective(a.slot.0, b.slot.0);
    assert(a.spec_ssz().subrange(8, 16) =~= a.index.spec_ssz());
    assert(b.spec_ssz().subrange(8, 16) =~= b.index.spec_ssz());
    lemma_u64_le_injective(a.index.0, b.index.0);
    assert(a.spec_ssz().subrange(16, 48) =~= a.beacon_block_root.spec_ssz());
    assert(b.spec_ssz().subrange(16, 48) =~= b.beacon_block_root.spec_ssz());
    assert(a.beacon_block_root.0 =~= b.beacon_block_root.0);
    assert(a.spec_ssz().subrange(48, 88) =~= a.source.spec_ssz());
    assert(b.spec_ssz().subrange(48, 88) =~= b.source.spec_ssz());
    lemma_checkpoint_ssz_injective(a.source, b.source);
    assert(a.spec_ssz().subrange(88, 128) =~= a.target.spec_ssz());
    assert(b.spec_ssz().subrange(88, 128) =~= b.target.spec_ssz());
    lemma_checkpoint_ssz_injective(a.target, b.target);
}

/// Encoding then decoding a `AttestationData` gives it back: its encoding is accepted
/// by the decoder, and no other value has the same encoding.
pub proof fn lemma_attestation_data_ssz_roundtrip(x: AttestationData)
    ensures
        AttestationData::spec_valid_ssz(x.spec_ssz()),
        forall|y: AttestationData| #[trigger] y.spec_ssz() == x.spec_ssz() ==> y == x,
{
    lemma_attestation_data_ssz_len(x);

    assert forall|y: AttestationData| #[trigger] y.spec_ssz() == x.spec_ssz() implies y == x by {
        lemma_attestation_data_ssz_injective(y, x);
    }
}

/// A single validator's attestation as gossiped on attestation subnets.
#[derive(Default, Debug, Clone, Copy)]
pub struct SingleAttestation {
    /// Committee the attester belongs to.
    pub committee_index: CommitteeIndex,
    /// Validator that produced the attestation.
    pub attester_index: ValidatorIndex,
    /// The vote.
    pub data: AttestationData,
    /// Attester's signature over `data`.
    pub signature: BLSSignature,
}

impl SingleAttestation {
    /// The SSZ encoding: the fields' encodings in order.
    pub open spec fn spec_ssz(self) -> Seq<u8> {
        self.committee_index.spec_ssz()
            + self.attester_index.spec_ssz()
            + self.data.spec_ssz()
            + self.signature.spec_ssz()
    }

    /// The hash-tree-roots of the fields in order.
    pub open spec fn spec_field_roots(self) -> Seq<Seq<u8>> {
        seq![
            self.committee_index.spec_root(),
            self.attester_index.spec_root(),
            self.data.spec_root(),
            self.signature.spec_root(),
        ]
    }

    /// The hash-tree-root: the merkle root of the field roots.
    pub open spec fn spec_root(self) -> Seq<u8> {
        spec_merkleize(self.spec_field_roots())
    }

    /// Whether `bytes` is the encoding of some value.
    pub open spec fn spec_valid_ssz(bytes: Seq<u8>) -> bool {
        bytes.len() == 240
    }

    /// A container is variable-size when any field is.
    pub fn is_variable_size() -> (r: bool)
        ensures
            !r,
    {
        CommitteeIndex::is_variable_size()
            || ValidatorIndex::is_variable_size()
            || AttestationData::is_variable_size()
            || BLSSignature::is_variable_size()
    }

    /// The encoded size: the sum of the field sizes.
    pub fn size_hint() -> (r: usize)
        ensures
            r == 240,
    {
        CommitteeIndex::size_hint()
            + ValidatorIndex::size_hint()
            + AttestationData::size_hint()
            + BLSSignature::size_hint()
    }

    /// Append the encoding of every field in order.
    pub fn serialize(&self, buffer: &mut Vec<u8>) -> (r: Result<usize, SerializeError>)
        ensures
            r == Ok::<usize, SerializeError>(240),
            final(buffer)@ == old(buffer)@ + self.spec_ssz(),
    {
        let _ = self.committee_index.serialize(buffer);
        let _ = self.attester_index.serialize(buffer);
        let _ = self.data.serialize(buffer);
        let _ = self.signature.serialize(buffer);
        assert(buffer@ =~= old(buffer)@ + self.spec_ssz());
        Ok(240)
    }

    /// Decode every field from its fixed position in exactly 240 bytes.
    pub fn deserialize(encoding: &[u8]) -> (r: Result<Self, DeserializeError>)
        ensures
            r is Ok <==> Self::spec_valid_ssz(encoding@),
            r matches Ok(v) ==> v.spec_ssz() == encoding@,
            r matches Err(e) ==> e == length_error(encoding@.len() as usize, 240),
    {
        if encoding.len() != 240 {
            return Err(wrong_length(encoding.len(), 240));
        }
        let committee_index = CommitteeIndex::deserialize(slice_subrange(encoding, 0, 8))?;
        let attester_index = ValidatorIndex::deserialize(slice_subrange(encoding, 8, 16))?;
        let data = AttestationData::deserialize(slice_subrange(encoding, 16, 144))?;
        let signature = BLSSignature::deserialize(slice_subrange(encoding, 144, 240))?;
        let v = SingleAttestation { committee_index, attester_index, data, signature };
        proof {
            lemma_u64_from_le_roundtrip(encoding@.subrange(0, 8));
            lemma_u64_from_le_roundtrip(encoding@.subrange(8, 16));
            lemma_attestation_data_ssz_len(data);
            assert(v.spec_ssz() =~= encoding@);
        }
        Ok(v)
    }

    /// The merkle root of the field roots.
    pub fn hash_tree_root(&self) -> (r: Result<Node, MerkleizationError>)
        ensures
            r matches Ok(n) && n.0@ == self.spec_root(),
    {
        let r0 = self.committee_index.hash_tree_root()?;
        let r1 = self.attester_index.hash_tree_root()?;
        let r2 = self.data.hash_tree_root()?;
        let r3 = self.signature.hash_tree_root()?;
        let roots = [r0, r1, r2, r3];
        assert(roots_view(roots@) =~= self.spec_field_roots());
        Ok(merkleize_roots(roots.as_slice()))
    }

    /// A container is a composite type.
    pub fn is_composite_type() -> (r: bool)
        ensures
            r,
    {
        true
    }
}

/// The encoding of a `SingleAttestation` is 240 bytes long.
pub proof fn lemma_single_attestation_ssz_len(x: SingleAttestation)
    ensures
        x.spec_ssz().len() == 240,
{
    lemma_attestation_data_ssz_len(x.data);
}

/// Distinct `SingleAttestation` values have distinct encodings.
pub proof fn lemma_single_attestation_ssz_injective(a: SingleAttestation, b: SingleAttestation)
    requires
        a.spec_ssz() == b.spec_ssz(),
    ensures
        a == b,
{
    lemma_single_attestation_ssz_len(a);
    lemma_attestation_data_ssz_len(a.data);
    lemma_attestation_data_ssz_len(b.data);
    assert(a.spec_ssz().subrange(0, 8) =~= a.committee_index.spec_ssz());
    assert(b.spec_ssz().subrange(0, 8) =~= b.committee_index.spec_ssz());
    lemma_u64_le_injective(a.committee_index.0, b.committee_index.0);
    assert(a.spec_ssz().subrange(8, 16) =~= a.attester_index.spec_ssz());
    assert(b.spec_ssz().subrange(8, 16) =~= b.attester_index.spec_ssz());
    lemma_u64_le_injective(a.attester_index.0, b.attester_index.0);
    assert(a.spec_ssz().subrange(16, 144) =~= a.data.spec_ssz());
    assert(b.spec_ssz().subrange(16, 144) =~= b.data.spec_ssz());
    lemma_attestation_data_ssz_injective(a.data, b.data);
    assert(a.spec_ssz().subrange(144, 240) =~= a.signature.spec_ssz());
    assert(b.spec_ssz().subrange(144, 240) =~= b.signature.spec_ssz());
    assert(a.signature.0 =~= b.signature.0);
}

/// Encoding then decoding a `SingleAttestation` gives it back: its encoding is accepted
/// by the decoder, and no other value has the same encoding.
pub proof fn lemma_single_attestation_ssz_roundtrip(x: SingleAttestation)
    ensures
        SingleAttestation::spec_valid_ssz(x.spec_ssz()),
        forall|y: SingleAttestation| #[trigger] y.spec_ssz() == x.spec_ssz() ==> y == x,
{
    lemma_single_attestation_ssz_len(x);

    assert forall|y: SingleAttestation| #[trigger] y.spec_ssz() == x.spec_ssz() implies y == x by {
        lemma_single_attestation_ssz_injective(y, x);
    }
}

/// Evidence that one proposer signed two different headers for the same slot.
#[derive(Default, Debug, Clone, Copy, PartialEq, Eq)]
pub struct ProposerSlashing {
    /// First signed header by the proposer.
    pub signed_header_1: SignedBeaconBlockHeader,
    /// Conflicting signed header by the same proposer for the same slot.
    pub signed_header_2: SignedBeaconBlockHeader,
}

impl ProposerSlashing {
    /// The SSZ encoding: the fields' encodings in order.
    pub open spec fn spec_ssz(self) -> Seq<u8> {
        self.signed_header_1.spec_ssz()
            + self.signed_header_2.spec_ssz()
    }

    /// The hash-tree-roots of the fields in order.
    pub open spec fn spec_field_roots(self) -> Seq<Seq<u8>> {
        seq![
            self.signed_header_1.spec_root(),
            self.signed_header_2.spec_root(),
        ]
    }

    /// The hash-tree-root: the merkle root of the field roots.
    pub open spec fn spec_root(self) -> Seq<u8> {
        spec_merkleize(self.spec_field_roots())
    }

    /// Whether `bytes` is the encoding of some value.
    pub open spec fn spec_valid_ssz(bytes: Seq<u8>) -> bool {
        bytes.len() == 416
    }

    /// A container is variable-size when any field is.
    pub fn is_variable_size() -> (r: bool)
        ensures
            !r,
    {
        SignedBeaconBlockHeader::is_variable_size()
            || SignedBeaconBlockHeader::is_variable_size()
    }

    /// The encoded size: the sum of the field sizes.
    pub fn size_hint() -> (r: usize)
        ensures
            r == 416,
    {
        SignedBeaconBlockHeader::size_hint()
            + SignedBeaconBlockHeader::size_hint()
    }

    /// Append the encoding of every field in order.
    pub fn serialize(&self, buffer: &mut Vec<u8>) -> (r: Result<usize, SerializeError>)
        ensures
            r == Ok::<usize, SerializeError>(416),
            final(buffer)@ == old(buffer)@ + self.spec_ssz(),
    {
        let _ = self.signed_header_1.serialize(buffer);
        let _ = self.signed_header_2.serialize(buffer);
        assert(buffer@ =~= old(buffer)@ + self.spec_ssz());
        Ok(416)
    }

    /// Decode every field from its fixed position in exactly 416 bytes.
    pub fn deserialize(encoding: &[u8]) -> (r: Result<Self, DeserializeError>)
        ensures
            r is Ok <==> Self::spec_valid_ssz(encoding@),
            r matches Ok(v) ==> v.spec_ssz() == encoding@,
            r matches Err(e) ==> e == length_error(encoding@.len() as usize, 416),
    {
        if encoding.len() != 416 {
            return Err(wrong_length(encoding.len(), 416));
        }
        let signed_header_1 = SignedBeaconBlockHeader::deserialize(slice_subrange(encoding, 0, 208))?;
        let signed_header_2 = SignedBeaconBlockHeader::deserialize(slice_subrange(encoding, 208, 416))?;
        let v = ProposerSlashing { signed_header_1, signed_header_2 };
        proof {
            lemma_signed_beacon_block_header_ssz_len(signed_header_1);
            lemma_signed_beacon_block_header_ssz_len(signed_header_2);
            assert(v.spec_ssz() =~= encoding@);
        }
        Ok(v)
    }

    /// The merkle root of the field roots.
    pub fn hash_tree_root(&self) -> (r: Result<Node, MerkleizationError>)
        ensures
            r matches Ok(n) && n.0@ == self.spec_root(),
    {
        let r0 = self.signed_header_1.hash_tree_root()?;
        let r1 = self.signed_header_2.hash_tree_root()?;
        let roots = [r0, r1];
        assert(roots_view(roots@) =~= self.spec_field_roots());
        Ok(merkleize_roots(roots.as_slice()))
    }

    /// A container is a composite type.
    pub fn is_composite_type() -> (r: bool)
        ensures
            r,
    {
        true
    }
}

/// The encoding of a `ProposerSlashing` is 416 bytes long.
pub proof fn lemma_proposer_slashing_ssz_len(x: ProposerSlashing)
    ensures
        x.spec_ssz().len() == 416,
{
    lemma_signed_beacon_block_header_ssz_len(x.signed_header_1);
    lemma_signed_beacon_block_header_ssz_len(x.signed_header_2);
}

/// Distinct `ProposerSlashing` values have distinct encodings.
pub proof fn lemma_proposer_slashing_ssz_injective(a: ProposerSlashing, b: ProposerSlashing)
    requires
        a.spec_ssz() == b.spec_ssz(),
    ensures
        a == b,
{
    lemma_proposer_slashing_ssz_len(a);
    lemma_signed_beacon_block_header_ssz_len(a.signed_header_1);
    lemma_signed_beacon_block_header_ssz_len(b.signed_header_1);
    lemma_signed_beacon_block_header_ssz_len(a.signed_header_2);
    lemma_signed_beacon_block_header_ssz_len(b.signed_header_2);
    assert(a.spec_ssz().subrange(0, 208) =~= a.signed_header_1.spec_ssz());
    assert(b.spec_ssz().subrange(0, 208) =~= b.signed_header_1.spec_ssz());
    lemma_signed_beacon_block_header_ssz_injective(a.signed_header_1, b.signed_header_1);
    assert(a.spec_ssz().subrange(208, 416) =~= a.signed_header_2.spec_ssz());
    assert(b.spec_ssz().subrange(208, 416) =~= b.signed_header_2.spec_ssz());
    lemma_signed_beacon_block_header_ssz_injective(a.signed_header_2, b.signed_header_2);
}

/// Encoding then decoding a `ProposerSlashing` gives it back: its encoding is accepted
/// by the decoder, and no other value has the same encoding.
pub proof fn lemma_proposer_slashing_ssz_roundtrip(x: ProposerSlashing)
    ensures
        ProposerSlashing::spec_valid_ssz(x.spec_ssz()),
        forall|y: ProposerSlashing| #[trigger] y.spec_ssz() == x.spec_ssz() ==> y == x,
{
    lemma_proposer_slashing_ssz_len(x);

    assert forall|y: ProposerSlashing| #[trigger] y.spec_ssz() == x.spec_ssz() implies y == x by {
        lemma_proposer_slashing_ssz_injective(y, x);
    }
}

/// An aggregate attestation with its attesters listed by validator index.
#[derive(Debug, Clone)]
pub struct IndexedAttestation {
    /// Sorted, deduplicated indices of validators that attested.
    pub attesting_indices: List<ValidatorIndex, MAX_ATTESTING_INDICES>,
    /// The vote shared by all listed attesters.
    pub data: AttestationData,
    /// Aggregate BLS signature of the listed attesters.
    pub signature: BLSSignature,
}

/// An aggregate attestation with participation bits.
#[derive(Debug, Clone)]
pub struct Attestation {
    /// Per-attester participation, packed across all committees of the slot.
    pub aggregation_bits: Bitlist<MAX_ATTESTING_INDICES>,
    /// The vote shared by all participants.
    pub data: AttestationData,
    /// Aggregate signature over `data` from the participating attesters.
    pub signature: BLSSignature,
    /// Bitfield selecting which committees within the slot participated.
    pub committee_bits: Bitvector<MAX_COMMITTEES_PER_SLOT>,
}

/// An aggregate attestation with the aggregator's selection proof.
#[derive(Debug, Clone)]
pub struct AggregateAndProof {
    /// Validator that aggregated the attestation.
    pub aggregator_index: ValidatorIndex,
    /// Aggregated attestation being gossiped.
    pub aggregate: Attestation,
    /// Signature proving the validator was selected to aggregate.
    pub selection_proof: BLSSignature,
}

/// A signed aggregate and proof.
#[derive(Debug, Clone)]
pub struct SignedAggregateAndProof {
    /// Aggregate and selection proof being signed.
    pub message: AggregateAndProof,
    /// Aggregator signature over `message`.
    pub signature: BLSSignature,
}

/// Evidence of two conflicting attestations that share an attester.
#[derive(Debug, Clone)]
pub struct AttesterSlashing {
    /// First conflicting attestation.
    pub attestation_1: IndexedAttestation,
    /// Second conflicting attestation.
    pub attestation_2: IndexedAttestation,
}

} // verus!
