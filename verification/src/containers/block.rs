//! Beacon blocks, block headers and block bodies.
use vstd::prelude::*;
use vstd::slice::slice_subrange;

use crate::ssz::basic::{
    bool_byte, bytes_is_variable_size, bytes_size_hint, deserialize_bool, deserialize_bytes,
    deserialize_u64, deserialize_u8, hash_tree_root_bool, hash_tree_root_bytes,
    hash_tree_root_u64, hash_tree_root_u8, lemma_u64_from_le_roundtrip, lemma_u64_le_injective,
    serialize_bool, serialize_bytes, serialize_u64, serialize_u8, spec_bool_root,
    spec_u64_le, spec_u64_root, spec_u8_root, u64_is_variable_size, u64_size_hint,
    u8_is_variable_size, u8_size_hint,
};
use crate::ssz::error::{length_error, wrong_length};
use crate::ssz::merkle::{merkleize_roots, roots_view, spec_merkleize, spec_merkleize_bytes};
use crate::ssz::{DeserializeError, MerkleizationError, Node, SerializeError};
use crate::constants::{
    MAX_ATTESTATIONS, MAX_ATTESTER_SLASHINGS, MAX_BLS_TO_EXECUTION_CHANGES, MAX_DEPOSITS,
    MAX_PAYLOAD_ATTESTATIONS, MAX_PROPOSER_SLASHINGS, MAX_VOLUNTARY_EXITS,
};
use crate::containers::attestation::{Attestation, AttesterSlashing, ProposerSlashing};
use crate::containers::builder::PayloadAttestation;
use crate::containers::chain::Eth1Data;
use crate::containers::execution::SignedExecutionPayloadBid;
use crate::containers::sync::SyncAggregate;
use crate::containers::withdrawal::{
    Deposit, ExecutionRequests, SignedBLSToExecutionChange, SignedVoluntaryExit,
};
use crate::primitives::{BLSSignature, Root, Slot, ValidatorIndex};
use crate::ssz::List;

verus! {

/// Block header: a block with its body replaced by the body's root.
#[derive(Default, Debug, Clone, Copy, PartialEq, Eq)]
pub struct BeaconBlockHeader {
    /// Slot the block is proposed for.
    pub slot: Slot,
    /// Validator that proposed the block.
    pub proposer_index: ValidatorIndex,
    /// Root of the parent block.
    pub parent_root: Root,
    /// Root of the post-state after applying the block.
    pub state_root: Root,
    /// Root of the block body.
    pub body_root: Root,
}

impl BeaconBlockHeader {
    /// The SSZ encoding: the fields' encodings in order.
    pub open spec fn spec_ssz(self) -> Seq<u8> {
        self.slot.spec_ssz()
            + self.proposer_index.spec_ssz()
            + self.parent_root.spec_ssz()
            + self.state_root.spec_ssz()
            + self.body_root.spec_ssz()
    }

    /// The hash-tree-roots of the fields in order.
    pub open spec fn spec_field_roots(self) -> Seq<Seq<u8>> {
        seq![
            self.slot.spec_root(),
            self.proposer_index.spec_root(),
            self.parent_root.spec_root(),
            self.state_root.spec_root(),
            self.body_root.spec_root(),
        ]
    }

    /// The hash-tree-root: the merkle root of the field roots.
    pub open spec fn spec_root(self) -> Seq<u8> {
        spec_merkleize(self.spec_field_roots())
    }

    /// Whether `bytes` is the encoding of some value.
    pub open spec fn spec_valid_ssz(bytes: Seq<u8>) -> bool {
        bytes.len() == 112
    }

    /// A container is variable-size when any field is.
    pub fn is_variable_size() -> (r: bool)
        ensures
            !r,
    {
        Slot::is_variable_size()
            || ValidatorIndex::is_variable_size()
            || Root::is_variable_size()
            || Root::is_variable_size()
            || Root::is_variable_size()
    }

    /// The encoded size: the sum of the field sizes.
    pub fn size_hint() -> (r: usize)
        ensures
            r == 112,
    {
        Slot::size_hint()
            + ValidatorIndex::size_hint()
            + Root::size_hint()
            + Root::size_hint()
            + Root::size_hint()
    }

    /// Append the encoding of every field in order.
    pub fn serialize(&self, buffer: &mut Vec<u8>) -> (r: Result<usize, SerializeError>)
        ensures
            r == Ok::<usize, SerializeError>(112),
            final(buffer)@ == old(buffer)@ + self.spec_ssz(),
    {
        let _ = self.slot.serialize(buffer);
        let _ = self.proposer_index.serialize(buffer);
        let _ = self.parent_root.serialize(buffer);
        let _ = self.state_root.serialize(buffer);
        let _ = self.body_root.serialize(buffer);
        assert(buffer@ =~= old(buffer)@ + self.spec_ssz());
        Ok(112)
    }

    /// Decode every field from its fixed position in exactly 112 bytes.
    pub fn deserialize(encoding: &[u8]) -> (r: Result<Self, DeserializeError>)
        ensures
            r is Ok <==> Self::spec_valid_ssz(encoding@),
            r matches Ok(v) ==> v.spec_ssz() == encoding@,
            r matches Err(e) ==> e == length_error(encoding@.len() as usize, 112),
    {
        if encoding.len() != 112 {
            return Err(wrong_length(encoding.len(), 112));
        }
        let slot = Slot::deserialize(slice_subrange(encoding, 0, 8))?;
        let proposer_index = ValidatorIndex::deserialize(slice_subrange(encoding, 8, 16))?;
        let parent_root = Root::deserialize(slice_subrange(encoding, 16, 48))?;
        let state_root = Root::deserialize(slice_subrange(encoding, 48, 80))?;
        let body_root = Root::deserialize(slice_subrange(encoding, 80, 112))?;
        let v = BeaconBlockHeader { slot, proposer_index, parent_root, state_root, body_root };
        proof {
            lemma_u64_from_le_roundtrip(encoding@.subrange(0, 8));
            lemma_u64_from_le_roundtrip(encoding@.subrange(8, 16));
            assert(v.spec_ssz() =~= encoding@);
        }
        Ok(v)
    }

    /// The merkle root of the field roots.
    pub fn hash_tree_root(&self) -> (r: Result<Node, MerkleizationError>)
        ensures
            r matches Ok(n) && n.0@ == self.spec_root(),
    {
        let r0 = self.slot.hash_tree_root()?;
        let r1 = self.proposer_index.hash_tree_root()?;
        let r2 = self.parent_root.hash_tree_root()?;
        let r3 = self.state_root.hash_tree_root()?;
        let r4 = self.body_root.hash_tree_root()?;
        let roots = [r0, r1, r2, r3, r4];
        assert(roots_view(roots@) =~= self.spec_field_roots());
        Ok(merkleize_roots(roots.as_slice()))
    }

    /// A container is a composite type.
    pub fn is_composite_type() -> (r: bool)
        ensures
            r,
    {
        true
    }
}

/// The encoding of a `BeaconBlockHeader` is 112 bytes long.
pub proof fn lemma_beacon_block_header_ssz_len(x: BeaconBlockHeader)
    ensures
        x.spec_ssz().len() == 112,
{

}

/// Distinct `BeaconBlockHeader` values have distinct encodings.
pub proof fn lemma_beacon_block_header_ssz_injective(a: BeaconBlockHeader, b: BeaconBlockHeader)
    requires
        a.spec_ssz() == b.spec_ssz(),
    ensures
        a == b,
{
    lemma_beacon_block_header_ssz_len(a);
    assert(a.spec_ssz().subrange(0, 8) =~= a.slot.spec_ssz());
    assert(b.spec_ssz().subrange(0, 8) =~= b.slot.spec_ssz());
    lemma_u64_le_injective(a.slot.0, b.slot.0);
    assert(a.spec_ssz().subrange(8, 16) =~= a.proposer_index.spec_ssz());
    assert(b.spec_ssz().subrange(8, 16) =~= b.proposer_index.spec_ssz());
    lemma_u64_le_injective(a.proposer_index.0, b.proposer_index.0);
    assert(a.spec_ssz().subrange(16, 48) =~= a.parent_root.spec_ssz());
    assert(b.spec_ssz().subrange(16, 48) =~= b.parent_root.spec_ssz());
    assert(a.parent_root.0 =~= b.parent_root.0);
    assert(a.spec_ssz().subrange(48, 80) =~= a.state_root.spec_ssz());
    assert(b.spec_ssz().subrange(48, 80) =~= b.state_root.spec_ssz());
    assert(a.state_root.0 =~= b.state_root.0);
    assert(a.spec_ssz().subrange(80, 112) =~= a.body_root.spec_ssz());
    assert(b.spec_ssz().subrange(80, 112) =~= b.body_root.spec_ssz());
    assert(a.body_root.0 =~= b.body_root.0);
}

/// Encoding then decoding a `BeaconBlockHeader` gives it back: its encoding is accepted
/// by the decoder, and no other value has the same encoding.
pub proof fn lemma_beacon_block_header_ssz_roundtrip(x: BeaconBlockHeader)
    ensures
        BeaconBlockHeader::spec_valid_ssz(x.spec_ssz()),
        forall|y: BeaconBlockHeader| #[trigger] y.spec_ssz() == x.spec_ssz() ==> y == x,
{
    lemma_beacon_block_header_ssz_len(x);

    assert forall|y: BeaconBlockHeader| #[trigger] y.spec_ssz() == x.spec_ssz() implies y == x by {
        lemma_beacon_block_header_ssz_injective(y, x);
    }
}

/// A block header with the proposer's signature.
#[derive(Default, Debug, Clone, Copy, PartialEq, Eq)]
pub struct SignedBeaconBlockHeader {
    /// The header being signed.
    pub message: BeaconBlockHeader,
    /// Proposer's signature over the domain-separated signing root of `message`.
    pub signature: BLSSignature,
}

impl SignedBeaconBlockHeader {
    /// The SSZ encoding: the fields' encodings in order.
    pub open spec fn spec_ssz(self) -> Seq<u8> {
        self.message.spec_ssz()
            + self.signature.spec_ssz()
    }

    /// The hash-tree-roots of the fields in order.
    pub open spec fn spec_field_roots(self) -> Seq<Seq<u8>> {
        seq![
            self.message.spec_root(),
            self.signature.spec_root(),
        ]
    }

    /// The hash-tree-root: the merkle root of the field roots.
    pub open spec fn spec_root(self) -> Seq<u8> {
        spec_merkleize(self.spec_field_roots())
    }

    /// Whether `bytes` is the encoding of some value.
    pub open spec fn spec_valid_ssz(bytes: Seq<u8>) -> bool {
        bytes.len() == 208
    }

    /// A container is variable-size when any field is.
    pub fn is_variable_size() -> (r: bool)
        ensures
            !r,
    {
        BeaconBlockHeader::is_variable_size()
            || BLSSignature::is_variable_size()
    }

    /// The encoded size: the sum of the field sizes.
    pub fn size_hint() -> (r: usize)
        ensures
            r == 208,
    {
        BeaconBlockHeader::size_hint()
            + BLSSignature::size_hint()
    }

    /// Append the encoding of every field in order.
    pub fn serialize(&self, buffer: &mut Vec<u8>) -> (r: Result<usize, SerializeError>)
        ensures
            r == Ok::<usize, SerializeError>(208),
            final(buffer)@ == old(buffer)@ + self.spec_ssz(),
    {
        let _ = self.message.serialize(buffer);
        let _ = self.signature.serialize(buffer);
        assert(buffer@ =~= old(buffer)@ + self.spec_ssz());
        Ok(208)
    }

    /// Decode every field from its fixed position in exactly 208 bytes.
    pub fn deserialize(encoding: &[u8]) -> (r: Result<Self, DeserializeError>)
        ensures
            r is Ok <==> Self::spec_valid_ssz(encoding@),
            r matches Ok(v) ==> v.spec_ssz() == encoding@,
            r matches Err(e) ==> e == length_error(encoding@.len() as usize, 208),
    {
        if encoding.len() != 208 {
            return Err(wrong_length(encoding.len(), 208));
        }
        let message = BeaconBlockHeader::deserialize(slice_subrange(encoding, 0, 112))?;
        let signature = BLSSignature::deserialize(slice_subrange(encoding, 112, 208))?;
        let v = SignedBeaconBlockHeader { message, signature };
        proof {
            lemma_beacon_block_header_ssz_len(message);
            assert(v.spec_ssz() =~= encoding@);
        }
        Ok(v)
    }

    /// The merkle root of the field roots.
    pub fn hash_tree_root(&self) -> (r: Result<Node, MerkleizationError>)
        ensures
            r matches Ok(n) && n.0@ == self.spec_root(),
    {
        let r0 = self.message.hash_tree_root()?;
        let r1 = self.signature.hash_tree_root()?;
        let roots = [r0, r1];
        assert(roots_view(roots@) =~= self.spec_field_roots());
        Ok(merkleize_roots(roots.as_slice()))
    }

    /// A container is a composite type.
    pub fn is_composite_type() -> (r: bool)
        ensures
            r,
    {
        true
    }
}

/// The encoding of a `SignedBeaconBlockHeader` is 208 bytes long.
pub proof fn lemma_signed_beacon_block_header_ssz_len(x: SignedBeaconBlockHeader)
    ensures
        x.spec_ssz().len() == 208,
{
    lemma_beacon_block_header_ssz_len(x.message);
}

/// Distinct `SignedBeaconBlockHeader` values have distinct encodings.
pub proof fn lemma_signed_beacon_block_header_ssz_injective(a: SignedBeaconBlockHeader, b: SignedBeaconBlockHeader)
    requires
        a.spec_ssz() == b.spec_ssz(),
    ensures
        a == b,
{
    lemma_signed_beacon_block_header_ssz_len(a);
    lemma_beacon_block_header_ssz_len(a.message);
    lemma_beacon_block_header_ssz_len(b.message);
    assert(a.spec_ssz().subrange(0, 112) =~= a.message.spec_ssz());
    assert(b.spec_ssz().subrange(0, 112) =~= b.message.spec_ssz());
    lemma_beacon_block_header_ssz_injective(a.message, b.message);
    assert(a.spec_ssz().subrange(112, 208) =~= a.signature.spec_ssz());
    assert(b.spec_ssz().subrange(112, 208) =~= b.signature.spec_ssz());
    assert(a.signature.0 =~= b.signature.0);
}

/// Encoding then decoding a `SignedBeaconBlockHeader` gives it back: its encoding is accepted
/// by the decoder, and no other value has the same encoding.
pub proof fn lemma_signed_beacon_block_header_ssz_roundtrip(x: SignedBeaconBlockHeader)
    ensures
        SignedBeaconBlockHeader::spec_valid_ssz(x.spec_ssz()),
        forall|y: SignedBeaconBlockHeader| #[trigger] y.spec_ssz() == x.spec_ssz() ==> y == x,
{
    lemma_signed_beacon_block_header_ssz_len(x);

    assert forall|y: SignedBeaconBlockHeader| #[trigger] y.spec_ssz() == x.spec_ssz() implies y == x by {
        lemma_signed_beacon_block_header_ssz_injective(y, x);
    }
}

impl BeaconBlockHeader {
    /// Return this header with `state_root` set.
    pub fn with_state_root(self, state_root: Root) -> (r: Self)
        ensures
            r == (BeaconBlockHeader { state_root, ..self }),
    {
        let mut header = self;
        header.state_root = state_root;
        header
    }
}

/// Block operations.
#[derive(Debug, Clone)]
pub struct BeaconBlockBody {
    /// Proposer's RANDAO reveal, mixed into committee-shuffling randomness.
    pub randao_reveal: BLSSignature,
    /// Proposer's deposit-chain vote used to track new deposits.
    pub eth1_data: Eth1Data,
    /// Proposer-supplied freeform 32-byte tag, ignored by consensus.
    pub graffiti: [u8; 32],
    /// Evidence of duplicate block proposals.
    pub proposer_slashings: List<ProposerSlashing, MAX_PROPOSER_SLASHINGS>,
    /// Evidence of double-vote or surround-vote misbehavior.
    pub attester_slashings: List<AttesterSlashing, MAX_ATTESTER_SLASHINGS>,
    /// Validator votes for the head block and finality checkpoints.
    pub attestations: List<Attestation, MAX_ATTESTATIONS>,
    /// Legacy block-body deposits from the spec shape.
    pub deposits: List<Deposit, MAX_DEPOSITS>,
    /// Validator-signed requests to leave the active set.
    pub voluntary_exits: List<SignedVoluntaryExit, MAX_VOLUNTARY_EXITS>,
    /// Aggregate sync-committee signature over the previous-slot block root.
    pub sync_aggregate: SyncAggregate,
    /// Requests to swap BLS withdrawal credentials for execution addresses.
    pub bls_to_execution_changes: List<SignedBLSToExecutionChange, MAX_BLS_TO_EXECUTION_CHANGES>,
    /// Builder bid the proposer committed to for this slot.
    pub signed_execution_payload_bid: SignedExecutionPayloadBid,
    /// Payload-timeliness committee votes for the parent slot's payload.
    pub payload_attestations: List<PayloadAttestation, MAX_PAYLOAD_ATTESTATIONS>,
    /// Execution-to-consensus requests from the parent slot's payload.
    pub parent_execution_requests: ExecutionRequests,
}

/// A beacon block: slot, proposer, parent link, post-state root and body.
#[derive(Debug, Clone)]
pub struct BeaconBlock {
    /// Slot the block is for.
    pub slot: Slot,
    /// Validator that proposed the block.
    pub proposer_index: ValidatorIndex,
    /// Root of the parent block.
    pub parent_root: Root,
    /// Root of the post-state produced by applying this block.
    pub state_root: Root,
    /// Block operations.
    pub body: BeaconBlockBody,
}

impl BeaconBlock {
    /// Header corresponding to this block and the supplied body/state roots.
    pub fn header(&self, body_root: Root, state_root: Root) -> (r: BeaconBlockHeader)
        ensures
            r == (BeaconBlockHeader {
                slot: self.slot,
                proposer_index: self.proposer_index,
                parent_root: self.parent_root,
                state_root,
                body_root,
            }),
    {
        BeaconBlockHeader {
            slot: self.slot,
            proposer_index: self.proposer_index,
            parent_root: self.parent_root,
            state_root,
            body_root,
        }
    }
}

/// Beacon block plus the proposer's signature.
#[derive(Debug, Clone)]
pub struct SignedBeaconBlock {
    /// The block being signed.
    pub message: BeaconBlock,
    /// Proposer's signature over the domain-separated signing root of `message`.
    pub signature: BLSSignature,
}

} // verus!
