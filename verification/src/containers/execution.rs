//! Execution payloads, builder bids and payload envelopes.
use vstd::prelude::*;
use vstd::slice::slice_subrange;

use crate::ssz::basic::{
    bool_byte, bytes_is_variable_size, bytes_size_hint, deserialize_bool, deserialize_bytes,
    deserialize_u64, deserialize_u8, hash_tree_root_bool, hash_tree_root_bytes,
    hash_tree_root_u64, hash_tree_root_u8, lemma_u64_from_le_roundtrip, lemma_u64_le_injective,
    serialize_bool, serialize_bytes, serialize_u64, serialize_u8, spec_bool_root,
    spec_u64_le, spec_u64_root, spec_u8_root, u64_is_variable_size, u64_size_hint,
    u8_is_variable_size, u8_size_hint,
};
use crate::ssz::error::{length_error, wrong_length};
use crate::ssz::merkle::{merkleize_roots, roots_view, spec_merkleize, spec_merkleize_bytes};
use crate::ssz::{DeserializeError, MerkleizationError, Node, SerializeError};
use crate::constants::{
    BYTES_PER_LOGS_BLOOM, MAX_BLOB_COMMITMENTS_PER_BLOCK, MAX_BYTES_PER_TRANSACTION,
    MAX_EXTRA_DATA_BYTES, MAX_TRANSACTIONS_PER_PAYLOAD, MAX_WITHDRAWALS_PER_PAYLOAD,
};
use crate::containers::withdrawal::{ExecutionRequests, Withdrawal};
use crate::primitives::{
    BLSSignature, BuilderIndex, ExecutionAddress, Gwei, Hash32, KZGCommitment, Root, Slot, Uint256,
};
use crate::ssz::{List, Vector};

verus! {

/// A proof-of-work block as seen by the merge transition.
#[derive(Default, Debug, Clone, Copy, PartialEq, Eq)]
pub struct PowBlock {
    /// Execution-layer block hash.
    pub block_hash: Hash32,
    /// Parent execution-layer block hash.
    pub parent_hash: Hash32,
    /// Accumulated proof-of-work difficulty.
    pub total_difficulty: Uint256,
}

impl PowBlock {
    /// The SSZ encoding: the fields' encodings in order.
    pub open spec fn spec_ssz(self) -> Seq<u8> {
        self.block_hash.spec_ssz()
            + self.parent_hash.spec_ssz()
            + self.total_difficulty.spec_ssz()
    }

    /// The hash-tree-roots of the fields in order.
    pub open spec fn spec_field_roots(self) -> Seq<Seq<u8>> {
        seq![
            self.block_hash.spec_root(),
            self.parent_hash.spec_root(),
            self.total_difficulty.spec_root(),
        ]
    }

    /// The hash-tree-root: the merkle root of the field roots.
    pub open spec fn spec_root(self) -> Seq<u8> {
        spec_merkleize(self.spec_field_roots())
    }

    /// Whether `bytes` is the encoding of some value.
    pub open spec fn spec_valid_ssz(bytes: Seq<u8>) -> bool {
        bytes.len() == 96
    }

    /// A container is variable-size when any field is.
    pub fn is_variable_size() -> (r: bool)
        ensures
            !r,
    {
        Hash32::is_variable_size()
            || Hash32::is_variable_size()
            || Uint256::is_variable_size()
    }

    /// The encoded size: the sum of the field sizes.
    pub fn size_hint() -> (r: usize)
        ensures
            r == 96,
    {
        Hash32::size_hint()
            + Hash32::size_hint()
            + Uint256::size_hint()
    }

    /// Append the encoding of every field in order.
    pub fn serialize(&self, buffer: &mut Vec<u8>) -> (r: Result<usize, SerializeError>)
        ensures
            r == Ok::<usize, SerializeError>(96),
            final(buffer)@ == old(buffer)@ + self.spec_ssz(),
    {
        let _ = self.block_hash.serialize(buffer);
        let _ = self.parent_hash.serialize(buffer);
        let _ = self.total_difficulty.serialize(buffer);
        assert(buffer@ =~= old(buffer)@ + self.spec_ssz());
        Ok(96)
    }

    /// Decode every field from its fixed position in exactly 96 bytes.
    pub fn deserialize(encoding: &[u8]) -> (r: Result<Self, DeserializeError>)
        ensures
            r is Ok <==> Self::spec_valid_ssz(encoding@),
            r matches Ok(v) ==> v.spec_ssz() == encoding@,
            r matches Err(e) ==> e == length_error(encoding@.len() as usize, 96),
    {
        if encoding.len() != 96 {
            return Err(wrong_length(encoding.len(), 96));
        }
        let block_hash = Hash32::deserialize(slice_subrange(encoding, 0, 32))?;
        let parent_hash = Hash32::deserialize(slice_subrange(encoding, 32, 64))?;
        let total_difficulty = Uint256::deserialize(slice_subrange(encoding, 64, 96))?;
        let v = PowBlock { block_hash, parent_hash, total_difficulty };
        proof {

            assert(v.spec_ssz() =~= encoding@);
        }
        Ok(v)
    }

    /// The merkle root of the field roots.
    pub fn hash_tree_root(&self) -> (r: Result<Node, MerkleizationError>)
        ensures
            r matches Ok(n) && n.0@ == self.spec_root(),
    {
        let r0 = self.block_hash.hash_tree_root()?;
        let r1 = self.parent_hash.hash_tree_root()?;
        let r2 = self.total_difficulty.hash_tree_root()?;
        let roots = [r0, r1, r2];
        assert(roots_view(roots@) =~= self.spec_field_roots());
        Ok(merkleize_roots(roots.as_slice()))
    }

    /// A container is a composite type.
    pub fn is_composite_type() -> (r: bool)
        ensures
            r,
    {
        true
    }
}

/// The encoding of a `PowBlock` is 96 bytes long.
pub proof fn lemma_pow_block_ssz_len(x: PowBlock)
    ensures
        x.spec_ssz().len() == 96,
{

}

/// Distinct `PowBlock` values have distinct encodings.
pub proof fn lemma_pow_block_ssz_injective(a: PowBlock, b: PowBlock)
    requires
        a.spec_ssz() == b.spec_ssz(),
    ensures
        a == b,
{
    lemma_pow_block_ssz_len(a);
    assert(a.spec_ssz().subrange(0, 32) =~= a.block_hash.spec_ssz());
    assert(b.spec_ssz().subrange(0, 32) =~= b.block_hash.spec_ssz());
    assert(a.block_hash.0 =~= b.block_hash.0);
    assert(a.spec_ssz().subrange(32, 64) =~= a.parent_hash.spec_ssz());
    assert(b.spec_ssz().subrange(32, 64) =~= b.parent_hash.spec_ssz());
    assert(a.parent_hash.0 =~= b.parent_hash.0);
    assert(a.spec_ssz().subrange(64, 96) =~= a.total_difficulty.spec_ssz());
    assert(b.spec_ssz().subrange(64, 96) =~= b.total_difficulty.spec_ssz());
    assert(a.total_difficulty.0 =~= b.total_difficulty.0);
}

/// Encoding then decoding a `PowBlock` gives it back: its encoding is accepted
/// by the decoder, and no other value has the same encoding.
pub proof fn lemma_pow_block_ssz_roundtrip(x: PowBlock)
    ensures
        PowBlock::spec_valid_ssz(x.spec_ssz()),
        forall|y: PowBlock| #[trigger] y.spec_ssz() == x.spec_ssz() ==> y == x,
{
    lemma_pow_block_ssz_len(x);

    assert forall|y: PowBlock| #[trigger] y.spec_ssz() == x.spec_ssz() implies y == x by {
        lemma_pow_block_ssz_injective(y, x);
    }
}

/// An execution-layer payload.
#[derive(Debug, Clone)]
pub struct ExecutionPayload {
    /// Parent execution block hash.
    pub parent_hash: Hash32,
    /// Address that receives priority fees and builder payments.
    pub fee_recipient: ExecutionAddress,
    /// State root of the execution-layer trie after applying this payload.
    pub state_root: [u8; 32],
    /// Root of the transaction-receipts trie.
    pub receipts_root: [u8; 32],
    /// Bloom filter over event logs emitted by transactions in the payload.
    pub logs_bloom: Vector<u8, BYTES_PER_LOGS_BLOOM>,
    /// RANDAO mix carried from the consensus layer for execution-layer use.
    pub prev_randao: [u8; 32],
    /// Execution-layer block height.
    pub block_number: u64,
    /// Maximum gas budget for the block.
    pub gas_limit: u64,
    /// Gas actually consumed by the block's transactions.
    pub gas_used: u64,
    /// Unix timestamp the payload was produced for.
    pub timestamp: u64,
    /// Proposer-supplied freeform bytes (capped to 32).
    pub extra_data: List<u8, MAX_EXTRA_DATA_BYTES>,
    /// Base fee per gas (little-endian 256-bit integer).
    pub base_fee_per_gas: Uint256,
    /// Execution-layer block hash.
    pub block_hash: Hash32,
    /// Opaque transactions, each itself a length-prefixed byte list.
    pub transactions: List<List<u8, MAX_BYTES_PER_TRANSACTION>, MAX_TRANSACTIONS_PER_PAYLOAD>,
    /// Withdrawals applied at the execution layer (capped per payload).
    pub withdrawals: List<Withdrawal, MAX_WITHDRAWALS_PER_PAYLOAD>,
    /// Blob gas consumed by this payload.
    pub blob_gas_used: u64,
    /// Excess blob gas used to price the next payload's blobs.
    pub excess_blob_gas: u64,
    /// Block-access list as opaque RLP-encoded bytes.
    pub block_access_list: List<u8, MAX_BYTES_PER_TRANSACTION>,
    /// Slot tag echoed back to the consensus layer.
    pub slot_number: u64,
}

/// A builder's bid: the payload commitment a proposer includes in its block.
#[derive(Debug, Clone)]
pub struct ExecutionPayloadBid {
    /// Execution-layer parent block hash the bid is conditioned on.
    pub parent_block_hash: Hash32,
    /// Consensus-layer parent block root the bid is conditioned on.
    pub parent_block_root: Root,
    /// Hash the builder commits to producing as the next execution block.
    pub block_hash: Hash32,
    /// RANDAO value the builder expects the proposer to reveal for the slot.
    pub prev_randao: [u8; 32],
    /// Address receiving priority fees and the accepted bid value.
    pub fee_recipient: ExecutionAddress,
    /// Gas budget the builder commits to honoring.
    pub gas_limit: u64,
    /// Builder offering the bid, or the self-build sentinel.
    pub builder_index: BuilderIndex,
    /// Slot the bid is for.
    pub slot: Slot,
    /// Trustless Gwei amount the builder will pay the proposer if accepted.
    pub value: Gwei,
    /// Trusted execution-layer payment marker, zero for broadcast bids.
    pub execution_payment: Gwei,
    /// KZG commitments the builder pre-commits to including blobs for.
    pub blob_kzg_commitments: List<KZGCommitment, MAX_BLOB_COMMITMENTS_PER_BLOCK>,
    /// Tree root of the execution-to-consensus requests the builder commits to.
    pub execution_requests_root: Root,
}

/// A signed builder bid.
#[derive(Debug, Clone)]
pub struct SignedExecutionPayloadBid {
    /// The bid being signed.
    pub message: ExecutionPayloadBid,
    /// Builder signature, or the point at infinity for self-build bids.
    pub signature: BLSSignature,
}

/// The delivered payload for a bid, bound to its beacon block.
#[derive(Debug, Clone)]
pub struct ExecutionPayloadEnvelope {
    /// The execution payload delivered for the bid.
    pub payload: ExecutionPayload,
    /// Execution-to-consensus requests carried by the payload.
    pub execution_requests: ExecutionRequests,
    /// Accepted bid's builder index, or the self-build sentinel.
    pub builder_index: BuilderIndex,
    /// Root of the beacon block this envelope is bound to.
    pub beacon_block_root: Root,
    /// Root of the parent beacon block.
    pub parent_beacon_block_root: Root,
}

/// A signed payload envelope.
#[derive(Debug, Clone)]
pub struct SignedExecutionPayloadEnvelope {
    /// The envelope being signed.
    pub message: ExecutionPayloadEnvelope,
    /// Signature from the required envelope signer.
    pub signature: BLSSignature,
}

} // verus!
