//! Chain metadata containers: signing versions, finality checkpoints,
//! historical summaries, deposit votes and signing data.
use vstd::prelude::*;
use vstd::slice::slice_subrange;

use crate::ssz::basic::{
    bool_byte, bytes_is_variable_size, bytes_size_hint, deserialize_bool, deserialize_bytes,
    deserialize_u64, deserialize_u8, hash_tree_root_bool, hash_tree_root_bytes,
    hash_tree_root_u64, hash_tree_root_u8, lemma_u64_from_le_roundtrip, lemma_u64_le_injective,
    serialize_bool, serialize_bytes, serialize_u64, serialize_u8, spec_bool_root,
    spec_u64_le, spec_u64_root, spec_u8_root, u64_is_variable_size, u64_size_hint,
    u8_is_variable_size, u8_size_hint,
};
use crate::ssz::error::{length_error, wrong_length};
use crate::ssz::merkle::{merkleize_roots, roots_view, spec_merkleize, spec_merkleize_bytes};
use crate::ssz::{DeserializeError, MerkleizationError, Node, SerializeError};
use crate::primitives::byte_arrays::lemma_root_eq;
use crate::constants::{ELECTRA_FORK_EPOCH, MAX_BLOBS_PER_BLOCK};
use crate::primitives::{Domain, Epoch, Hash32, Root, Version};

verus! {

/// Active blob-parameter tuple used for request contexts and bid limits.
#[derive(Default, Debug, Clone, Copy, PartialEq, Eq)]
pub struct BlobParameters {
    /// Epoch at which this tuple became active.
    pub epoch: Epoch,
    /// Maximum blobs allowed per block under this tuple.
    pub max_blobs_per_block: u64,
}

impl BlobParameters {
    /// The SSZ encoding: the fields' encodings in order.
    pub open spec fn spec_ssz(self) -> Seq<u8> {
        self.epoch.spec_ssz()
            + spec_u64_le(self.max_blobs_per_block)
    }

    /// The hash-tree-roots of the fields in order.
    pub open spec fn spec_field_roots(self) -> Seq<Seq<u8>> {
        seq![
            self.epoch.spec_root(),
            spec_u64_root(self.max_blobs_per_block),
        ]
    }

    /// The hash-tree-root: the merkle root of the field roots.
    pub open spec fn spec_root(self) -> Seq<u8> {
        spec_merkleize(self.spec_field_roots())
    }

    /// Whether `bytes` is the encoding of some value.
    pub open spec fn spec_valid_ssz(bytes: Seq<u8>) -> bool {
        bytes.len() == 16
    }

    /// A container is variable-size when any field is.
    pub fn is_variable_size() -> (r: bool)
        ensures
            !r,
    {
        Epoch::is_variable_size()
            || u64_is_variable_size()
    }

    /// The encoded size: the sum of the field sizes.
    pub fn size_hint() -> (r: usize)
        ensures
            r == 16,
    {
        Epoch::size_hint()
            + u64_size_hint()
    }

    /// Append the encoding of every field in order.
    pub fn serialize(&self, buffer: &mut Vec<u8>) -> (r: Result<usize, SerializeError>)
        ensures
            r == Ok::<usize, SerializeError>(16),
            final(buffer)@ == old(buffer)@ + self.spec_ssz(),
    {
        let _ = self.epoch.serialize(buffer);
        let _ = serialize_u64(self.max_blobs_per_block, buffer);
        assert(buffer@ =~= old(buffer)@ + self.spec_ssz());
        Ok(16)
    }

    /// Decode every field from its fixed position in exactly 16 bytes.
    pub fn deserialize(encoding: &[u8]) -> (r: Result<Self, DeserializeError>)
        ensures
            r is Ok <==> Self::spec_valid_ssz(encoding@),
            r matches Ok(v) ==> v.spec_ssz() == encoding@,
            r matches Err(e) ==> e == length_error(encoding@.len() as usize, 16),
    {
        if encoding.len() != 16 {
            return Err(wrong_length(encoding.len(), 16));
        }
        let epoch = Epoch::deserialize(slice_subrange(encoding, 0, 8))?;
        let max_blobs_per_block = deserialize_u64(slice_subrange(encoding, 8, 16))?;
        let v = BlobParameters { epoch, max_blobs_per_block };
        proof {
            lemma_u64_from_le_roundtrip(encoding@.subrange(0, 8));
            lemma_u64_from_le_roundtrip(encoding@.subrange(8, 16));
            assert(v.spec_ssz() =~= encoding@);
        }
        Ok(v)
    }

    /// The merkle root of the field roots.
    pub fn hash_tree_root(&self) -> (r: Result<Node, MerkleizationError>)
        ensures
            r matches Ok(n) && n.0@ == self.spec_root(),
    {
        let r0 = self.epoch.hash_tree_root()?;
        let r1 = hash_tree_root_u64(self.max_blobs_per_block)?;
        let roots = [r0, r1];
        assert(roots_view(roots@) =~= self.spec_field_roots());
        Ok(merkleize_roots(roots.as_slice()))
    }

    /// A container is a composite type.
    pub fn is_composite_type() -> (r: bool)
        ensures
            r,
    {
        true
    }
}

/// The encoding of a `BlobParameters` is 16 bytes long.
pub proof fn lemma_blob_parameters_ssz_len(x: BlobParameters)
    ensures
        x.spec_ssz().len() == 16,
{

}

/// Distinct `BlobParameters` values have distinct encodings.
pub proof fn lemma_blob_parameters_ssz_injective(a: BlobParameters, b: BlobParameters)
    requires
        a.spec_ssz() == b.spec_ssz(),
    ensures
        a == b,
{
    lemma_blob_parameters_ssz_len(a);
    assert(a.spec_ssz().subrange(0, 8) =~= a.epoch.spec_ssz());
    assert(b.spec_ssz().subrange(0, 8) =~= b.epoch.spec_ssz());
    lemma_u64_le_injective(a.epoch.0, b.epoch.0);
    assert(a.spec_ssz().subrange(8, 16) =~= spec_u64_le(a.max_blobs_per_block));
    assert(b.spec_ssz().subrange(8, 16) =~= spec_u64_le(b.max_blobs_per_block));
    lemma_u64_le_injective(a.max_blobs_per_block, b.max_blobs_per_block);
}

/// Encoding then decoding a `BlobParameters` gives it back: its encoding is accepted
/// by the decoder, and no other value has the same encoding.
pub proof fn lemma_blob_parameters_ssz_roundtrip(x: BlobParameters)
    ensures
        BlobParameters::spec_valid_ssz(x.spec_ssz()),
        forall|y: BlobParameters| #[trigger] y.spec_ssz() == x.spec_ssz() ==> y == x,
{
    lemma_blob_parameters_ssz_len(x);

    assert forall|y: BlobParameters| #[trigger] y.spec_ssz() == x.spec_ssz() implies y == x by {
        lemma_blob_parameters_ssz_injective(y, x);
    }
}

/// Tracks the active signing version and the version it succeeded.
#[derive(Default, Debug, Clone, Copy, PartialEq, Eq)]
pub struct Fork {
    /// Signing version active before `epoch`.
    pub previous_version: Version,
    /// Signing version active from `epoch` onward.
    pub current_version: Version,
    /// Epoch at which the current version became active.
    pub epoch: Epoch,
}

impl Fork {
    /// The SSZ encoding: the fields' encodings in order.
    pub open spec fn spec_ssz(self) -> Seq<u8> {
        self.previous_version.spec_ssz()
            + self.current_version.spec_ssz()
            + self.epoch.spec_ssz()
    }

    /// The hash-tree-roots of the fields in order.
    pub open spec fn spec_field_roots(self) -> Seq<Seq<u8>> {
        seq![
            self.previous_version.spec_root(),
            self.current_version.spec_root(),
            self.epoch.spec_root(),
        ]
    }

    /// The hash-tree-root: the merkle root of the field roots.
    pub open spec fn spec_root(self) -> Seq<u8> {
        spec_merkleize(self.spec_field_roots())
    }

    /// Whether `bytes` is the encoding of some value.
    pub open spec fn spec_valid_ssz(bytes: Seq<u8>) -> bool {
        bytes.len() == 16
    }

    /// A container is variable-size when any field is.
    pub fn is_variable_size() -> (r: bool)
        ensures
            !r,
    {
        Version::is_variable_size()
            || Version::is_variable_size()
            || Epoch::is_variable_size()
    }

    /// The encoded size: the sum of the field sizes.
    pub fn size_hint() -> (r: usize)
        ensures
            r == 16,
    {
        Version::size_hint()
            + Version::size_hint()
            + Epoch::size_hint()
    }

    /// Append the encoding of every field in order.
    pub fn serialize(&self, buffer: &mut Vec<u8>) -> (r: Result<usize, SerializeError>)
        ensures
            r == Ok::<usize, SerializeError>(16),
            final(buffer)@ == old(buffer)@ + self.spec_ssz(),
    {
        let _ = self.previous_version.serialize(buffer);
        let _ = self.current_version.serialize(buffer);
        let _ = self.epoch.serialize(buffer);
        assert(buffer@ =~= old(buffer)@ + self.spec_ssz());
        Ok(16)
    }

    /// Decode every field from its fixed position in exactly 16 bytes.
    pub fn deserialize(encoding: &[u8]) -> (r: Result<Self, DeserializeError>)
        ensures
            r is Ok <==> Self::spec_valid_ssz(encoding@),
            r matches Ok(v) ==> v.spec_ssz() == encoding@,
            r matches Err(e) ==> e == length_error(encoding@.len() as usize, 16),
    {
        if encoding.len() != 16 {
            return Err(wrong_length(encoding.len(), 16));
        }
        let previous_version = Version::deserialize(slice_subrange(encoding, 0, 4))?;
        let current_version = Version::deserialize(slice_subrange(encoding, 4, 8))?;
        let epoch = Epoch::deserialize(slice_subrange(encoding, 8, 16))?;
        let v = Fork { previous_version, current_version, epoch };
        proof {
            lemma_u64_from_le_roundtrip(encoding@.subrange(8, 16));
            assert(v.spec_ssz() =~= encoding@);
        }
        Ok(v)
    }

    /// The merkle root of the field roots.
    pub fn hash_tree_root(&self) -> (r: Result<Node, MerkleizationError>)
        ensures
            r matches Ok(n) && n.0@ == self.spec_root(),
    {
        let r0 = self.previous_version.hash_tree_root()?;
        let r1 = self.current_version.hash_tree_root()?;
        let r2 = self.epoch.hash_tree_root()?;
        let roots = [r0, r1, r2];
        assert(roots_view(roots@) =~= self.spec_field_roots());
        Ok(merkleize_roots(roots.as_slice()))
    }

    /// A container is a composite type.
    pub fn is_composite_type() -> (r: bool)
        ensures
            r,
    {
        true
    }
}

/// The encoding of a `Fork` is 16 bytes long.
pub proof fn lemma_fork_ssz_len(x: Fork)
    ensures
        x.spec_ssz().len() == 16,
{

}

/// Distinct `Fork` values have distinct encodings.
pub proof fn lemma_fork_ssz_injective(a: Fork, b: Fork)
    requires
        a.spec_ssz() == b.spec_ssz(),
    ensures
        a == b,
{
    lemma_fork_ssz_len(a);
    assert(a.spec_ssz().subrange(0, 4) =~= a.previous_version.spec_ssz());
    assert(b.spec_ssz().subrange(0, 4) =~= b.previous_version.spec_ssz());
    assert(a.previous_version.0 =~= b.previous_version.0);
    assert(a.spec_ssz().subrange(4, 8) =~= a.current_version.spec_ssz());
    assert(b.spec_ssz().subrange(4, 8) =~= b.current_version.spec_ssz());
    assert(a.current_version.0 =~= b.current_version.0);
    assert(a.spec_ssz().subrange(8, 16) =~= a.epoch.spec_ssz());
    assert(b.spec_ssz().subrange(8, 16) =~= b.epoch.spec_ssz());
    lemma_u64_le_injective(a.epoch.0, b.epoch.0);
}

/// Encoding then decoding a `Fork` gives it back: its encoding is accepted
/// by the decoder, and no other value has the same encoding.
pub proof fn lemma_fork_ssz_roundtrip(x: Fork)
    ensures
        Fork::spec_valid_ssz(x.spec_ssz()),
        forall|y: Fork| #[trigger] y.spec_ssz() == x.spec_ssz() ==> y == x,
{
    lemma_fork_ssz_len(x);

    assert forall|y: Fork| #[trigger] y.spec_ssz() == x.spec_ssz() implies y == x by {
        lemma_fork_ssz_injective(y, x);
    }
}

/// Domain-separation tuple fed into signing-domain construction.
#[derive(Default, Debug, Clone, Copy, PartialEq, Eq)]
pub struct ForkData {
    /// Signing version used for domain separation.
    pub current_version: Version,
    /// Root of the validator set at genesis, tying the signature to this chain.
    pub genesis_validators_root: Root,
}

impl ForkData {
    /// The SSZ encoding: the fields' encodings in order.
    pub open spec fn spec_ssz(self) -> Seq<u8> {
        self.current_version.spec_ssz()
            + self.genesis_validators_root.spec_ssz()
    }

    /// The hash-tree-roots of the fields in order.
    pub open spec fn spec_field_roots(self) -> Seq<Seq<u8>> {
        seq![
            self.current_version.spec_root(),
            self.genesis_validators_root.spec_root(),
        ]
    }

    /// The hash-tree-root: the merkle root of the field roots.
    pub open spec fn spec_root(self) -> Seq<u8> {
        spec_merkleize(self.spec_field_roots())
    }

    /// Whether `bytes` is the encoding of some value.
    pub open spec fn spec_valid_ssz(bytes: Seq<u8>) -> bool {
        bytes.len() == 36
    }

    /// A container is variable-size when any field is.
    pub fn is_variable_size() -> (r: bool)
        ensures
            !r,
    {
        Version::is_variable_size()
            || Root::is_variable_size()
    }

    /// The encoded size: the sum of the field sizes.
    pub fn size_hint() -> (r: usize)
        ensures
            r == 36,
    {
        Version::size_hint()
            + Root::size_hint()
    }

    /// Append the encoding of every field in order.
    pub fn serialize(&self, buffer: &mut Vec<u8>) -> (r: Result<usize, SerializeError>)
        ensures
            r == Ok::<usize, SerializeError>(36),
            final(buffer)@ == old(buffer)@ + self.spec_ssz(),
    {
        let _ = self.current_version.serialize(buffer);
        let _ = self.genesis_validators_root.serialize(buffer);
        assert(buffer@ =~= old(buffer)@ + self.spec_ssz());
        Ok(36)
    }

    /// Decode every field from its fixed position in exactly 36 bytes.
    pub fn deserialize(encoding: &[u8]) -> (r: Result<Self, DeserializeError>)
        ensures
            r is Ok <==> Self::spec_valid_ssz(encoding@),
            r matches Ok(v) ==> v.spec_ssz() == encoding@,
            r matches Err(e) ==> e == length_error(encoding@.len() as usize, 36),
    {
        if encoding.len() != 36 {
            return Err(wrong_length(encoding.len(), 36));
        }
        let current_version = Version::deserialize(slice_subrange(encoding, 0, 4))?;
        let genesis_validators_root = Root::deserialize(slice_subrange(encoding, 4, 36))?;
        let v = ForkData { current_version, genesis_validators_root };
        proof {

            assert(v.spec_ssz() =~= encoding@);
        }
        Ok(v)
    }

    /// The merkle root of the field roots.
    pub fn hash_tree_root(&self) -> (r: Result<Node, MerkleizationError>)
        ensures
            r matches Ok(n) && n.0@ == self.spec_root(),
    {
        let r0 = self.current_version.hash_tree_root()?;
        let r1 = self.genesis_validators_root.hash_tree_root()?;
        let roots = [r0, r1];
        assert(roots_view(roots@) =~= self.spec_field_roots());
        Ok(merkleize_roots(roots.as_slice()))
    }

    /// A container is a composite type.
    pub fn is_composite_type() -> (r: bool)
        ensures
            r,
    {
        true
    }
}

/// The encoding of a `ForkData` is 36 bytes long.
pub proof fn lemma_fork_data_ssz_len(x: ForkData)
    ensures
        x.spec_ssz().len() == 36,
{

}

/// Distinct `ForkData` values have distinct encodings.
pub proof fn lemma_fork_data_ssz_injective(a: ForkData, b: ForkData)
    requires
        a.spec_ssz() == b.spec_ssz(),
    ensures
        a == b,
{
    lemma_fork_data_ssz_len(a);
    assert(a.spec_ssz().subrange(0, 4) =~= a.current_version.spec_ssz());
    assert(b.spec_ssz().subrange(0, 4) =~= b.current_version.spec_ssz());
    assert(a.current_version.0 =~= b.current_version.0);
    assert(a.spec_ssz().subrange(4, 36) =~= a.genesis_validators_root.spec_ssz());
    assert(b.spec_ssz().subrange(4, 36) =~= b.genesis_validators_root.spec_ssz());
    assert(a.genesis_validators_root.0 =~= b.genesis_validators_root.0);
}

/// Encoding then decoding a `ForkData` gives it back: its encoding is accepted
/// by the decoder, and no other value has the same encoding.
pub proof fn lemma_fork_data_ssz_roundtrip(x: ForkData)
    ensures
        ForkData::spec_valid_ssz(x.spec_ssz()),
        forall|y: ForkData| #[trigger] y.spec_ssz() == x.spec_ssz() ==> y == x,
{
    lemma_fork_data_ssz_len(x);

    assert forall|y: ForkData| #[trigger] y.spec_ssz() == x.spec_ssz() implies y == x by {
        lemma_fork_data_ssz_injective(y, x);
    }
}

/// Casper finality checkpoint: the `(epoch, block_root)` pair finality refers to.
#[derive(Default, Debug, Clone, Copy, PartialEq, Eq, Hash)]
pub struct Checkpoint {
    /// Epoch the checkpoint is at.
    pub epoch: Epoch,
    /// Block root at the start of `epoch`.
    pub root: Root,
}

impl Checkpoint {
    /// The SSZ encoding: the fields' encodings in order.
    pub open spec fn spec_ssz(self) -> Seq<u8> {
        self.epoch.spec_ssz()
            + self.root.spec_ssz()
    }

    /// The hash-tree-roots of the fields in order.
    pub open spec fn spec_field_roots(self) -> Seq<Seq<u8>> {
        seq![
            self.epoch.spec_root(),
            self.root.spec_root(),
        ]
    }

    /// The hash-tree-root: the merkle root of the field roots.
    pub open spec fn spec_root(self) -> Seq<u8> {
        spec_merkleize(self.spec_field_roots())
    }

    /// Whether `bytes` is the encoding of some value.
    pub open spec fn spec_valid_ssz(bytes: Seq<u8>) -> bool {
        bytes.len() == 40
    }

    /// A container is variable-size when any field is.
    pub fn is_variable_size() -> (r: bool)
        ensures
            !r,
    {
        Epoch::is_variable_size()
            || Root::is_variable_size()
    }

    /// The encoded size: the sum of the field sizes.
    pub fn size_hint() -> (r: usize)
        ensures
            r == 40,
    {
        Epoch::size_hint()
            + Root::size_hint()
    }

    /// Append the encoding of every field in order.
    pub fn serialize(&self, buffer: &mut Vec<u8>) -> (r: Result<usize, SerializeError>)
        ensures
            r == Ok::<usize, SerializeError>(40),
            final(buffer)@ == old(buffer)@ + self.spec_ssz(),
    {
        let _ = self.epoch.serialize(buffer);
        let _ = self.root.serialize(buffer);
        assert(buffer@ =~= old(buffer)@ + self.spec_ssz());
        Ok(40)
    }

    /// Decode every field from its fixed position in exactly 40 bytes.
    pub fn deserialize(encoding: &[u8]) -> (r: Result<Self, DeserializeError>)
        ensures
            r is Ok <==> Self::spec_valid_ssz(encoding@),
            r matches Ok(v) ==> v.spec_ssz() == encoding@,
            r matches Err(e) ==> e == length_error(encoding@.len() as usize, 40),
    {
        if encoding.len() != 40 {
            return Err(wrong_length(encoding.len(), 40));
        }
        let epoch = Epoch::deserialize(slice_subrange(encoding, 0, 8))?;
        let root = Root::deserialize(slice_subrange(encoding, 8, 40))?;
        let v = Checkpoint { epoch, root };
        proof {
            lemma_u64_from_le_roundtrip(encoding@.subrange(0, 8));
            assert(v.spec_ssz() =~= encoding@);
        }
        Ok(v)
    }

    /// The merkle root of the field roots.
    pub fn hash_tree_root(&self) -> (r: Result<Node, MerkleizationError>)
        ensures
            r matches Ok(n) && n.0@ == self.spec_root(),
    {
        let r0 = self.epoch.hash_tree_root()?;
        let r1 = self.root.hash_tree_root()?;
        let roots = [r0, r1];
        assert(roots_view(roots@) =~= self.spec_field_roots());
        Ok(merkleize_roots(roots.as_slice()))
    }

    /// A container is a composite type.
    pub fn is_composite_type() -> (r: bool)
        ensures
            r,
    {
        true
    }
}

/// The encoding of a `Checkpoint` is 40 bytes long.
pub proof fn lemma_checkpoint_ssz_len(x: Checkpoint)
    ensures
        x.spec_ssz().len() == 40,
{

}

/// Distinct `Checkpoint` values have distinct encodings.
pub proof fn lemma_checkpoint_ssz_injective(a: Checkpoint, b: Checkpoint)
    requires
        a.spec_ssz() == b.spec_ssz(),
    ensures
        a == b,
{
    lemma_checkpoint_ssz_len(a);
    assert(a.spec_ssz().subrange(0, 8) =~= a.epoch.spec_ssz());
    assert(b.spec_ssz().subrange(0, 8) =~= b.epoch.spec_ssz());
    lemma_u64_le_injective(a.epoch.0, b.epoch.0);
    assert(a.spec_ssz().subrange(8, 40) =~= a.root.spec_ssz());
    assert(b.spec_ssz().subrange(8, 40) =~= b.root.spec_ssz());
    assert(a.root.0 =~= b.root.0);
}

/// Encoding then decoding a `Checkpoint` gives it back: its encoding is accepted
/// by the decoder, and no other value has the same encoding.
pub proof fn lemma_checkpoint_ssz_roundtrip(x: Checkpoint)
    ensures
        Checkpoint::spec_valid_ssz(x.spec_ssz()),
        forall|y: Checkpoint| #[trigger] y.spec_ssz() == x.spec_ssz() ==> y == x,
{
    lemma_checkpoint_ssz_len(x);

    assert forall|y: Checkpoint| #[trigger] y.spec_ssz() == x.spec_ssz() implies y == x by {
        lemma_checkpoint_ssz_injective(y, x);
    }
}

/// Per-historical-period roots stored in `BeaconState.historical_summaries`.
#[derive(Default, Debug, Clone, Copy, PartialEq, Eq)]
pub struct HistoricalSummary {
    /// Merkle root of the block-roots ring buffer for the period.
    pub block_summary_root: Root,
    /// Merkle root of the state-roots ring buffer for the period.
    pub state_summary_root: Root,
}

impl HistoricalSummary {
    /// The SSZ encoding: the fields' encodings in order.
    pub open spec fn spec_ssz(self) -> Seq<u8> {
        self.block_summary_root.spec_ssz()
            + self.state_summary_root.spec_ssz()
    }

    /// The hash-tree-roots of the fields in order.
    pub open spec fn spec_field_roots(self) -> Seq<Seq<u8>> {
        seq![
            self.block_summary_root.spec_root(),
            self.state_summary_root.spec_root(),
        ]
    }

    /// The hash-tree-root: the merkle root of the field roots.
    pub open spec fn spec_root(self) -> Seq<u8> {
        spec_merkleize(self.spec_field_roots())
    }

    /// Whether `bytes` is the encoding of some value.
    pub open spec fn spec_valid_ssz(bytes: Seq<u8>) -> bool {
        bytes.len() == 64
    }

    /// A container is variable-size when any field is.
    pub fn is_variable_size() -> (r: bool)
        ensures
            !r,
    {
        Root::is_variable_size()
            || Root::is_variable_size()
    }

    /// The encoded size: the sum of the field sizes.
    pub fn size_hint() -> (r: usize)
        ensures
            r == 64,
    {
        Root::size_hint()
            + Root::size_hint()
    }

    /// Append the encoding of every field in order.
    pub fn serialize(&self, buffer: &mut Vec<u8>) -> (r: Result<usize, SerializeError>)
        ensures
            r == Ok::<usize, SerializeError>(64),
            final(buffer)@ == old(buffer)@ + self.spec_ssz(),
    {
        let _ = self.block_summary_root.serialize(buffer);
        let _ = self.state_summary_root.serialize(buffer);
        assert(buffer@ =~= old(buffer)@ + self.spec_ssz());
        Ok(64)
    }

    /// Decode every field from its fixed position in exactly 64 bytes.
    pub fn deserialize(encoding: &[u8]) -> (r: Result<Self, DeserializeError>)
        ensures
            r is Ok <==> Self::spec_valid_ssz(encoding@),
            r matches Ok(v) ==> v.spec_ssz() == encoding@,
            r matches Err(e) ==> e == length_error(encoding@.len() as usize, 64),
    {
        if encoding.len() != 64 {
            return Err(wrong_length(encoding.len(), 64));
        }
        let block_summary_root = Root::deserialize(slice_subrange(encoding, 0, 32))?;
        let state_summary_root = Root::deserialize(slice_subrange(encoding, 32, 64))?;
        let v = HistoricalSummary { block_summary_root, state_summary_root };
        proof {

            assert(v.spec_ssz() =~= encoding@);
        }
        Ok(v)
    }

    /// The merkle root of the field roots.
    pub fn hash_tree_root(&self) -> (r: Result<Node, MerkleizationError>)
        ensures
            r matches Ok(n) && n.0@ == self.spec_root(),
    {
        let r0 = self.block_summary_root.hash_tree_root()?;
        let r1 = self.state_summary_root.hash_tree_root()?;
        let roots = [r0, r1];
        assert(roots_view(roots@) =~= self.spec_field_roots());
        Ok(merkleize_roots(roots.as_slice()))
    }

    /// A container is a composite type.
    pub fn is_composite_type() -> (r: bool)
        ensures
            r,
    {
        true
    }
}

/// The encoding of a `HistoricalSummary` is 64 bytes long.
pub proof fn lemma_historical_summary_ssz_len(x: HistoricalSummary)
    ensures
        x.spec_ssz().len() == 64,
{

}

/// Distinct `HistoricalSummary` values have distinct encodings.
pub proof fn lemma_historical_summary_ssz_injective(a: HistoricalSummary, b: HistoricalSummary)
    requires
        a.spec_ssz() == b.spec_ssz(),
    ensures
        a == b,
{
    lemma_historical_summary_ssz_len(a);
    assert(a.spec_ssz().subrange(0, 32) =~= a.block_summary_root.spec_ssz());
    assert(b.spec_ssz().subrange(0, 32) =~= b.block_summary_root.spec_ssz());
    assert(a.block_summary_root.0 =~= b.block_summary_root.0);
    assert(a.spec_ssz().subrange(32, 64) =~= a.state_summary_root.spec_ssz());
    assert(b.spec_ssz().subrange(32, 64) =~= b.state_summary_root.spec_ssz());
    assert(a.state_summary_root.0 =~= b.state_summary_root.0);
}

/// Encoding then decoding a `HistoricalSummary` gives it back: its encoding is accepted
/// by the decoder, and no other value has the same encoding.
pub proof fn lemma_historical_summary_ssz_roundtrip(x: HistoricalSummary)
    ensures
        HistoricalSummary::spec_valid_ssz(x.spec_ssz()),
        forall|y: HistoricalSummary| #[trigger] y.spec_ssz() == x.spec_ssz() ==> y == x,
{
    lemma_historical_summary_ssz_len(x);

    assert forall|y: HistoricalSummary| #[trigger] y.spec_ssz() == x.spec_ssz() implies y == x by {
        lemma_historical_summary_ssz_injective(y, x);
    }
}

/// Deposit-voting data observed in a block and aggregated across the voting period.
#[derive(Default, Debug, Clone, Copy, PartialEq, Eq)]
pub struct Eth1Data {
    /// Root of the deposit-contract Merkle tree at the voted deposit-chain block.
    pub deposit_root: Root,
    /// Total deposits observed up to and including the voted deposit-chain block.
    pub deposit_count: u64,
    /// Hash of the voted deposit-chain block.
    pub block_hash: Hash32,
}

impl Eth1Data {
    /// The SSZ encoding: the fields' encodings in order.
    pub open spec fn spec_ssz(self) -> Seq<u8> {
        self.deposit_root.spec_ssz()
            + spec_u64_le(self.deposit_count)
            + self.block_hash.spec_ssz()
    }

    /// The hash-tree-roots of the fields in order.
    pub open spec fn spec_field_roots(self) -> Seq<Seq<u8>> {
        seq![
            self.deposit_root.spec_root(),
            spec_u64_root(self.deposit_count),
            self.block_hash.spec_root(),
        ]
    }

    /// The hash-tree-root: the merkle root of the field roots.
    pub open spec fn spec_root(self) -> Seq<u8> {
        spec_merkleize(self.spec_field_roots())
    }

    /// Whether `bytes` is the encoding of some value.
    pub open spec fn spec_valid_ssz(bytes: Seq<u8>) -> bool {
        bytes.len() == 72
    }

    /// A container is variable-size when any field is.
    pub fn is_variable_size() -> (r: bool)
        ensures
            !r,
    {
        Root::is_variable_size()
            || u64_is_variable_size()
            || Hash32::is_variable_size()
    }

    /// The encoded size: the sum of the field sizes.
    pub fn size_hint() -> (r: usize)
        ensures
            r == 72,
    {
        Root::size_hint()
            + u64_size_hint()
            + Hash32::size_hint()
    }

    /// Append the encoding of every field in order.
    pub fn serialize(&self, buffer: &mut Vec<u8>) -> (r: Result<usize, SerializeError>)
        ensures
            r == Ok::<usize, SerializeError>(72),
            final(buffer)@ == old(buffer)@ + self.spec_ssz(),
    {
        let _ = self.deposit_root.serialize(buffer);
        let _ = serialize_u64(self.deposit_count, buffer);
        let _ = self.block_hash.serialize(buffer);
        assert(buffer@ =~= old(buffer)@ + self.spec_ssz());
        Ok(72)
    }

    /// Decode every field from its fixed position in exactly 72 bytes.
    pub fn deserialize(encoding: &[u8]) -> (r: Result<Self, DeserializeError>)
        ensures
            r is Ok <==> Self::spec_valid_ssz(encoding@),
            r matches Ok(v) ==> v.spec_ssz() == encoding@,
            r matches Err(e) ==> e == length_error(encoding@.len() as usize, 72),
    {
        if encoding.len() != 72 {
            return Err(wrong_length(encoding.len(), 72));
        }
        let deposit_root = Root::deserialize(slice_subrange(encoding, 0, 32))?;
        let deposit_count = deserialize_u64(slice_subrange(encoding, 32, 40))?;
        let block_hash = Hash32::deserialize(slice_subrange(encoding, 40, 72))?;
        let v = Eth1Data { deposit_root, deposit_count, block_hash };
        proof {
            lemma_u64_from_le_roundtrip(encoding@.subrange(32, 40));
            assert(v.spec_ssz() =~= encoding@);
        }
        Ok(v)
    }

    /// The merkle root of the field roots.
    pub fn hash_tree_root(&self) -> (r: Result<Node, MerkleizationError>)
        ensures
            r matches Ok(n) && n.0@ == self.spec_root(),
    {
        let r0 = self.deposit_root.hash_tree_root()?;
        let r1 = hash_tree_root_u64(self.deposit_count)?;
        let r2 = self.block_hash.hash_tree_root()?;
        let roots = [r0, r1, r2];
        assert(roots_view(roots@) =~= self.spec_field_roots());
        Ok(merkleize_roots(roots.as_slice()))
    }

    /// A container is a composite type.
    pub fn is_composite_type() -> (r: bool)
        ensures
            r,
    {
        true
    }
}

/// The encoding of a `Eth1Data` is 72 bytes long.
pub proof fn lemma_eth1_data_ssz_len(x: Eth1Data)
    ensures
        x.spec_ssz().len() == 72,
{

}

/// Distinct `Eth1Data` values have distinct encodings.
pub proof fn lemma_eth1_data_ssz_injective(a: Eth1Data, b: Eth1Data)
    requires
        a.spec_ssz() == b.spec_ssz(),
    ensures
        a == b,
{
    lemma_eth1_data_ssz_len(a);
    assert(a.spec_ssz().subrange(0, 32) =~= a.deposit_root.spec_ssz());
    assert(b.spec_ssz().subrange(0, 32) =~= b.deposit_root.spec_ssz());
    assert(a.deposit_root.0 =~= b.deposit_root.0);
    assert(a.spec_ssz().subrange(32, 40) =~= spec_u64_le(a.deposit_count));
    assert(b.spec_ssz().subrange(32, 40) =~= spec_u64_le(b.deposit_count));
    lemma_u64_le_injective(a.deposit_count, b.deposit_count);
    assert(a.spec_ssz().subrange(40, 72) =~= a.block_hash.spec_ssz());
    assert(b.spec_ssz().subrange(40, 72) =~= b.block_hash.spec_ssz());
    assert(a.block_hash.0 =~= b.block_hash.0);
}

/// Encoding then decoding a `Eth1Data` gives it back: its encoding is accepted
/// by the decoder, and no other value has the same encoding.
pub proof fn lemma_eth1_data_ssz_roundtrip(x: Eth1Data)
    ensures
        Eth1Data::spec_valid_ssz(x.spec_ssz()),
        forall|y: Eth1Data| #[trigger] y.spec_ssz() == x.spec_ssz() ==> y == x,
{
    lemma_eth1_data_ssz_len(x);

    assert forall|y: Eth1Data| #[trigger] y.spec_ssz() == x.spec_ssz() implies y == x by {
        lemma_eth1_data_ssz_injective(y, x);
    }
}

/// Helper tuple whose tree root is the BLS signing message.
///
/// It binds an object root to the domain that identifies its message kind and
/// signing context.
#[derive(Default, Debug, Clone, Copy, PartialEq, Eq)]
pub struct SigningData {
    /// Tree root of the object being signed.
    pub object_root: Root,
    /// Signing domain combining the domain type and signing-version root.
    pub domain: Domain,
}

impl SigningData {
    /// The SSZ encoding: the fields' encodings in order.
    pub open spec fn spec_ssz(self) -> Seq<u8> {
        self.object_root.spec_ssz()
            + self.domain.spec_ssz()
    }

    /// The hash-tree-roots of the fields in order.
    pub open spec fn spec_field_roots(self) -> Seq<Seq<u8>> {
        seq![
            self.object_root.spec_root(),
            self.domain.spec_root(),
        ]
    }

    /// The hash-tree-root: the merkle root of the field roots.
    pub open spec fn spec_root(self) -> Seq<u8> {
        spec_merkleize(self.spec_field_roots())
    }

    /// Whether `bytes` is the encoding of some value.
    pub open spec fn spec_valid_ssz(bytes: Seq<u8>) -> bool {
        bytes.len() == 64
    }

    /// A container is variable-size when any field is.
    pub fn is_variable_size() -> (r: bool)
        ensures
            !r,
    {
        Root::is_variable_size()
            || Domain::is_variable_size()
    }

    /// The encoded size: the sum of the field sizes.
    pub fn size_hint() -> (r: usize)
        ensures
            r == 64,
    {
        Root::size_hint()
            + Domain::size_hint()
    }

    /// Append the encoding of every field in order.
    pub fn serialize(&self, buffer: &mut Vec<u8>) -> (r: Result<usize, SerializeError>)
        ensures
            r == Ok::<usize, SerializeError>(64),
            final(buffer)@ == old(buffer)@ + self.spec_ssz(),
    {
        let _ = self.object_root.serialize(buffer);
        let _ = self.domain.serialize(buffer);
        assert(buffer@ =~= old(buffer)@ + self.spec_ssz());
        Ok(64)
    }

    /// Decode every field from its fixed position in exactly 64 bytes.
    pub fn deserialize(encoding: &[u8]) -> (r: Result<Self, DeserializeError>)
        ensures
            r is Ok <==> Self::spec_valid_ssz(encoding@),
            r matches Ok(v) ==> v.spec_ssz() == encoding@,
            r matches Err(e) ==> e == length_error(encoding@.len() as usize, 64),
    {
        if encoding.len() != 64 {
            return Err(wrong_length(encoding.len(), 64));
        }
        let object_root = Root::deserialize(slice_subrange(encoding, 0, 32))?;
        let domain = Domain::deserialize(slice_subrange(encoding, 32, 64))?;
        let v = SigningData { object_root, domain };
        proof {

            assert(v.spec_ssz() =~= encoding@);
        }
        Ok(v)
    }

    /// The merkle root of the field roots.
    pub fn hash_tree_root(&self) -> (r: Result<Node, MerkleizationError>)
        ensures
            r matches Ok(n) && n.0@ == self.spec_root(),
    {
        let r0 = self.object_root.hash_tree_root()?;
        let r1 = self.domain.hash_tree_root()?;
        let roots = [r0, r1];
        assert(roots_view(roots@) =~= self.spec_field_roots());
        Ok(merkleize_roots(roots.as_slice()))
    }

    /// A container is a composite type.
    pub fn is_composite_type() -> (r: bool)
        ensures
            r,
    {
        true
    }
}

/// The encoding of a `SigningData` is 64 bytes long.
pub proof fn lemma_signing_data_ssz_len(x: SigningData)
    ensures
        x.spec_ssz().len() == 64,
{

}

/// Distinct `SigningData` values have distinct encodings.
pub proof fn lemma_signing_data_ssz_injective(a: SigningData, b: SigningData)
    requires
        a.spec_ssz() == b.spec_ssz(),
    ensures
        a == b,
{
    lemma_signing_data_ssz_len(a);
    assert(a.spec_ssz().subrange(0, 32) =~= a.object_root.spec_ssz());
    assert(b.spec_ssz().subrange(0, 32) =~= b.object_root.spec_ssz());
    assert(a.object_root.0 =~= b.object_root.0);
    assert(a.spec_ssz().subrange(32, 64) =~= a.domain.spec_ssz());
    assert(b.spec_ssz().subrange(32, 64) =~= b.domain.spec_ssz());
    assert(a.domain.0 =~= b.domain.0);
}

/// Encoding then decoding a `SigningData` gives it back: its encoding is accepted
/// by the decoder, and no other value has the same encoding.
pub proof fn lemma_signing_data_ssz_roundtrip(x: SigningData)
    ensures
        SigningData::spec_valid_ssz(x.spec_ssz()),
        forall|y: SigningData| #[trigger] y.spec_ssz() == x.spec_ssz() ==> y == x,
{
    lemma_signing_data_ssz_len(x);

    assert forall|y: SigningData| #[trigger] y.spec_ssz() == x.spec_ssz() implies y == x by {
        lemma_signing_data_ssz_injective(y, x);
    }
}

impl Checkpoint {
    /// Whether two checkpoints are the same value.
    pub fn equals(&self, other: &Checkpoint) -> (r: bool)
        ensures
            r == (*self == *other),
    {
        proof {
            lemma_checkpoint_eq(*self, *other);
        }
        self.epoch.0 == other.epoch.0 && self.root.equals(&other.root)
    }
}

/// Two checkpoints compare equal exactly when they are the same value.
pub proof fn lemma_checkpoint_eq(a: Checkpoint, b: Checkpoint)
    ensures
        (a.epoch == b.epoch && a.root.0@ == b.root.0@) <==> (a == b),
{
    lemma_root_eq(a.root, b.root);
}

/// Stepwise blob limits as `(activation epoch, limit)` pairs, in order of
/// activation.
pub open spec fn spec_blob_schedule() -> Seq<(u64, u64)> {
    seq![(412_672u64, 15u64), (419_072u64, 21u64)]
}

/// The stepwise blob limits, in order of activation.
pub fn blob_schedule() -> (r: Vec<(u64, u64)>)
    ensures
        r@ == spec_blob_schedule(),
{
    let r = vec![(412_672u64, 15u64), (419_072u64, 21u64)];
    assert(r@ =~= spec_blob_schedule());
    r
}

/// The latest entry of `schedule` active at `epoch`, or the pre-schedule
/// default of the Electra fork epoch with `MAX_BLOBS_PER_BLOCK`.
pub open spec fn spec_blob_parameters_in(schedule: Seq<(u64, u64)>, epoch: u64) -> (u64, u64)
    decreases schedule.len(),
{
    if schedule.len() == 0 {
        (ELECTRA_FORK_EPOCH, MAX_BLOBS_PER_BLOCK)
    } else if schedule.last().0 <= epoch {
        schedule.last()
    } else {
        spec_blob_parameters_in(schedule.drop_last(), epoch)
    }
}

/// Return the blob-parameter tuple active at `epoch`.
pub fn get_blob_parameters(epoch: Epoch) -> (r: BlobParameters)
    ensures
        (r.epoch.0, r.max_blobs_per_block) == spec_blob_parameters_in(spec_blob_schedule(), epoch.0),
{
    let schedule = blob_schedule();
    let mut i: usize = schedule.len();
    assert(schedule@.subrange(0, i as int) =~= schedule@);
    while i > 0
        invariant
            i <= schedule@.len(),
            schedule@ == spec_blob_schedule(),
            spec_blob_parameters_in(schedule@.subrange(0, i as int), epoch.0)
                == spec_blob_parameters_in(spec_blob_schedule(), epoch.0),
        decreases i,
    {
        let (entry_epoch, limit) = schedule[i - 1];
        assert(schedule@.subrange(0, i as int).last() == schedule@[i - 1]);
        if epoch.0 >= entry_epoch {
            return BlobParameters { epoch: Epoch(entry_epoch), max_blobs_per_block: limit };
        }
        assert(schedule@.subrange(0, i as int).drop_last() =~= schedule@.subrange(0, i - 1));
        i = i - 1;
    }
    BlobParameters { epoch: Epoch(ELECTRA_FORK_EPOCH), max_blobs_per_block: MAX_BLOBS_PER_BLOCK }
}

} // verus!
