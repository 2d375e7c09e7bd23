//! Fixed-size byte newtypes (roots, hashes, BLS pubkeys, signatures, KZG commitments).
use vstd::prelude::*;

use crate::constants::BYTES_PER_CELL;
use crate::ssz::basic::{
    bytes_equal, deserialize_bytes, hash_tree_root_bytes, serialize_bytes, zeros,
};
use crate::ssz::error::length_error;
use crate::ssz::merkle::spec_merkleize_bytes;
use crate::ssz::{DeserializeError, MerkleizationError, Node, SerializeError};

verus! {

/// SSZ chunk length, in bytes.
pub const SSZ_CHUNK_BYTES: usize = 32;

/// Compressed BLS12-381 G1 point length, in bytes.
pub const BLS_G1_COMPRESSED_BYTES: usize = 48;

/// Compressed BLS12-381 G2 point length, in bytes.
pub const BLS_G2_COMPRESSED_BYTES: usize = 96;

/// KZG commitment length (compressed BLS12-381 G1 point), in bytes.
pub const KZG_COMMITMENT_BYTES: usize = 48;

/// KZG proof length (compressed BLS12-381 G1 point), in bytes.
pub const KZG_PROOF_BYTES: usize = 48;

/// 256-bit unsigned integer length, in bytes.
pub const UINT256_BYTES: usize = 32;

/// Public node identifier encoded as a little-endian `uint256`.
#[derive(Clone, Copy, Debug, Default, PartialEq, Eq, PartialOrd, Ord, Hash)]
pub struct NodeId(pub [u8; UINT256_BYTES]);

impl NodeId {
    /// All-zero node identifier.
    pub fn zero() -> (r: Self)
        ensures
            r.0@ == zeros(32),
    {
        let r = NodeId([0u8; UINT256_BYTES]);
        assert(r.0@ =~= zeros(32));
        r
    }

    /// Construct from little-endian `uint256` bytes.
    pub fn from_le_bytes(bytes: [u8; UINT256_BYTES]) -> (r: Self)
        ensures
            r.0 == bytes,
    {
        NodeId(bytes)
    }

    /// Return little-endian `uint256` bytes.
    pub fn to_le_bytes(self) -> (r: [u8; UINT256_BYTES])
        ensures
            r == self.0,
    {
        self.0
    }
}

/// 32-byte SSZ hash-tree-root.
#[derive(Clone, Copy, Debug, PartialOrd, Ord, Hash, Default, PartialEq, Eq)]
pub struct Root(pub [u8; 32]);

impl Root {
    /// The SSZ encoding: the bytes themselves.
    pub open spec fn spec_ssz(self) -> Seq<u8> {
        self.0@
    }

    /// The hash-tree-root.
    pub open spec fn spec_root(self) -> Seq<u8> {
        spec_merkleize_bytes(self.0@)
    }

    /// Fixed size.
    pub fn is_variable_size() -> (r: bool)
        ensures
            !r,
    {
        false
    }

    /// The byte length.
    pub fn size_hint() -> (r: usize)
        ensures
            r == 32,
    {
        32
    }

    /// Append the bytes.
    pub fn serialize(&self, buffer: &mut Vec<u8>) -> (r: Result<usize, SerializeError>)
        ensures
            r == Ok::<usize, SerializeError>(32),
            final(buffer)@ == old(buffer)@ + self.spec_ssz(),
    {
        serialize_bytes(&self.0, buffer)
    }

    /// Decode from exactly 32 bytes.
    pub fn deserialize(encoding: &[u8]) -> (r: Result<Self, DeserializeError>)
        ensures
            r is Ok <==> encoding@.len() == 32,
            r matches Ok(v) ==> v.spec_ssz() == encoding@,
            r matches Err(e) ==> e == length_error(encoding@.len() as usize, 32),
    {
        match deserialize_bytes::<32>(encoding) {
            Ok(b) => Ok(Root(b)),
            Err(e) => Err(e),
        }
    }

    /// The root of the bytes.
    pub fn hash_tree_root(&self) -> (r: Result<Node, MerkleizationError>)
        ensures
            r matches Ok(n) && n.0@ == self.spec_root(),
    {
        hash_tree_root_bytes(&self.0)
    }

    /// A byte vector is a composite type.
    pub fn is_composite_type() -> (r: bool)
        ensures
            r == true,
    {
        true
    }
}

/// 32-byte execution-layer hash.
#[derive(Clone, Copy, Debug, PartialOrd, Ord, Hash, Default, PartialEq, Eq)]
pub struct Hash32(pub [u8; 32]);

impl Hash32 {
    /// The SSZ encoding: the bytes themselves.
    pub open spec fn spec_ssz(self) -> Seq<u8> {
        self.0@
    }

    /// The hash-tree-root.
    pub open spec fn spec_root(self) -> Seq<u8> {
        spec_merkleize_bytes(self.0@)
    }

    /// Fixed size.
    pub fn is_variable_size() -> (r: bool)
        ensures
            !r,
    {
        false
    }

    /// The byte length.
    pub fn size_hint() -> (r: usize)
        ensures
            r == 32,
    {
        32
    }

    /// Append the bytes.
    pub fn serialize(&self, buffer: &mut Vec<u8>) -> (r: Result<usize, SerializeError>)
        ensures
            r == Ok::<usize, SerializeError>(32),
            final(buffer)@ == old(buffer)@ + self.spec_ssz(),
    {
        serialize_bytes(&self.0, buffer)
    }

    /// Decode from exactly 32 bytes.
    pub fn deserialize(encoding: &[u8]) -> (r: Result<Self, DeserializeError>)
        ensures
            r is Ok <==> encoding@.len() == 32,
            r matches Ok(v) ==> v.spec_ssz() == encoding@,
            r matches Err(e) ==> e == length_error(encoding@.len() as usize, 32),
    {
        match deserialize_bytes::<32>(encoding) {
            Ok(b) => Ok(Hash32(b)),
            Err(e) => Err(e),
        }
    }

    /// The root of the bytes.
    pub fn hash_tree_root(&self) -> (r: Result<Node, MerkleizationError>)
        ensures
            r matches Ok(n) && n.0@ == self.spec_root(),
    {
        hash_tree_root_bytes(&self.0)
    }

    /// A byte vector is a composite type.
    pub fn is_composite_type() -> (r: bool)
        ensures
            r == true,
    {
        true
    }
}

/// Versioned blob hash (KZG commitment digest with version prefix).
#[derive(Clone, Copy, Debug, PartialOrd, Ord, Hash, Default, PartialEq, Eq)]
pub struct VersionedHash(pub [u8; 32]);

impl VersionedHash {
    /// The SSZ encoding: the bytes themselves.
    pub open spec fn spec_ssz(self) -> Seq<u8> {
        self.0@
    }

    /// The hash-tree-root.
    pub open spec fn spec_root(self) -> Seq<u8> {
        spec_merkleize_bytes(self.0@)
    }

    /// Fixed size.
    pub fn is_variable_size() -> (r: bool)
        ensures
            !r,
    {
        false
    }

    /// The byte length.
    pub fn size_hint() -> (r: usize)
        ensures
            r == 32,
    {
        32
    }

    /// Append the bytes.
    pub fn serialize(&self, buffer: &mut Vec<u8>) -> (r: Result<usize, SerializeError>)
        ensures
            r == Ok::<usize, SerializeError>(32),
            final(buffer)@ == old(buffer)@ + self.spec_ssz(),
    {
        serialize_bytes(&self.0, buffer)
    }

    /// Decode from exactly 32 bytes.
    pub fn deserialize(encoding: &[u8]) -> (r: Result<Self, DeserializeError>)
        ensures
            r is Ok <==> encoding@.len() == 32,
            r matches Ok(v) ==> v.spec_ssz() == encoding@,
            r matches Err(e) ==> e == length_error(encoding@.len() as usize, 32),
    {
        match deserialize_bytes::<32>(encoding) {
            Ok(b) => Ok(VersionedHash(b)),
            Err(e) => Err(e),
        }
    }

    /// The root of the bytes.
    pub fn hash_tree_root(&self) -> (r: Result<Node, MerkleizationError>)
        ensures
            r matches Ok(n) && n.0@ == self.spec_root(),
    {
        hash_tree_root_bytes(&self.0)
    }

    /// A byte vector is a composite type.
    pub fn is_composite_type() -> (r: bool)
        ensures
            r == true,
    {
        true
    }
}

/// 20-byte execution-layer address.
#[derive(Clone, Copy, Debug, PartialOrd, Ord, Hash, Default, PartialEq, Eq)]
pub struct ExecutionAddress(pub [u8; 20]);

impl ExecutionAddress {
    /// The SSZ encoding: the bytes themselves.
    pub open spec fn spec_ssz(self) -> Seq<u8> {
        self.0@
    }

    /// The hash-tree-root.
    pub open spec fn spec_root(self) -> Seq<u8> {
        spec_merkleize_bytes(self.0@)
    }

    /// Fixed size.
    pub fn is_variable_size() -> (r: bool)
        ensures
            !r,
    {
        false
    }

    /// The byte length.
    pub fn size_hint() -> (r: usize)
        ensures
            r == 20,
    {
        20
    }

    /// Append the bytes.
    pub fn serialize(&self, buffer: &mut Vec<u8>) -> (r: Result<usize, SerializeError>)
        ensures
            r == Ok::<usize, SerializeError>(20),
            final(buffer)@ == old(buffer)@ + self.spec_ssz(),
    {
        serialize_bytes(&self.0, buffer)
    }

    /// Decode from exactly 20 bytes.
    pub fn deserialize(encoding: &[u8]) -> (r: Result<Self, DeserializeError>)
        ensures
            r is Ok <==> encoding@.len() == 20,
            r matches Ok(v) ==> v.spec_ssz() == encoding@,
            r matches Err(e) ==> e == length_error(encoding@.len() as usize, 20),
    {
        match deserialize_bytes::<20>(encoding) {
            Ok(b) => Ok(ExecutionAddress(b)),
            Err(e) => Err(e),
        }
    }

    /// The root of the bytes.
    pub fn hash_tree_root(&self) -> (r: Result<Node, MerkleizationError>)
        ensures
            r matches Ok(n) && n.0@ == self.spec_root(),
    {
        hash_tree_root_bytes(&self.0)
    }

    /// A byte vector is a composite type.
    pub fn is_composite_type() -> (r: bool)
        ensures
            r == true,
    {
        true
    }
}

/// 4-byte signing version.
#[derive(Clone, Copy, Debug, PartialOrd, Ord, Hash, Default, PartialEq, Eq)]
pub struct Version(pub [u8; 4]);

impl Version {
    /// The SSZ encoding: the bytes themselves.
    pub open spec fn spec_ssz(self) -> Seq<u8> {
        self.0@
    }

    /// The hash-tree-root.
    pub open spec fn spec_root(self) -> Seq<u8> {
        spec_merkleize_bytes(self.0@)
    }

    /// Fixed size.
    pub fn is_variable_size() -> (r: bool)
        ensures
            !r,
    {
        false
    }

    /// The byte length.
    pub fn size_hint() -> (r: usize)
        ensures
            r == 4,
    {
        4
    }

    /// Append the bytes.
    pub fn serialize(&self, buffer: &mut Vec<u8>) -> (r: Result<usize, SerializeError>)
        ensures
            r == Ok::<usize, SerializeError>(4),
            final(buffer)@ == old(buffer)@ + self.spec_ssz(),
    {
        serialize_bytes(&self.0, buffer)
    }

    /// Decode from exactly 4 bytes.
    pub fn deserialize(encoding: &[u8]) -> (r: Result<Self, DeserializeError>)
        ensures
            r is Ok <==> encoding@.len() == 4,
            r matches Ok(v) ==> v.spec_ssz() == encoding@,
            r matches Err(e) ==> e == length_error(encoding@.len() as usize, 4),
    {
        match deserialize_bytes::<4>(encoding) {
            Ok(b) => Ok(Version(b)),
            Err(e) => Err(e),
        }
    }

    /// The root of the bytes.
    pub fn hash_tree_root(&self) -> (r: Result<Node, MerkleizationError>)
        ensures
            r matches Ok(n) && n.0@ == self.spec_root(),
    {
        hash_tree_root_bytes(&self.0)
    }

    /// A byte vector is a composite type.
    pub fn is_composite_type() -> (r: bool)
        ensures
            r == true,
    {
        true
    }
}

/// 4-byte digest of the active signing version.
#[derive(Clone, Copy, Debug, PartialOrd, Ord, Hash, Default, PartialEq, Eq)]
pub struct ForkDigest(pub [u8; 4]);

impl ForkDigest {
    /// The SSZ encoding: the bytes themselves.
    pub open spec fn spec_ssz(self) -> Seq<u8> {
        self.0@
    }

    /// The hash-tree-root.
    pub open spec fn spec_root(self) -> Seq<u8> {
        spec_merkleize_bytes(self.0@)
    }

    /// Fixed size.
    pub fn is_variable_size() -> (r: bool)
        ensures
            !r,
    {
        false
    }

    /// The byte length.
    pub fn size_hint() -> (r: usize)
        ensures
            r == 4,
    {
        4
    }

    /// Append the bytes.
    pub fn serialize(&self, buffer: &mut Vec<u8>) -> (r: Result<usize, SerializeError>)
        ensures
            r == Ok::<usize, SerializeError>(4),
            final(buffer)@ == old(buffer)@ + self.spec_ssz(),
    {
        serialize_bytes(&self.0, buffer)
    }

    /// Decode from exactly 4 bytes.
    pub fn deserialize(encoding: &[u8]) -> (r: Result<Self, DeserializeError>)
        ensures
            r is Ok <==> encoding@.len() == 4,
            r matches Ok(v) ==> v.spec_ssz() == encoding@,
            r matches Err(e) ==> e == length_error(encoding@.len() as usize, 4),
    {
        match deserialize_bytes::<4>(encoding) {
            Ok(b) => Ok(ForkDigest(b)),
            Err(e) => Err(e),
        }
    }

    /// The root of the bytes.
    pub fn hash_tree_root(&self) -> (r: Result<Node, MerkleizationError>)
        ensures
            r matches Ok(n) && n.0@ == self.spec_root(),
    {
        hash_tree_root_bytes(&self.0)
    }

    /// A byte vector is a composite type.
    pub fn is_composite_type() -> (r: bool)
        ensures
            r == true,
    {
        true
    }
}

/// 32-byte SSZ signing domain.
#[derive(Clone, Copy, Debug, PartialOrd, Ord, Hash, Default, PartialEq, Eq)]
pub struct Domain(pub [u8; 32]);

impl Domain {
    /// The SSZ encoding: the bytes themselves.
    pub open spec fn spec_ssz(self) -> Seq<u8> {
        self.0@
    }

    /// The hash-tree-root.
    pub open spec fn spec_root(self) -> Seq<u8> {
        spec_merkleize_bytes(self.0@)
    }

    /// Fixed size.
    pub fn is_variable_size() -> (r: bool)
        ensures
            !r,
    {
        false
    }

    /// The byte length.
    pub fn size_hint() -> (r: usize)
        ensures
            r == 32,
    {
        32
    }

    /// Append the bytes.
    pub fn serialize(&self, buffer: &mut Vec<u8>) -> (r: Result<usize, SerializeError>)
        ensures
            r == Ok::<usize, SerializeError>(32),
            final(buffer)@ == old(buffer)@ + self.spec_ssz(),
    {
        serialize_bytes(&self.0, buffer)
    }

    /// Decode from exactly 32 bytes.
    pub fn deserialize(encoding: &[u8]) -> (r: Result<Self, DeserializeError>)
        ensures
            r is Ok <==> encoding@.len() == 32,
            r matches Ok(v) ==> v.spec_ssz() == encoding@,
            r matches Err(e) ==> e == length_error(encoding@.len() as usize, 32),
    {
        match deserialize_bytes::<32>(encoding) {
            Ok(b) => Ok(Domain(b)),
            Err(e) => Err(e),
        }
    }

    /// The root of the bytes.
    pub fn hash_tree_root(&self) -> (r: Result<Node, MerkleizationError>)
        ensures
            r matches Ok(n) && n.0@ == self.spec_root(),
    {
        hash_tree_root_bytes(&self.0)
    }

    /// A byte vector is a composite type.
    pub fn is_composite_type() -> (r: bool)
        ensures
            r == true,
    {
        true
    }
}

/// 4-byte domain-type tag (left half of a `Domain`).
#[derive(Clone, Copy, Debug, PartialOrd, Ord, Hash, Default, PartialEq, Eq)]
pub struct DomainType(pub [u8; 4]);

impl DomainType {
    /// The SSZ encoding: the bytes themselves.
    pub open spec fn spec_ssz(self) -> Seq<u8> {
        self.0@
    }

    /// The hash-tree-root.
    pub open spec fn spec_root(self) -> Seq<u8> {
        spec_merkleize_bytes(self.0@)
    }

    /// Fixed size.
    pub fn is_variable_size() -> (r: bool)
        ensures
            !r,
    {
        false
    }

    /// The byte length.
    pub fn size_hint() -> (r: usize)
        ensures
            r == 4,
    {
        4
    }

    /// Append the bytes.
    pub fn serialize(&self, buffer: &mut Vec<u8>) -> (r: Result<usize, SerializeError>)
        ensures
            r == Ok::<usize, SerializeError>(4),
            final(buffer)@ == old(buffer)@ + self.spec_ssz(),
    {
        serialize_bytes(&self.0, buffer)
    }

    /// Decode from exactly 4 bytes.
    pub fn deserialize(encoding: &[u8]) -> (r: Result<Self, DeserializeError>)
        ensures
            r is Ok <==> encoding@.len() == 4,
            r matches Ok(v) ==> v.spec_ssz() == encoding@,
            r matches Err(e) ==> e == length_error(encoding@.len() as usize, 4),
    {
        match deserialize_bytes::<4>(encoding) {
            Ok(b) => Ok(DomainType(b)),
            Err(e) => Err(e),
        }
    }

    /// The root of the bytes.
    pub fn hash_tree_root(&self) -> (r: Result<Node, MerkleizationError>)
        ensures
            r matches Ok(n) && n.0@ == self.spec_root(),
    {
        hash_tree_root_bytes(&self.0)
    }

    /// A byte vector is a composite type.
    pub fn is_composite_type() -> (r: bool)
        ensures
            r == true,
    {
        true
    }
}

/// Compressed BLS public key as SSZ-decoded bytes.
///
/// Curve validity is checked by the BLS verifier.
#[derive(Clone, Copy, Debug, PartialOrd, Ord, Hash, PartialEq, Eq)]
pub struct BLSPubkey(pub [u8; BLS_G1_COMPRESSED_BYTES]);

impl Default for BLSPubkey {
    /// All-zero bytes.
    fn default() -> (r: Self)
        ensures
            r.0@ == zeros(48),
    {
        let r = BLSPubkey([0u8; BLS_G1_COMPRESSED_BYTES]);
        assert(r.0@ =~= zeros(48));
        r
    }
}

impl BLSPubkey {
    /// The SSZ encoding: the bytes themselves.
    pub open spec fn spec_ssz(self) -> Seq<u8> {
        self.0@
    }

    /// The hash-tree-root.
    pub open spec fn spec_root(self) -> Seq<u8> {
        spec_merkleize_bytes(self.0@)
    }

    /// Fixed size.
    pub fn is_variable_size() -> (r: bool)
        ensures
            !r,
    {
        false
    }

    /// The byte length.
    pub fn size_hint() -> (r: usize)
        ensures
            r == 48,
    {
        BLS_G1_COMPRESSED_BYTES
    }

    /// Append the bytes.
    pub fn serialize(&self, buffer: &mut Vec<u8>) -> (r: Result<usize, SerializeError>)
        ensures
            r == Ok::<usize, SerializeError>(48),
            final(buffer)@ == old(buffer)@ + self.spec_ssz(),
    {
        serialize_bytes(&self.0, buffer)
    }

    /// Decode from exactly 48 bytes.
    pub fn deserialize(encoding: &[u8]) -> (r: Result<Self, DeserializeError>)
        ensures
            r is Ok <==> encoding@.len() == 48,
            r matches Ok(v) ==> v.spec_ssz() == encoding@,
            r matches Err(e) ==> e == length_error(encoding@.len() as usize, 48),
    {
        match deserialize_bytes::<BLS_G1_COMPRESSED_BYTES>(encoding) {
            Ok(b) => Ok(BLSPubkey(b)),
            Err(e) => Err(e),
        }
    }

    /// The root of the bytes.
    pub fn hash_tree_root(&self) -> (r: Result<Node, MerkleizationError>)
        ensures
            r matches Ok(n) && n.0@ == self.spec_root(),
    {
        hash_tree_root_bytes(&self.0)
    }

    /// A byte vector is a composite type.
    pub fn is_composite_type() -> (r: bool)
        ensures
            r == true,
    {
        true
    }
}

/// Compressed BLS signature as SSZ-decoded bytes.
///
/// Curve validity is checked by the BLS verifier.
#[derive(Clone, Copy, Debug, PartialOrd, Ord, Hash, PartialEq, Eq)]
pub struct BLSSignature(pub [u8; BLS_G2_COMPRESSED_BYTES]);

impl Default for BLSSignature {
    /// All-zero bytes.
    fn default() -> (r: Self)
        ensures
            r.0@ == zeros(96),
    {
        let r = BLSSignature([0u8; BLS_G2_COMPRESSED_BYTES]);
        assert(r.0@ =~= zeros(96));
        r
    }
}

impl BLSSignature {
    /// The SSZ encoding: the bytes themselves.
    pub open spec fn spec_ssz(self) -> Seq<u8> {
        self.0@
    }

    /// The hash-tree-root.
    pub open spec fn spec_root(self) -> Seq<u8> {
        spec_merkleize_bytes(self.0@)
    }

    /// Fixed size.
    pub fn is_variable_size() -> (r: bool)
        ensures
            !r,
    {
        false
    }

    /// The byte length.
    pub fn size_hint() -> (r: usize)
        ensures
            r == 96,
    {
        BLS_G2_COMPRESSED_BYTES
    }

    /// Append the bytes.
    pub fn serialize(&self, buffer: &mut Vec<u8>) -> (r: Result<usize, SerializeError>)
        ensures
            r == Ok::<usize, SerializeError>(96),
            final(buffer)@ == old(buffer)@ + self.spec_ssz(),
    {
        serialize_bytes(&self.0, buffer)
    }

    /// Decode from exactly 96 bytes.
    pub fn deserialize(encoding: &[u8]) -> (r: Result<Self, DeserializeError>)
        ensures
            r is Ok <==> encoding@.len() == 96,
            r matches Ok(v) ==> v.spec_ssz() == encoding@,
            r matches Err(e) ==> e == length_error(encoding@.len() as usize, 96),
    {
        match deserialize_bytes::<BLS_G2_COMPRESSED_BYTES>(encoding) {
            Ok(b) => Ok(BLSSignature(b)),
            Err(e) => Err(e),
        }
    }

    /// The root of the bytes.
    pub fn hash_tree_root(&self) -> (r: Result<Node, MerkleizationError>)
        ensures
            r matches Ok(n) && n.0@ == self.spec_root(),
    {
        hash_tree_root_bytes(&self.0)
    }

    /// A byte vector is a composite type.
    pub fn is_composite_type() -> (r: bool)
        ensures
            r == true,
    {
        true
    }
}

/// KZG commitment as SSZ-decoded bytes.
///
/// Curve and subgroup validity are checked by the KZG verifier.
#[derive(Clone, Copy, Debug, PartialOrd, Ord, Hash, PartialEq, Eq)]
pub struct KZGCommitment(pub [u8; KZG_COMMITMENT_BYTES]);

impl Default for KZGCommitment {
    /// All-zero bytes.
    fn default() -> (r: Self)
        ensures
            r.0@ == zeros(48),
    {
        let r = KZGCommitment([0u8; KZG_COMMITMENT_BYTES]);
        assert(r.0@ =~= zeros(48));
        r
    }
}

impl KZGCommitment {
    /// The SSZ encoding: the bytes themselves.
    pub open spec fn spec_ssz(self) -> Seq<u8> {
        self.0@
    }

    /// The hash-tree-root.
    pub open spec fn spec_root(self) -> Seq<u8> {
        spec_merkleize_bytes(self.0@)
    }

    /// Fixed size.
    pub fn is_variable_size() -> (r: bool)
        ensures
            !r,
    {
        false
    }

    /// The byte length.
    pub fn size_hint() -> (r: usize)
        ensures
            r == 48,
    {
        KZG_COMMITMENT_BYTES
    }

    /// Append the bytes.
    pub fn serialize(&self, buffer: &mut Vec<u8>) -> (r: Result<usize, SerializeError>)
        ensures
            r == Ok::<usize, SerializeError>(48),
            final(buffer)@ == old(buffer)@ + self.spec_ssz(),
    {
        serialize_bytes(&self.0, buffer)
    }

    /// Decode from exactly 48 bytes.
    pub fn deserialize(encoding: &[u8]) -> (r: Result<Self, DeserializeError>)
        ensures
            r is Ok <==> encoding@.len() == 48,
            r matches Ok(v) ==> v.spec_ssz() == encoding@,
            r matches Err(e) ==> e == length_error(encoding@.len() as usize, 48),
    {
        match deserialize_bytes::<KZG_COMMITMENT_BYTES>(encoding) {
            Ok(b) => Ok(KZGCommitment(b)),
            Err(e) => Err(e),
        }
    }

    /// The root of the bytes.
    pub fn hash_tree_root(&self) -> (r: Result<Node, MerkleizationError>)
        ensures
            r matches Ok(n) && n.0@ == self.spec_root(),
    {
        hash_tree_root_bytes(&self.0)
    }

    /// A byte vector is a composite type.
    pub fn is_composite_type() -> (r: bool)
        ensures
            r == true,
    {
        true
    }
}

/// KZG proof as SSZ-decoded bytes.
///
/// Curve and subgroup validity are checked by the KZG verifier.
#[derive(Clone, Copy, Debug, PartialOrd, Ord, Hash, PartialEq, Eq)]
pub struct KZGProof(pub [u8; KZG_PROOF_BYTES]);

impl Default for KZGProof {
    /// All-zero bytes.
    fn default() -> (r: Self)
        ensures
            r.0@ == zeros(48),
    {
        let r = KZGProof([0u8; KZG_PROOF_BYTES]);
        assert(r.0@ =~= zeros(48));
        r
    }
}

impl KZGProof {
    /// The SSZ encoding: the bytes themselves.
    pub open spec fn spec_ssz(self) -> Seq<u8> {
        self.0@
    }

    /// The hash-tree-root.
    pub open spec fn spec_root(self) -> Seq<u8> {
        spec_merkleize_bytes(self.0@)
    }

    /// Fixed size.
    pub fn is_variable_size() -> (r: bool)
        ensures
            !r,
    {
        false
    }

    /// The byte length.
    pub fn size_hint() -> (r: usize)
        ensures
            r == 48,
    {
        KZG_PROOF_BYTES
    }

    /// Append the bytes.
    pub fn serialize(&self, buffer: &mut Vec<u8>) -> (r: Result<usize, SerializeError>)
        ensures
            r == Ok::<usize, SerializeError>(48),
            final(buffer)@ == old(buffer)@ + self.spec_ssz(),
    {
        serialize_bytes(&self.0, buffer)
    }

    /// Decode from exactly 48 bytes.
    pub fn deserialize(encoding: &[u8]) -> (r: Result<Self, DeserializeError>)
        ensures
            r is Ok <==> encoding@.len() == 48,
            r matches Ok(v) ==> v.spec_ssz() == encoding@,
            r matches Err(e) ==> e == length_error(encoding@.len() as usize, 48),
    {
        match deserialize_bytes::<KZG_PROOF_BYTES>(encoding) {
            Ok(b) => Ok(KZGProof(b)),
            Err(e) => Err(e),
        }
    }

    /// The root of the bytes.
    pub fn hash_tree_root(&self) -> (r: Result<Node, MerkleizationError>)
        ensures
            r matches Ok(n) && n.0@ == self.spec_root(),
    {
        hash_tree_root_bytes(&self.0)
    }

    /// A byte vector is a composite type.
    pub fn is_composite_type() -> (r: bool)
        ensures
            r == true,
    {
        true
    }
}

/// Serialized evaluations for one data-availability cell.
#[derive(Clone, Copy, Debug, PartialOrd, Ord, Hash, PartialEq, Eq)]
pub struct Cell(pub [u8; BYTES_PER_CELL]);

impl Default for Cell {
    /// All-zero bytes.
    fn default() -> (r: Self)
        ensures
            r.0@ == zeros(2048),
    {
        let r = Cell([0u8; BYTES_PER_CELL]);
        assert(r.0@ =~= zeros(2048));
        r
    }
}

impl Cell {
    /// The SSZ encoding: the bytes themselves.
    pub open spec fn spec_ssz(self) -> Seq<u8> {
        self.0@
    }

    /// The hash-tree-root.
    pub open spec fn spec_root(self) -> Seq<u8> {
        spec_merkleize_bytes(self.0@)
    }

    /// Fixed size.
    pub fn is_variable_size() -> (r: bool)
        ensures
            !r,
    {
        false
    }

    /// The byte length.
    pub fn size_hint() -> (r: usize)
        ensures
            r == 2048,
    {
        BYTES_PER_CELL
    }

    /// Append the bytes.
    pub fn serialize(&self, buffer: &mut Vec<u8>) -> (r: Result<usize, SerializeError>)
        ensures
            r == Ok::<usize, SerializeError>(2048),
            final(buffer)@ == old(buffer)@ + self.spec_ssz(),
    {
        serialize_bytes(&self.0, buffer)
    }

    /// Decode from exactly 2048 bytes.
    pub fn deserialize(encoding: &[u8]) -> (r: Result<Self, DeserializeError>)
        ensures
            r is Ok <==> encoding@.len() == 2048,
            r matches Ok(v) ==> v.spec_ssz() == encoding@,
            r matches Err(e) ==> e == length_error(encoding@.len() as usize, 2048),
    {
        match deserialize_bytes::<BYTES_PER_CELL>(encoding) {
            Ok(b) => Ok(Cell(b)),
            Err(e) => Err(e),
        }
    }

    /// The root of the bytes.
    pub fn hash_tree_root(&self) -> (r: Result<Node, MerkleizationError>)
        ensures
            r matches Ok(n) && n.0@ == self.spec_root(),
    {
        hash_tree_root_bytes(&self.0)
    }

    /// A byte vector is a composite type.
    pub fn is_composite_type() -> (r: bool)
        ensures
            r == true,
    {
        true
    }
}

/// 256-bit unsigned integer stored as 32 little-endian bytes per SSZ.
#[derive(Clone, Copy, Debug, PartialOrd, Ord, Hash, Default, PartialEq, Eq)]
pub struct Uint256(pub [u8; UINT256_BYTES]);

impl Uint256 {
    /// The SSZ encoding: the bytes themselves.
    pub open spec fn spec_ssz(self) -> Seq<u8> {
        self.0@
    }

    /// The hash-tree-root.
    pub open spec fn spec_root(self) -> Seq<u8> {
        self.0@
    }

    /// Fixed size.
    pub fn is_variable_size() -> (r: bool)
        ensures
            !r,
    {
        false
    }

    /// The byte length.
    pub fn size_hint() -> (r: usize)
        ensures
            r == 32,
    {
        UINT256_BYTES
    }

    /// Append the bytes.
    pub fn serialize(&self, buffer: &mut Vec<u8>) -> (r: Result<usize, SerializeError>)
        ensures
            r == Ok::<usize, SerializeError>(32),
            final(buffer)@ == old(buffer)@ + self.spec_ssz(),
    {
        serialize_bytes(&self.0, buffer)
    }

    /// Decode from exactly 32 bytes.
    pub fn deserialize(encoding: &[u8]) -> (r: Result<Self, DeserializeError>)
        ensures
            r is Ok <==> encoding@.len() == 32,
            r matches Ok(v) ==> v.spec_ssz() == encoding@,
            r matches Err(e) ==> e == length_error(encoding@.len() as usize, 32),
    {
        match deserialize_bytes::<UINT256_BYTES>(encoding) {
            Ok(b) => Ok(Uint256(b)),
            Err(e) => Err(e),
        }
    }

    /// The root of the bytes.
    pub fn hash_tree_root(&self) -> (r: Result<Node, MerkleizationError>)
        ensures
            r matches Ok(n) && n.0@ == self.spec_root(),
    {
        Ok(Node(self.0))
    }

    /// A basic unsigned integer, not a composite type.
    pub fn is_composite_type() -> (r: bool)
        ensures
            r == false,
    {
        false
    }
}

impl Root {
    /// All-zero root used by the spec as an unset placeholder.
    pub fn zero() -> (r: Self)
        ensures
            r.0@ == zeros(32),
    {
        let r = Root([0u8; 32]);
        assert(r.0@ =~= zeros(32));
        r
    }

    /// Whether this is the all-zero root.
    pub fn is_zero(&self) -> (r: bool)
        ensures
            r == (self.0@ == zeros(32)),
    {
        let z = Root::zero();
        bytes_equal(&self.0, &z.0)
    }

    /// Build a root from a merkle node.
    pub fn from_node(node: Node) -> (r: Self)
        ensures
            r.0 == node.0,
    {
        Root(node.0)
    }
}

impl Root {
    /// Whether two roots are the same value.
    pub fn equals(&self, other: &Root) -> (r: bool)
        ensures
            r == (*self == *other),
    {
        proof {
            lemma_root_eq(*self, *other);
        }
        bytes_equal(&self.0, &other.0)
    }
}

/// Two roots are equal exactly when their bytes are.
pub proof fn lemma_root_eq(a: Root, b: Root)
    ensures
        (a.0@ == b.0@) <==> (a == b),
{
    if a.0@ == b.0@ {
        assert(a.0 =~= b.0);
    }
}

impl BLSSignature {
    /// Serialized BLS12-381 G2 point at infinity used for empty aggregates and
    /// self-build placeholders: `0xC0` followed by zeros.
    pub fn g2_point_at_infinity() -> (r: Self)
        ensures
            r.0@ == seq![0xC0u8] + zeros(95),
    {
        let mut bytes = [0u8; BLS_G2_COMPRESSED_BYTES];
        bytes[0] = 0xC0;
        assert(bytes@ =~= seq![0xC0u8] + zeros(95));
        BLSSignature(bytes)
    }

    /// True when this signature is the serialized G2 point at infinity.
    pub fn is_g2_point_at_infinity(&self) -> (r: bool)
        ensures
            r == (self.0@ == seq![0xC0u8] + zeros(95)),
    {
        let expected = Self::g2_point_at_infinity();
        bytes_equal(&self.0, &expected.0)
    }
}

} // verus!
