//! SSZ for the numeric newtypes: each encodes and roots like the integer it wraps.
use vstd::prelude::*;

use crate::ssz::basic::{
    deserialize_u64, deserialize_u8, hash_tree_root_u64, hash_tree_root_u8, serialize_u64,
    serialize_u8, spec_deserialize_u64, spec_deserialize_u8, spec_u64_le, spec_u64_root,
    spec_u8_root, u64_is_variable_size, u64_size_hint,
};
use crate::ssz::{DeserializeError, MerkleizationError, Node, SerializeError};

use super::numeric::{Slot, Epoch, ValidatorIndex, BuilderIndex, CommitteeIndex, ColumnIndex, RowIndex, CustodyIndex, SubnetId, CellIndex, CommitmentIndex, WithdrawalIndex, Gwei, ParticipationFlags};

verus! {

impl Slot {
    /// The SSZ encoding: the wrapped `u64`, little-endian.
    pub open spec fn spec_ssz(self) -> Seq<u8> {
        spec_u64_le(self.0)
    }

    /// The hash-tree-root: the wrapped `u64`'s chunk.
    pub open spec fn spec_root(self) -> Seq<u8> {
        spec_u64_root(self.0)
    }

    /// Fixed size, like `u64`.
    pub fn is_variable_size() -> (r: bool)
        ensures
            !r,
    {
        u64_is_variable_size()
    }

    /// Eight bytes, like `u64`.
    pub fn size_hint() -> (r: usize)
        ensures
            r == 8,
    {
        u64_size_hint()
    }

    /// Append the encoding of the wrapped `u64`.
    pub fn serialize(&self, buffer: &mut Vec<u8>) -> (r: Result<usize, SerializeError>)
        ensures
            r == Ok::<usize, SerializeError>(8),
            final(buffer)@ == old(buffer)@ + self.spec_ssz(),
    {
        serialize_u64(self.0, buffer)
    }

    /// Decode from exactly eight little-endian bytes.
    pub fn deserialize(encoding: &[u8]) -> (r: Result<Self, DeserializeError>)
        ensures
            match spec_deserialize_u64(encoding@) {
                Ok(x) => r == Ok::<Self, DeserializeError>(Slot(x)),
                Err(e) => r == Err::<Self, DeserializeError>(e),
            },
    {
        match deserialize_u64(encoding) {
            Ok(x) => Ok(Slot(x)),
            Err(e) => Err(e),
        }
    }

    /// The root of the wrapped `u64`.
    pub fn hash_tree_root(&self) -> (r: Result<Node, MerkleizationError>)
        ensures
            r matches Ok(n) && n.0@ == self.spec_root(),
    {
        hash_tree_root_u64(self.0)
    }

    /// A basic type, not a composite one.
    pub fn is_composite_type() -> (r: bool)
        ensures
            !r,
    {
        false
    }
}

impl Epoch {
    /// The SSZ encoding: the wrapped `u64`, little-endian.
    pub open spec fn spec_ssz(self) -> Seq<u8> {
        spec_u64_le(self.0)
    }

    /// The hash-tree-root: the wrapped `u64`'s chunk.
    pub open spec fn spec_root(self) -> Seq<u8> {
        spec_u64_root(self.0)
    }

    /// Fixed size, like `u64`.
    pub fn is_variable_size() -> (r: bool)
        ensures
            !r,
    {
        u64_is_variable_size()
    }

    /// Eight bytes, like `u64`.
    pub fn size_hint() -> (r: usize)
        ensures
            r == 8,
    {
        u64_size_hint()
    }

    /// Append the encoding of the wrapped `u64`.
    pub fn serialize(&self, buffer: &mut Vec<u8>) -> (r: Result<usize, SerializeError>)
        ensures
            r == Ok::<usize, SerializeError>(8),
            final(buffer)@ == old(buffer)@ + self.spec_ssz(),
    {
        serialize_u64(self.0, buffer)
    }

    /// Decode from exactly eight little-endian bytes.
    pub fn deserialize(encoding: &[u8]) -> (r: Result<Self, DeserializeError>)
        ensures
            match spec_deserialize_u64(encoding@) {
                Ok(x) => r == Ok::<Self, DeserializeError>(Epoch(x)),
                Err(e) => r == Err::<Self, DeserializeError>(e),
            },
    {
        match deserialize_u64(encoding) {
            Ok(x) => Ok(Epoch(x)),
            Err(e) => Err(e),
        }
    }

    /// The root of the wrapped `u64`.
    pub fn hash_tree_root(&self) -> (r: Result<Node, MerkleizationError>)
        ensures
            r matches Ok(n) && n.0@ == self.spec_root(),
    {
        hash_tree_root_u64(self.0)
    }

    /// A basic type, not a composite one.
    pub fn is_composite_type() -> (r: bool)
        ensures
            !r,
    {
        false
    }
}

impl ValidatorIndex {
    /// The SSZ encoding: the wrapped `u64`, little-endian.
    pub open spec fn spec_ssz(self) -> Seq<u8> {
        spec_u64_le(self.0)
    }

    /// The hash-tree-root: the wrapped `u64`'s chunk.
    pub open spec fn spec_root(self) -> Seq<u8> {
        spec_u64_root(self.0)
    }

    /// Fixed size, like `u64`.
    pub fn is_variable_size() -> (r: bool)
        ensures
            !r,
    {
        u64_is_variable_size()
    }

    /// Eight bytes, like `u64`.
    pub fn size_hint() -> (r: usize)
        ensures
            r == 8,
    {
        u64_size_hint()
    }

    /// Append the encoding of the wrapped `u64`.
    pub fn serialize(&self, buffer: &mut Vec<u8>) -> (r: Result<usize, SerializeError>)
        ensures
            r == Ok::<usize, SerializeError>(8),
            final(buffer)@ == old(buffer)@ + self.spec_ssz(),
    {
        serialize_u64(self.0, buffer)
    }

    /// Decode from exactly eight little-endian bytes.
    pub fn deserialize(encoding: &[u8]) -> (r: Result<Self, DeserializeError>)
        ensures
            match spec_deserialize_u64(encoding@) {
                Ok(x) => r == Ok::<Self, DeserializeError>(ValidatorIndex(x)),
                Err(e) => r == Err::<Self, DeserializeError>(e),
            },
    {
        match deserialize_u64(encoding) {
            Ok(x) => Ok(ValidatorIndex(x)),
            Err(e) => Err(e),
        }
    }

    /// The root of the wrapped `u64`.
    pub fn hash_tree_root(&self) -> (r: Result<Node, MerkleizationError>)
        ensures
            r matches Ok(n) && n.0@ == self.spec_root(),
    {
        hash_tree_root_u64(self.0)
    }

    /// A basic type, not a composite one.
    pub fn is_composite_type() -> (r: bool)
        ensures
            !r,
    {
        false
    }
}

impl BuilderIndex {
    /// The SSZ encoding: the wrapped `u64`, little-endian.
    pub open spec fn spec_ssz(self) -> Seq<u8> {
        spec_u64_le(self.0)
    }

    /// The hash-tree-root: the wrapped `u64`'s chunk.
    pub open spec fn spec_root(self) -> Seq<u8> {
        spec_u64_root(self.0)
    }

    /// Fixed size, like `u64`.
    pub fn is_variable_size() -> (r: bool)
        ensures
            !r,
    {
        u64_is_variable_size()
    }

    /// Eight bytes, like `u64`.
    pub fn size_hint() -> (r: usize)
        ensures
            r == 8,
    {
        u64_size_hint()
    }

    /// Append the encoding of the wrapped `u64`.
    pub fn serialize(&self, buffer: &mut Vec<u8>) -> (r: Result<usize, SerializeError>)
        ensures
            r == Ok::<usize, SerializeError>(8),
            final(buffer)@ == old(buffer)@ + self.spec_ssz(),
    {
        serialize_u64(self.0, buffer)
    }

    /// Decode from exactly eight little-endian bytes.
    pub fn deserialize(encoding: &[u8]) -> (r: Result<Self, DeserializeError>)
        ensures
            match spec_deserialize_u64(encoding@) {
                Ok(x) => r == Ok::<Self, DeserializeError>(BuilderIndex(x)),
                Err(e) => r == Err::<Self, DeserializeError>(e),
            },
    {
        match deserialize_u64(encoding) {
            Ok(x) => Ok(BuilderIndex(x)),
            Err(e) => Err(e),
        }
    }

    /// The root of the wrapped `u64`.
    pub fn hash_tree_root(&self) -> (r: Result<Node, MerkleizationError>)
        ensures
            r matches Ok(n) && n.0@ == self.spec_root(),
    {
        hash_tree_root_u64(self.0)
    }

    /// A basic type, not a composite one.
    pub fn is_composite_type() -> (r: bool)
        ensures
            !r,
    {
        false
    }
}

impl CommitteeIndex {
    /// The SSZ encoding: the wrapped `u64`, little-endian.
    pub open spec fn spec_ssz(self) -> Seq<u8> {
        spec_u64_le(self.0)
    }

    /// The hash-tree-root: the wrapped `u64`'s chunk.
    pub open spec fn spec_root(self) -> Seq<u8> {
        spec_u64_root(self.0)
    }

    /// Fixed size, like `u64`.
    pub fn is_variable_size() -> (r: bool)
        ensures
            !r,
    {
        u64_is_variable_size()
    }

    /// Eight bytes, like `u64`.
    pub fn size_hint() -> (r: usize)
        ensures
            r == 8,
    {
        u64_size_hint()
    }

    /// Append the encoding of the wrapped `u64`.
    pub fn serialize(&self, buffer: &mut Vec<u8>) -> (r: Result<usize, SerializeError>)
        ensures
            r == Ok::<usize, SerializeError>(8),
            final(buffer)@ == old(buffer)@ + self.spec_ssz(),
    {
        serialize_u64(self.0, buffer)
    }

    /// Decode from exactly eight little-endian bytes.
    pub fn deserialize(encoding: &[u8]) -> (r: Result<Self, DeserializeError>)
        ensures
            match spec_deserialize_u64(encoding@) {
                Ok(x) => r == Ok::<Self, DeserializeError>(CommitteeIndex(x)),
                Err(e) => r == Err::<Self, DeserializeError>(e),
            },
    {
        match deserialize_u64(encoding) {
            Ok(x) => Ok(CommitteeIndex(x)),
            Err(e) => Err(e),
        }
    }

    /// The root of the wrapped `u64`.
    pub fn hash_tree_root(&self) -> (r: Result<Node, MerkleizationError>)
        ensures
            r matches Ok(n) && n.0@ == self.spec_root(),
    {
        hash_tree_root_u64(self.0)
    }

    /// A basic type, not a composite one.
    pub fn is_composite_type() -> (r: bool)
        ensures
            !r,
    {
        false
    }
}

impl ColumnIndex {
    /// The SSZ encoding: the wrapped `u64`, little-endian.
    pub open spec fn spec_ssz(self) -> Seq<u8> {
        spec_u64_le(self.0)
    }

    /// The hash-tree-root: the wrapped `u64`'s chunk.
    pub open spec fn spec_root(self) -> Seq<u8> {
        spec_u64_root(self.0)
    }

    /// Fixed size, like `u64`.
    pub fn is_variable_size() -> (r: bool)
        ensures
            !r,
    {
        u64_is_variable_size()
    }

    /// Eight bytes, like `u64`.
    pub fn size_hint() -> (r: usize)
        ensures
            r == 8,
    {
        u64_size_hint()
    }

    /// Append the encoding of the wrapped `u64`.
    pub fn serialize(&self, buffer: &mut Vec<u8>) -> (r: Result<usize, SerializeError>)
        ensures
            r == Ok::<usize, SerializeError>(8),
            final(buffer)@ == old(buffer)@ + self.spec_ssz(),
    {
        serialize_u64(self.0, buffer)
    }

    /// Decode from exactly eight little-endian bytes.
    pub fn deserialize(encoding: &[u8]) -> (r: Result<Self, DeserializeError>)
        ensures
            match spec_deserialize_u64(encoding@) {
                Ok(x) => r == Ok::<Self, DeserializeError>(ColumnIndex(x)),
                Err(e) => r == Err::<Self, DeserializeError>(e),
            },
    {
        match deserialize_u64(encoding) {
            Ok(x) => Ok(ColumnIndex(x)),
            Err(e) => Err(e),
        }
    }

    /// The root of the wrapped `u64`.
    pub fn hash_tree_root(&self) -> (r: Result<Node, MerkleizationError>)
        ensures
            r matches Ok(n) && n.0@ == self.spec_root(),
    {
        hash_tree_root_u64(self.0)
    }

    /// A basic type, not a composite one.
    pub fn is_composite_type() -> (r: bool)
        ensures
            !r,
    {
        false
    }
}

impl RowIndex {
    /// The SSZ encoding: the wrapped `u64`, little-endian.
    pub open spec fn spec_ssz(self) -> Seq<u8> {
        spec_u64_le(self.0)
    }

    /// The hash-tree-root: the wrapped `u64`'s chunk.
    pub open spec fn spec_root(self) -> Seq<u8> {
        spec_u64_root(self.0)
    }

    /// Fixed size, like `u64`.
    pub fn is_variable_size() -> (r: bool)
        ensures
            !r,
    {
        u64_is_variable_size()
    }

    /// Eight bytes, like `u64`.
    pub fn size_hint() -> (r: usize)
        ensures
            r == 8,
    {
        u64_size_hint()
    }

    /// Append the encoding of the wrapped `u64`.
    pub fn serialize(&self, buffer: &mut Vec<u8>) -> (r: Result<usize, SerializeError>)
        ensures
            r == Ok::<usize, SerializeError>(8),
            final(buffer)@ == old(buffer)@ + self.spec_ssz(),
    {
        serialize_u64(self.0, buffer)
    }

    /// Decode from exactly eight little-endian bytes.
    pub fn deserialize(encoding: &[u8]) -> (r: Result<Self, DeserializeError>)
        ensures
            match spec_deserialize_u64(encoding@) {
                Ok(x) => r == Ok::<Self, DeserializeError>(RowIndex(x)),
                Err(e) => r == Err::<Self, DeserializeError>(e),
            },
    {
        match deserialize_u64(encoding) {
            Ok(x) => Ok(RowIndex(x)),
            Err(e) => Err(e),
        }
    }

    /// The root of the wrapped `u64`.
    pub fn hash_tree_root(&self) -> (r: Result<Node, MerkleizationError>)
        ensures
            r matches Ok(n) && n.0@ == self.spec_root(),
    {
        hash_tree_root_u64(self.0)
    }

    /// A basic type, not a composite one.
    pub fn is_composite_type() -> (r: bool)
        ensures
            !r,
    {
        false
    }
}

impl CustodyIndex {
    /// The SSZ encoding: the wrapped `u64`, little-endian.
    pub open spec fn spec_ssz(self) -> Seq<u8> {
        spec_u64_le(self.0)
    }

    /// The hash-tree-root: the wrapped `u64`'s chunk.
    pub open spec fn spec_root(self) -> Seq<u8> {
        spec_u64_root(self.0)
    }

    /// Fixed size, like `u64`.
    pub fn is_variable_size() -> (r: bool)
        ensures
            !r,
    {
        u64_is_variable_size()
    }

    /// Eight bytes, like `u64`.
    pub fn size_hint() -> (r: usize)
        ensures
            r == 8,
    {
        u64_size_hint()
    }

    /// Append the encoding of the wrapped `u64`.
    pub fn serialize(&self, buffer: &mut Vec<u8>) -> (r: Result<usize, SerializeError>)
        ensures
            r == Ok::<usize, SerializeError>(8),
            final(buffer)@ == old(buffer)@ + self.spec_ssz(),
    {
        serialize_u64(self.0, buffer)
    }

    /// Decode from exactly eight little-endian bytes.
    pub fn deserialize(encoding: &[u8]) -> (r: Result<Self, DeserializeError>)
        ensures
            match spec_deserialize_u64(encoding@) {
                Ok(x) => r == Ok::<Self, DeserializeError>(CustodyIndex(x)),
                Err(e) => r == Err::<Self, DeserializeError>(e),
            },
    {
        match deserialize_u64(encoding) {
            Ok(x) => Ok(CustodyIndex(x)),
            Err(e) => Err(e),
        }
    }

    /// The root of the wrapped `u64`.
    pub fn hash_tree_root(&self) -> (r: Result<Node, MerkleizationError>)
        ensures
            r matches Ok(n) && n.0@ == self.spec_root(),
    {
        hash_tree_root_u64(self.0)
    }

    /// A basic type, not a composite one.
    pub fn is_composite_type() -> (r: bool)
        ensures
            !r,
    {
        false
    }
}

impl SubnetId {
    /// The SSZ encoding: the wrapped `u64`, little-endian.
    pub open spec fn spec_ssz(self) -> Seq<u8> {
        spec_u64_le(self.0)
    }

    /// The hash-tree-root: the wrapped `u64`'s chunk.
    pub open spec fn spec_root(self) -> Seq<u8> {
        spec_u64_root(self.0)
    }

    /// Fixed size, like `u64`.
    pub fn is_variable_size() -> (r: bool)
        ensures
            !r,
    {
        u64_is_variable_size()
    }

    /// Eight bytes, like `u64`.
    pub fn size_hint() -> (r: usize)
        ensures
            r == 8,
    {
        u64_size_hint()
    }

    /// Append the encoding of the wrapped `u64`.
    pub fn serialize(&self, buffer: &mut Vec<u8>) -> (r: Result<usize, SerializeError>)
        ensures
            r == Ok::<usize, SerializeError>(8),
            final(buffer)@ == old(buffer)@ + self.spec_ssz(),
    {
        serialize_u64(self.0, buffer)
    }

    /// Decode from exactly eight little-endian bytes.
    pub fn deserialize(encoding: &[u8]) -> (r: Result<Self, DeserializeError>)
        ensures
            match spec_deserialize_u64(encoding@) {
                Ok(x) => r == Ok::<Self, DeserializeError>(SubnetId(x)),
                Err(e) => r == Err::<Self, DeserializeError>(e),
            },
    {
        match deserialize_u64(encoding) {
            Ok(x) => Ok(SubnetId(x)),
            Err(e) => Err(e),
        }
    }

    /// The root of the wrapped `u64`.
    pub fn hash_tree_root(&self) -> (r: Result<Node, MerkleizationError>)
        ensures
            r matches Ok(n) && n.0@ == self.spec_root(),
    {
        hash_tree_root_u64(self.0)
    }

    /// A basic type, not a composite one.
    pub fn is_composite_type() -> (r: bool)
        ensures
            !r,
    {
        false
    }
}

impl CellIndex {
    /// The SSZ encoding: the wrapped `u64`, little-endian.
    pub open spec fn spec_ssz(self) -> Seq<u8> {
        spec_u64_le(self.0)
    }

    /// The hash-tree-root: the wrapped `u64`'s chunk.
    pub open spec fn spec_root(self) -> Seq<u8> {
        spec_u64_root(self.0)
    }

    /// Fixed size, like `u64`.
    pub fn is_variable_size() -> (r: bool)
        ensures
            !r,
    {
        u64_is_variable_size()
    }

    /// Eight bytes, like `u64`.
    pub fn size_hint() -> (r: usize)
        ensures
            r == 8,
    {
        u64_size_hint()
    }

    /// Append the encoding of the wrapped `u64`.
    pub fn serialize(&self, buffer: &mut Vec<u8>) -> (r: Result<usize, SerializeError>)
        ensures
            r == Ok::<usize, SerializeError>(8),
            final(buffer)@ == old(buffer)@ + self.spec_ssz(),
    {
        serialize_u64(self.0, buffer)
    }

    /// Decode from exactly eight little-endian bytes.
    pub fn deserialize(encoding: &[u8]) -> (r: Result<Self, DeserializeError>)
        ensures
            match spec_deserialize_u64(encoding@) {
                Ok(x) => r == Ok::<Self, DeserializeError>(CellIndex(x)),
                Err(e) => r == Err::<Self, DeserializeError>(e),
            },
    {
        match deserialize_u64(encoding) {
            Ok(x) => Ok(CellIndex(x)),
            Err(e) => Err(e),
        }
    }

    /// The root of the wrapped `u64`.
    pub fn hash_tree_root(&self) -> (r: Result<Node, MerkleizationError>)
        ensures
            r matches Ok(n) && n.0@ == self.spec_root(),
    {
        hash_tree_root_u64(self.0)
    }

    /// A basic type, not a composite one.
    pub fn is_composite_type() -> (r: bool)
        ensures
            !r,
    {
        false
    }
}

impl CommitmentIndex {
    /// The SSZ encoding: the wrapped `u64`, little-endian.
    pub open spec fn spec_ssz(self) -> Seq<u8> {
        spec_u64_le(self.0)
    }

    /// The hash-tree-root: the wrapped `u64`'s chunk.
    pub open spec fn spec_root(self) -> Seq<u8> {
        spec_u64_root(self.0)
    }

    /// Fixed size, like `u64`.
    pub fn is_variable_size() -> (r: bool)
        ensures
            !r,
    {
        u64_is_variable_size()
    }

    /// Eight bytes, like `u64`.
    pub fn size_hint() -> (r: usize)
        ensures
            r == 8,
    {
        u64_size_hint()
    }

    /// Append the encoding of the wrapped `u64`.
    pub fn serialize(&self, buffer: &mut Vec<u8>) -> (r: Result<usize, SerializeError>)
        ensures
            r == Ok::<usize, SerializeError>(8),
            final(buffer)@ == old(buffer)@ + self.spec_ssz(),
    {
        serialize_u64(self.0, buffer)
    }

    /// Decode from exactly eight little-endian bytes.
    pub fn deserialize(encoding: &[u8]) -> (r: Result<Self, DeserializeError>)
        ensures
            match spec_deserialize_u64(encoding@) {
                Ok(x) => r == Ok::<Self, DeserializeError>(CommitmentIndex(x)),
                Err(e) => r == Err::<Self, DeserializeError>(e),
            },
    {
        match deserialize_u64(encoding) {
            Ok(x) => Ok(CommitmentIndex(x)),
            Err(e) => Err(e),
        }
    }

    /// The root of the wrapped `u64`.
    pub fn hash_tree_root(&self) -> (r: Result<Node, MerkleizationError>)
        ensures
            r matches Ok(n) && n.0@ == self.spec_root(),
    {
        hash_tree_root_u64(self.0)
    }

    /// A basic type, not a composite one.
    pub fn is_composite_type() -> (r: bool)
        ensures
            !r,
    {
        false
    }
}

impl WithdrawalIndex {
    /// The SSZ encoding: the wrapped `u64`, little-endian.
    pub open spec fn spec_ssz(self) -> Seq<u8> {
        spec_u64_le(self.0)
    }

    /// The hash-tree-root: the wrapped `u64`'s chunk.
    pub open spec fn spec_root(self) -> Seq<u8> {
        spec_u64_root(self.0)
    }

    /// Fixed size, like `u64`.
    pub fn is_variable_size() -> (r: bool)
        ensures
            !r,
    {
        u64_is_variable_size()
    }

    /// Eight bytes, like `u64`.
    pub fn size_hint() -> (r: usize)
        ensures
            r == 8,
    {
        u64_size_hint()
    }

    /// Append the encoding of the wrapped `u64`.
    pub fn serialize(&self, buffer: &mut Vec<u8>) -> (r: Result<usize, SerializeError>)
        ensures
            r == Ok::<usize, SerializeError>(8),
            final(buffer)@ == old(buffer)@ + self.spec_ssz(),
    {
        serialize_u64(self.0, buffer)
    }

    /// Decode from exactly eight little-endian bytes.
    pub fn deserialize(encoding: &[u8]) -> (r: Result<Self, DeserializeError>)
        ensures
            match spec_deserialize_u64(encoding@) {
                Ok(x) => r == Ok::<Self, DeserializeError>(WithdrawalIndex(x)),
                Err(e) => r == Err::<Self, DeserializeError>(e),
            },
    {
        match deserialize_u64(encoding) {
            Ok(x) => Ok(WithdrawalIndex(x)),
            Err(e) => Err(e),
        }
    }

    /// The root of the wrapped `u64`.
    pub fn hash_tree_root(&self) -> (r: Result<Node, MerkleizationError>)
        ensures
            r matches Ok(n) && n.0@ == self.spec_root(),
    {
        hash_tree_root_u64(self.0)
    }

    /// A basic type, not a composite one.
    pub fn is_composite_type() -> (r: bool)
        ensures
            !r,
    {
        false
    }
}

impl Gwei {
    /// The SSZ encoding: the wrapped `u64`, little-endian.
    pub open spec fn spec_ssz(self) -> Seq<u8> {
        spec_u64_le(self.0)
    }

    /// The hash-tree-root: the wrapped `u64`'s chunk.
    pub open spec fn spec_root(self) -> Seq<u8> {
        spec_u64_root(self.0)
    }

    /// Fixed size, like `u64`.
    pub fn is_variable_size() -> (r: bool)
        ensures
            !r,
    {
        u64_is_variable_size()
    }

    /// Eight bytes, like `u64`.
    pub fn size_hint() -> (r: usize)
        ensures
            r == 8,
    {
        u64_size_hint()
    }

    /// Append the encoding of the wrapped `u64`.
    pub fn serialize(&self, buffer: &mut Vec<u8>) -> (r: Result<usize, SerializeError>)
        ensures
            r == Ok::<usize, SerializeError>(8),
            final(buffer)@ == old(buffer)@ + self.spec_ssz(),
    {
        serialize_u64(self.0, buffer)
    }

    /// Decode from exactly eight little-endian bytes.
    pub fn deserialize(encoding: &[u8]) -> (r: Result<Self, DeserializeError>)
        ensures
            match spec_deserialize_u64(encoding@) {
                Ok(x) => r == Ok::<Self, DeserializeError>(Gwei(x)),
                Err(e) => r == Err::<Self, DeserializeError>(e),
            },
    {
        match deserialize_u64(encoding) {
            Ok(x) => Ok(Gwei(x)),
            Err(e) => Err(e),
        }
    }

    /// The root of the wrapped `u64`.
    pub fn hash_tree_root(&self) -> (r: Result<Node, MerkleizationError>)
        ensures
            r matches Ok(n) && n.0@ == self.spec_root(),
    {
        hash_tree_root_u64(self.0)
    }

    /// A basic type, not a composite one.
    pub fn is_composite_type() -> (r: bool)
        ensures
            !r,
    {
        false
    }
}

impl ParticipationFlags {
    /// The SSZ encoding: the wrapped byte.
    pub open spec fn spec_ssz(self) -> Seq<u8> {
        seq![self.0]
    }

    /// The hash-tree-root: the wrapped byte's chunk.
    pub open spec fn spec_root(self) -> Seq<u8> {
        spec_u8_root(self.0)
    }

    /// Fixed size, like `u8`.
    pub fn is_variable_size() -> (r: bool)
        ensures
            !r,
    {
        false
    }

    /// One byte, like `u8`.
    pub fn size_hint() -> (r: usize)
        ensures
            r == 1,
    {
        1
    }

    /// Append the wrapped byte.
    pub fn serialize(&self, buffer: &mut Vec<u8>) -> (r: Result<usize, SerializeError>)
        ensures
            r == Ok::<usize, SerializeError>(1),
            final(buffer)@ == old(buffer)@ + self.spec_ssz(),
    {
        let r = serialize_u8(self.0, buffer);
        assert(buffer@ =~= old(buffer)@ + self.spec_ssz());
        r
    }

    /// Decode from exactly one byte.
    pub fn deserialize(encoding: &[u8]) -> (r: Result<Self, DeserializeError>)
        ensures
            match spec_deserialize_u8(encoding@) {
                Ok(x) => r == Ok::<Self, DeserializeError>(ParticipationFlags(x)),
                Err(e) => r == Err::<Self, DeserializeError>(e),
            },
    {
        match deserialize_u8(encoding) {
            Ok(x) => Ok(ParticipationFlags(x)),
            Err(e) => Err(e),
        }
    }

    /// The root of the wrapped byte.
    pub fn hash_tree_root(&self) -> (r: Result<Node, MerkleizationError>)
        ensures
            r matches Ok(n) && n.0@ == self.spec_root(),
    {
        hash_tree_root_u8(self.0)
    }

    /// A basic type, not a composite one.
    pub fn is_composite_type() -> (r: bool)
        ensures
            !r,
    {
        false
    }
}

} // verus!
