//! The SSZ codec interface for the primitive newtypes: numbers encode like
//! the integer they wrap and byte strings as their bytes.
use vstd::prelude::*;

use crate::ssz::basic::{lemma_u64_from_le_roundtrip, lemma_u64_le_roundtrip};
use crate::ssz::codec::SszCodec;
use crate::ssz::{DeserializeError, Node};

use super::numeric::{Slot, Epoch, ValidatorIndex, BuilderIndex, CommitteeIndex, ColumnIndex, RowIndex, CustodyIndex, SubnetId, CellIndex, CommitmentIndex, WithdrawalIndex, Gwei, ParticipationFlags};
use super::byte_arrays::{Root, Hash32, VersionedHash, ExecutionAddress, Version, ForkDigest, Domain, DomainType, BLSPubkey, BLSSignature, KZGCommitment, KZGProof, Cell, Uint256};

verus! {

impl SszCodec for Slot {
    open spec fn spec_fixed_size() -> Option<nat> {
        Some(8)
    }

    open spec fn spec_packed() -> bool {
        true
    }

    open spec fn spec_wf(&self) -> bool {
        true
    }

    open spec fn spec_encoding(&self) -> Seq<u8> {
        self.spec_ssz()
    }

    open spec fn spec_tree_root(&self) -> Seq<u8> {
        self.spec_root()
    }

    proof fn lemma_layout() {
    }

    proof fn lemma_shape(x: &Self) {
        lemma_u64_le_roundtrip(x.0);
    }

    fn ssz_fixed_size() -> (r: Option<usize>) {
        Some(8)
    }

    fn ssz_packed() -> (r: bool) {
        true
    }

    fn ssz_encode(&self, buffer: &mut Vec<u8>) {
        let _ = self.serialize(buffer);
    }

    fn ssz_decode(bytes: &[u8]) -> (r: Result<Self, DeserializeError>) {
        proof {
            if bytes@.len() == 8 {
                lemma_u64_from_le_roundtrip(bytes@);
            }
            if exists|v: Self| v.spec_wf() && #[trigger] v.spec_encoding() == bytes@ {
                let v = choose|v: Self| v.spec_wf() && #[trigger] v.spec_encoding() == bytes@;
                lemma_u64_le_roundtrip(v.0);
            }
        }
        Self::deserialize(bytes)
    }

    fn ssz_root(&self) -> (r: Node) {
        match self.hash_tree_root() {
            Ok(n) => n,
            Err(_) => Node([0u8; 32]),
        }
    }
}

impl SszCodec for Epoch {
    open spec fn spec_fixed_size() -> Option<nat> {
        Some(8)
    }

    open spec fn spec_packed() -> bool {
        true
    }

    open spec fn spec_wf(&self) -> bool {
        true
    }

    open spec fn spec_encoding(&self) -> Seq<u8> {
        self.spec_ssz()
    }

    open spec fn spec_tree_root(&self) -> Seq<u8> {
        self.spec_root()
    }

    proof fn lemma_layout() {
    }

    proof fn lemma_shape(x: &Self) {
        lemma_u64_le_roundtrip(x.0);
    }

    fn ssz_fixed_size() -> (r: Option<usize>) {
        Some(8)
    }

    fn ssz_packed() -> (r: bool) {
        true
    }

    fn ssz_encode(&self, buffer: &mut Vec<u8>) {
        let _ = self.serialize(buffer);
    }

    fn ssz_decode(bytes: &[u8]) -> (r: Result<Self, DeserializeError>) {
        proof {
            if bytes@.len() == 8 {
                lemma_u64_from_le_roundtrip(bytes@);
            }
            if exists|v: Self| v.spec_wf() && #[trigger] v.spec_encoding() == bytes@ {
                let v = choose|v: Self| v.spec_wf() && #[trigger] v.spec_encoding() == bytes@;
                lemma_u64_le_roundtrip(v.0);
            }
        }
        Self::deserialize(bytes)
    }

    fn ssz_root(&self) -> (r: Node) {
        match self.hash_tree_root() {
            Ok(n) => n,
            Err(_) => Node([0u8; 32]),
        }
    }
}

impl SszCodec for ValidatorIndex {
    open spec fn spec_fixed_size() -> Option<nat> {
        Some(8)
    }

    open spec fn spec_packed() -> bool {
        true
    }

    open spec fn spec_wf(&self) -> bool {
        true
    }

    open spec fn spec_encoding(&self) -> Seq<u8> {
        self.spec_ssz()
    }

    open spec fn spec_tree_root(&self) -> Seq<u8> {
        self.spec_root()
    }

    proof fn lemma_layout() {
    }

    proof fn lemma_shape(x: &Self) {
        lemma_u64_le_roundtrip(x.0);
    }

    fn ssz_fixed_size() -> (r: Option<usize>) {
        Some(8)
    }

    fn ssz_packed() -> (r: bool) {
        true
    }

    fn ssz_encode(&self, buffer: &mut Vec<u8>) {
        let _ = self.serialize(buffer);
    }

    fn ssz_decode(bytes: &[u8]) -> (r: Result<Self, DeserializeError>) {
        proof {
            if bytes@.len() == 8 {
                lemma_u64_from_le_roundtrip(bytes@);
            }
            if exists|v: Self| v.spec_wf() && #[trigger] v.spec_encoding() == bytes@ {
                let v = choose|v: Self| v.spec_wf() && #[trigger] v.spec_encoding() == bytes@;
                lemma_u64_le_roundtrip(v.0);
            }
        }
        Self::deserialize(bytes)
    }

    fn ssz_root(&self) -> (r: Node) {
        match self.hash_tree_root() {
            Ok(n) => n,
            Err(_) => Node([0u8; 32]),
        }
    }
}

impl SszCodec for BuilderIndex {
    open spec fn spec_fixed_size() -> Option<nat> {
        Some(8)
    }

    open spec fn spec_packed() -> bool {
        true
    }

    open spec fn spec_wf(&self) -> bool {
        true
    }

    open spec fn spec_encoding(&self) -> Seq<u8> {
        self.spec_ssz()
    }

    open spec fn spec_tree_root(&self) -> Seq<u8> {
        self.spec_root()
    }

    proof fn lemma_layout() {
    }

    proof fn lemma_shape(x: &Self) {
        lemma_u64_le_roundtrip(x.0);
    }

    fn ssz_fixed_size() -> (r: Option<usize>) {
        Some(8)
    }

    fn ssz_packed() -> (r: bool) {
        true
    }

    fn ssz_encode(&self, buffer: &mut Vec<u8>) {
        let _ = self.serialize(buffer);
    }

    fn ssz_decode(bytes: &[u8]) -> (r: Result<Self, DeserializeError>) {
        proof {
            if bytes@.len() == 8 {
                lemma_u64_from_le_roundtrip(bytes@);
            }
            if exists|v: Self| v.spec_wf() && #[trigger] v.spec_encoding() == bytes@ {
                let v = choose|v: Self| v.spec_wf() && #[trigger] v.spec_encoding() == bytes@;
                lemma_u64_le_roundtrip(v.0);
            }
        }
        Self::deserialize(bytes)
    }

    fn ssz_root(&self) -> (r: Node) {
        match self.hash_tree_root() {
            Ok(n) => n,
            Err(_) => Node([0u8; 32]),
        }
    }
}

impl SszCodec for CommitteeIndex {
    open spec fn spec_fixed_size() -> Option<nat> {
        Some(8)
    }

    open spec fn spec_packed() -> bool {
        true
    }

    open spec fn spec_wf(&self) -> bool {
        true
    }

    open spec fn spec_encoding(&self) -> Seq<u8> {
        self.spec_ssz()
    }

    open spec fn spec_tree_root(&self) -> Seq<u8> {
        self.spec_root()
    }

    proof fn lemma_layout() {
    }

    proof fn lemma_shape(x: &Self) {
        lemma_u64_le_roundtrip(x.0);
    }

    fn ssz_fixed_size() -> (r: Option<usize>) {
        Some(8)
    }

    fn ssz_packed() -> (r: bool) {
        true
    }

    fn ssz_encode(&self, buffer: &mut Vec<u8>) {
        let _ = self.serialize(buffer);
    }

    fn ssz_decode(bytes: &[u8]) -> (r: Result<Self, DeserializeError>) {
        proof {
            if bytes@.len() == 8 {
                lemma_u64_from_le_roundtrip(bytes@);
            }
            if exists|v: Self| v.spec_wf() && #[trigger] v.spec_encoding() == bytes@ {
                let v = choose|v: Self| v.spec_wf() && #[trigger] v.spec_encoding() == bytes@;
                lemma_u64_le_roundtrip(v.0);
            }
        }
        Self::deserialize(bytes)
    }

    fn ssz_root(&self) -> (r: Node) {
        match self.hash_tree_root() {
            Ok(n) => n,
            Err(_) => Node([0u8; 32]),
        }
    }
}

impl SszCodec for ColumnIndex {
    open spec fn spec_fixed_size() -> Option<nat> {
        Some(8)
    }

    open spec fn spec_packed() -> bool {
        true
    }

    open spec fn spec_wf(&self) -> bool {
        true
    }

    open spec fn spec_encoding(&self) -> Seq<u8> {
        self.spec_ssz()
    }

    open spec fn spec_tree_root(&self) -> Seq<u8> {
        self.spec_root()
    }

    proof fn lemma_layout() {
    }

    proof fn lemma_shape(x: &Self) {
        lemma_u64_le_roundtrip(x.0);
    }

    fn ssz_fixed_size() -> (r: Option<usize>) {
        Some(8)
    }

    fn ssz_packed() -> (r: bool) {
        true
    }

    fn ssz_encode(&self, buffer: &mut Vec<u8>) {
        let _ = self.serialize(buffer);
    }

    fn ssz_decode(bytes: &[u8]) -> (r: Result<Self, DeserializeError>) {
        proof {
            if bytes@.len() == 8 {
                lemma_u64_from_le_roundtrip(bytes@);
            }
            if exists|v: Self| v.spec_wf() && #[trigger] v.spec_encoding() == bytes@ {
                let v = choose|v: Self| v.spec_wf() && #[trigger] v.spec_encoding() == bytes@;
                lemma_u64_le_roundtrip(v.0);
            }
        }
        Self::deserialize(bytes)
    }

    fn ssz_root(&self) -> (r: Node) {
        match self.hash_tree_root() {
            Ok(n) => n,
            Err(_) => Node([0u8; 32]),
        }
    }
}

impl SszCodec for RowIndex {
    open spec fn spec_fixed_size() -> Option<nat> {
        Some(8)
    }

    open spec fn spec_packed() -> bool {
        true
    }

    open spec fn spec_wf(&self) -> bool {
        true
    }

    open spec fn spec_encoding(&self) -> Seq<u8> {
        self.spec_ssz()
    }

    open spec fn spec_tree_root(&self) -> Seq<u8> {
        self.spec_root()
    }

    proof fn lemma_layout() {
    }

    proof fn lemma_shape(x: &Self) {
        lemma_u64_le_roundtrip(x.0);
    }

    fn ssz_fixed_size() -> (r: Option<usize>) {
        Some(8)
    }

    fn ssz_packed() -> (r: bool) {
        true
    }

    fn ssz_encode(&self, buffer: &mut Vec<u8>) {
        let _ = self.serialize(buffer);
    }

    fn ssz_decode(bytes: &[u8]) -> (r: Result<Self, DeserializeError>) {
        proof {
            if bytes@.len() == 8 {
                lemma_u64_from_le_roundtrip(bytes@);
            }
            if exists|v: Self| v.spec_wf() && #[trigger] v.spec_encoding() == bytes@ {
                let v = choose|v: Self| v.spec_wf() && #[trigger] v.spec_encoding() == bytes@;
                lemma_u64_le_roundtrip(v.0);
            }
        }
        Self::deserialize(bytes)
    }

    fn ssz_root(&self) -> (r: Node) {
        match self.hash_tree_root() {
            Ok(n) => n,
            Err(_) => Node([0u8; 32]),
        }
    }
}

impl SszCodec for CustodyIndex {
    open spec fn spec_fixed_size() -> Option<nat> {
        Some(8)
    }

    open spec fn spec_packed() -> bool {
        true
    }

    open spec fn spec_wf(&self) -> bool {
        true
    }

    open spec fn spec_encoding(&self) -> Seq<u8> {
        self.spec_ssz()
    }

    open spec fn spec_tree_root(&self) -> Seq<u8> {
        self.spec_root()
    }

    proof fn lemma_layout() {
    }

    proof fn lemma_shape(x: &Self) {
        lemma_u64_le_roundtrip(x.0);
    }

    fn ssz_fixed_size() -> (r: Option<usize>) {
        Some(8)
    }

    fn ssz_packed() -> (r: bool) {
        true
    }

    fn ssz_encode(&self, buffer: &mut Vec<u8>) {
        let _ = self.serialize(buffer);
    }

    fn ssz_decode(bytes: &[u8]) -> (r: Result<Self, DeserializeError>) {
        proof {
            if bytes@.len() == 8 {
                lemma_u64_from_le_roundtrip(bytes@);
            }
            if exists|v: Self| v.spec_wf() && #[trigger] v.spec_encoding() == bytes@ {
                let v = choose|v: Self| v.spec_wf() && #[trigger] v.spec_encoding() == bytes@;
                lemma_u64_le_roundtrip(v.0);
            }
        }
        Self::deserialize(bytes)
    }

    fn ssz_root(&self) -> (r: Node) {
        match self.hash_tree_root() {
            Ok(n) => n,
            Err(_) => Node([0u8; 32]),
        }
    }
}

impl SszCodec for SubnetId {
    open spec fn spec_fixed_size() -> Option<nat> {
        Some(8)
    }

    open spec fn spec_packed() -> bool {
        true
    }

    open spec fn spec_wf(&self) -> bool {
        true
    }

    open spec fn spec_encoding(&self) -> Seq<u8> {
        self.spec_ssz()
    }

    open spec fn spec_tree_root(&self) -> Seq<u8> {
        self.spec_root()
    }

    proof fn lemma_layout() {
    }

    proof fn lemma_shape(x: &Self) {
        lemma_u64_le_roundtrip(x.0);
    }

    fn ssz_fixed_size() -> (r: Option<usize>) {
        Some(8)
    }

    fn ssz_packed() -> (r: bool) {
        true
    }

    fn ssz_encode(&self, buffer: &mut Vec<u8>) {
        let _ = self.serialize(buffer);
    }

    fn ssz_decode(bytes: &[u8]) -> (r: Result<Self, DeserializeError>) {
        proof {
            if bytes@.len() == 8 {
                lemma_u64_from_le_roundtrip(bytes@);
            }
            if exists|v: Self| v.spec_wf() && #[trigger] v.spec_encoding() == bytes@ {
                let v = choose|v: Self| v.spec_wf() && #[trigger] v.spec_encoding() == bytes@;
                lemma_u64_le_roundtrip(v.0);
            }
        }
        Self::deserialize(bytes)
    }

    fn ssz_root(&self) -> (r: Node) {
        match self.hash_tree_root() {
            Ok(n) => n,
            Err(_) => Node([0u8; 32]),
        }
    }
}

impl SszCodec for CellIndex {
    open spec fn spec_fixed_size() -> Option<nat> {
        Some(8)
    }

    open spec fn spec_packed() -> bool {
        true
    }

    open spec fn spec_wf(&self) -> bool {
        true
    }

    open spec fn spec_encoding(&self) -> Seq<u8> {
        self.spec_ssz()
    }

    open spec fn spec_tree_root(&self) -> Seq<u8> {
        self.spec_root()
    }

    proof fn lemma_layout() {
    }

    proof fn lemma_shape(x: &Self) {
        lemma_u64_le_roundtrip(x.0);
    }

    fn ssz_fixed_size() -> (r: Option<usize>) {
        Some(8)
    }

    fn ssz_packed() -> (r: bool) {
        true
    }

    fn ssz_encode(&self, buffer: &mut Vec<u8>) {
        let _ = self.serialize(buffer);
    }

    fn ssz_decode(bytes: &[u8]) -> (r: Result<Self, DeserializeError>) {
        proof {
            if bytes@.len() == 8 {
                lemma_u64_from_le_roundtrip(bytes@);
            }
            if exists|v: Self| v.spec_wf() && #[trigger] v.spec_encoding() == bytes@ {
                let v = choose|v: Self| v.spec_wf() && #[trigger] v.spec_encoding() == bytes@;
                lemma_u64_le_roundtrip(v.0);
            }
        }
        Self::deserialize(bytes)
    }

    fn ssz_root(&self) -> (r: Node) {
        match self.hash_tree_root() {
            Ok(n) => n,
            Err(_) => Node([0u8; 32]),
        }
    }
}

impl SszCodec for CommitmentIndex {
    open spec fn spec_fixed_size() -> Option<nat> {
        Some(8)
    }

    open spec fn spec_packed() -> bool {
        true
    }

    open spec fn spec_wf(&self) -> bool {
        true
    }

    open spec fn spec_encoding(&self) -> Seq<u8> {
        self.spec_ssz()
    }

    open spec fn spec_tree_root(&self) -> Seq<u8> {
        self.spec_root()
    }

    proof fn lemma_layout() {
    }

    proof fn lemma_shape(x: &Self) {
        lemma_u64_le_roundtrip(x.0);
    }

    fn ssz_fixed_size() -> (r: Option<usize>) {
        Some(8)
    }

    fn ssz_packed() -> (r: bool) {
        true
    }

    fn ssz_encode(&self, buffer: &mut Vec<u8>) {
        let _ = self.serialize(buffer);
    }

    fn ssz_decode(bytes: &[u8]) -> (r: Result<Self, DeserializeError>) {
        proof {
            if bytes@.len() == 8 {
                lemma_u64_from_le_roundtrip(bytes@);
            }
            if exists|v: Self| v.spec_wf() && #[trigger] v.spec_encoding() == bytes@ {
                let v = choose|v: Self| v.spec_wf() && #[trigger] v.spec_encoding() == bytes@;
                lemma_u64_le_roundtrip(v.0);
            }
        }
        Self::deserialize(bytes)
    }

    fn ssz_root(&self) -> (r: Node) {
        match self.hash_tree_root() {
            Ok(n) => n,
            Err(_) => Node([0u8; 32]),
        }
    }
}

impl SszCodec for WithdrawalIndex {
    open spec fn spec_fixed_size() -> Option<nat> {
        Some(8)
    }

    open spec fn spec_packed() -> bool {
        true
    }

    open spec fn spec_wf(&self) -> bool {
        true
    }

    open spec fn spec_encoding(&self) -> Seq<u8> {
        self.spec_ssz()
    }

    open spec fn spec_tree_root(&self) -> Seq<u8> {
        self.spec_root()
    }

    proof fn lemma_layout() {
    }

    proof fn lemma_shape(x: &Self) {
        lemma_u64_le_roundtrip(x.0);
    }

    fn ssz_fixed_size() -> (r: Option<usize>) {
        Some(8)
    }

    fn ssz_packed() -> (r: bool) {
        true
    }

    fn ssz_encode(&self, buffer: &mut Vec<u8>) {
        let _ = self.serialize(buffer);
    }

    fn ssz_decode(bytes: &[u8]) -> (r: Result<Self, DeserializeError>) {
        proof {
            if bytes@.len() == 8 {
                lemma_u64_from_le_roundtrip(bytes@);
            }
            if exists|v: Self| v.spec_wf() && #[trigger] v.spec_encoding() == bytes@ {
                let v = choose|v: Self| v.spec_wf() && #[trigger] v.spec_encoding() == bytes@;
                lemma_u64_le_roundtrip(v.0);
            }
        }
        Self::deserialize(bytes)
    }

    fn ssz_root(&self) -> (r: Node) {
        match self.hash_tree_root() {
            Ok(n) => n,
            Err(_) => Node([0u8; 32]),
        }
    }
}

impl SszCodec for Gwei {
    open spec fn spec_fixed_size() -> Option<nat> {
        Some(8)
    }

    open spec fn spec_packed() -> bool {
        true
    }

    open spec fn spec_wf(&self) -> bool {
        true
    }

    open spec fn spec_encoding(&self) -> Seq<u8> {
        self.spec_ssz()
    }

    open spec fn spec_tree_root(&self) -> Seq<u8> {
        self.spec_root()
    }

    proof fn lemma_layout() {
    }

    proof fn lemma_shape(x: &Self) {
        lemma_u64_le_roundtrip(x.0);
    }

    fn ssz_fixed_size() -> (r: Option<usize>) {
        Some(8)
    }

    fn ssz_packed() -> (r: bool) {
        true
    }

    fn ssz_encode(&self, buffer: &mut Vec<u8>) {
        let _ = self.serialize(buffer);
    }

    fn ssz_decode(bytes: &[u8]) -> (r: Result<Self, DeserializeError>) {
        proof {
            if bytes@.len() == 8 {
                lemma_u64_from_le_roundtrip(bytes@);
            }
            if exists|v: Self| v.spec_wf() && #[trigger] v.spec_encoding() == bytes@ {
                let v = choose|v: Self| v.spec_wf() && #[trigger] v.spec_encoding() == bytes@;
                lemma_u64_le_roundtrip(v.0);
            }
        }
        Self::deserialize(bytes)
    }

    fn ssz_root(&self) -> (r: Node) {
        match self.hash_tree_root() {
            Ok(n) => n,
            Err(_) => Node([0u8; 32]),
        }
    }
}

impl SszCodec for ParticipationFlags {
    open spec fn spec_fixed_size() -> Option<nat> {
        Some(1)
    }

    open spec fn spec_packed() -> bool {
        true
    }

    open spec fn spec_wf(&self) -> bool {
        true
    }

    open spec fn spec_encoding(&self) -> Seq<u8> {
        self.spec_ssz()
    }

    open spec fn spec_tree_root(&self) -> Seq<u8> {
        self.spec_root()
    }

    proof fn lemma_layout() {
    }

    proof fn lemma_shape(x: &Self) {
    }

    fn ssz_fixed_size() -> (r: Option<usize>) {
        Some(1)
    }

    fn ssz_packed() -> (r: bool) {
        true
    }

    fn ssz_encode(&self, buffer: &mut Vec<u8>) {
        let _ = self.serialize(buffer);
    }

    fn ssz_decode(bytes: &[u8]) -> (r: Result<Self, DeserializeError>) {
        proof {
            if bytes@.len() == 1 {
                assert(seq![bytes@[0]] =~= bytes@);
            }
        }
        Self::deserialize(bytes)
    }

    fn ssz_root(&self) -> (r: Node) {
        match self.hash_tree_root() {
            Ok(n) => n,
            Err(_) => Node([0u8; 32]),
        }
    }
}

impl SszCodec for Root {
    open spec fn spec_fixed_size() -> Option<nat> {
        Some(32)
    }

    open spec fn spec_packed() -> bool {
        false
    }

    open spec fn spec_wf(&self) -> bool {
        true
    }

    open spec fn spec_encoding(&self) -> Seq<u8> {
        self.spec_ssz()
    }

    open spec fn spec_tree_root(&self) -> Seq<u8> {
        self.spec_root()
    }

    proof fn lemma_layout() {
    }

    proof fn lemma_shape(x: &Self) {
    }

    fn ssz_fixed_size() -> (r: Option<usize>) {
        Some(32)
    }

    fn ssz_packed() -> (r: bool) {
        false
    }

    fn ssz_encode(&self, buffer: &mut Vec<u8>) {
        let _ = self.serialize(buffer);
    }

    fn ssz_decode(bytes: &[u8]) -> (r: Result<Self, DeserializeError>) {
        Self::deserialize(bytes)
    }

    fn ssz_root(&self) -> (r: Node) {
        match self.hash_tree_root() {
            Ok(n) => n,
            Err(_) => Node([0u8; 32]),
        }
    }
}

impl SszCodec for Hash32 {
    open spec fn spec_fixed_size() -> Option<nat> {
        Some(32)
    }

    open spec fn spec_packed() -> bool {
        false
    }

    open spec fn spec_wf(&self) -> bool {
        true
    }

    open spec fn spec_encoding(&self) -> Seq<u8> {
        self.spec_ssz()
    }

    open spec fn spec_tree_root(&self) -> Seq<u8> {
        self.spec_root()
    }

    proof fn lemma_layout() {
    }

    proof fn lemma_shape(x: &Self) {
    }

    fn ssz_fixed_size() -> (r: Option<usize>) {
        Some(32)
    }

    fn ssz_packed() -> (r: bool) {
        false
    }

    fn ssz_encode(&self, buffer: &mut Vec<u8>) {
        let _ = self.serialize(buffer);
    }

    fn ssz_decode(bytes: &[u8]) -> (r: Result<Self, DeserializeError>) {
        Self::deserialize(bytes)
    }

    fn ssz_root(&self) -> (r: Node) {
        match self.hash_tree_root() {
            Ok(n) => n,
            Err(_) => Node([0u8; 32]),
        }
    }
}

impl SszCodec for VersionedHash {
    open spec fn spec_fixed_size() -> Option<nat> {
        Some(32)
    }

    open spec fn spec_packed() -> bool {
        false
    }

    open spec fn spec_wf(&self) -> bool {
        true
    }

    open spec fn spec_encoding(&self) -> Seq<u8> {
        self.spec_ssz()
    }

    open spec fn spec_tree_root(&self) -> Seq<u8> {
        self.spec_root()
    }

    proof fn lemma_layout() {
    }

    proof fn lemma_shape(x: &Self) {
    }

    fn ssz_fixed_size() -> (r: Option<usize>) {
        Some(32)
    }

    fn ssz_packed() -> (r: bool) {
        false
    }

    fn ssz_encode(&self, buffer: &mut Vec<u8>) {
        let _ = self.serialize(buffer);
    }

    fn ssz_decode(bytes: &[u8]) -> (r: Result<Self, DeserializeError>) {
        Self::deserialize(bytes)
    }

    fn ssz_root(&self) -> (r: Node) {
        match self.hash_tree_root() {
            Ok(n) => n,
            Err(_) => Node([0u8; 32]),
        }
    }
}

impl SszCodec for ExecutionAddress {
    open spec fn spec_fixed_size() -> Option<nat> {
        Some(20)
    }

    open spec fn spec_packed() -> bool {
        false
    }

    open spec fn spec_wf(&self) -> bool {
        true
    }

    open spec fn spec_encoding(&self) -> Seq<u8> {
        self.spec_ssz()
    }

    open spec fn spec_tree_root(&self) -> Seq<u8> {
        self.spec_root()
    }

    proof fn lemma_layout() {
    }

    proof fn lemma_shape(x: &Self) {
    }

    fn ssz_fixed_size() -> (r: Option<usize>) {
        Some(20)
    }

    fn ssz_packed() -> (r: bool) {
        false
    }

    fn ssz_encode(&self, buffer: &mut Vec<u8>) {
        let _ = self.serialize(buffer);
    }

    fn ssz_decode(bytes: &[u8]) -> (r: Result<Self, DeserializeError>) {
        Self::deserialize(bytes)
    }

    fn ssz_root(&self) -> (r: Node) {
        match self.hash_tree_root() {
            Ok(n) => n,
            Err(_) => Node([0u8; 32]),
        }
    }
}

impl SszCodec for Version {
    open spec fn spec_fixed_size() -> Option<nat> {
        Some(4)
    }

    open spec fn spec_packed() -> bool {
        false
    }

    open spec fn spec_wf(&self) -> bool {
        true
    }

    open spec fn spec_encoding(&self) -> Seq<u8> {
        self.spec_ssz()
    }

    open spec fn spec_tree_root(&self) -> Seq<u8> {
        self.spec_root()
    }

    proof fn lemma_layout() {
    }

    proof fn lemma_shape(x: &Self) {
    }

    fn ssz_fixed_size() -> (r: Option<usize>) {
        Some(4)
    }

    fn ssz_packed() -> (r: bool) {
        false
    }

    fn ssz_encode(&self, buffer: &mut Vec<u8>) {
        let _ = self.serialize(buffer);
    }

    fn ssz_decode(bytes: &[u8]) -> (r: Result<Self, DeserializeError>) {
        Self::deserialize(bytes)
    }

    fn ssz_root(&self) -> (r: Node) {
        match self.hash_tree_root() {
            Ok(n) => n,
            Err(_) => Node([0u8; 32]),
        }
    }
}

impl SszCodec for ForkDigest {
    open spec fn spec_fixed_size() -> Option<nat> {
        Some(4)
    }

    open spec fn spec_packed() -> bool {
        false
    }

    open spec fn spec_wf(&self) -> bool {
        true
    }

    open spec fn spec_encoding(&self) -> Seq<u8> {
        self.spec_ssz()
    }

    open spec fn spec_tree_root(&self) -> Seq<u8> {
        self.spec_root()
    }

    proof fn lemma_layout() {
    }

    proof fn lemma_shape(x: &Self) {
    }

    fn ssz_fixed_size() -> (r: Option<usize>) {
        Some(4)
    }

    fn ssz_packed() -> (r: bool) {
        false
    }

    fn ssz_encode(&self, buffer: &mut Vec<u8>) {
        let _ = self.serialize(buffer);
    }

    fn ssz_decode(bytes: &[u8]) -> (r: Result<Self, DeserializeError>) {
        Self::deserialize(bytes)
    }

    fn ssz_root(&self) -> (r: Node) {
        match self.hash_tree_root() {
            Ok(n) => n,
            Err(_) => Node([0u8; 32]),
        }
    }
}

impl SszCodec for Domain {
    open spec fn spec_fixed_size() -> Option<nat> {
        Some(32)
    }

    open spec fn spec_packed() -> bool {
        false
    }

    open spec fn spec_wf(&self) -> bool {
        true
    }

    open spec fn spec_encoding(&self) -> Seq<u8> {
        self.spec_ssz()
    }

    open spec fn spec_tree_root(&self) -> Seq<u8> {
        self.spec_root()
    }

    proof fn lemma_layout() {
    }

    proof fn lemma_shape(x: &Self) {
    }

    fn ssz_fixed_size() -> (r: Option<usize>) {
        Some(32)
    }

    fn ssz_packed() -> (r: bool) {
        false
    }

    fn ssz_encode(&self, buffer: &mut Vec<u8>) {
        let _ = self.serialize(buffer);
    }

    fn ssz_decode(bytes: &[u8]) -> (r: Result<Self, DeserializeError>) {
        Self::deserialize(bytes)
    }

    fn ssz_root(&self) -> (r: Node) {
        match self.hash_tree_root() {
            Ok(n) => n,
            Err(_) => Node([0u8; 32]),
        }
    }
}

impl SszCodec for DomainType {
    open spec fn spec_fixed_size() -> Option<nat> {
        Some(4)
    }

    open spec fn spec_packed() -> bool {
        false
    }

    open spec fn spec_wf(&self) -> bool {
        true
    }

    open spec fn spec_encoding(&self) -> Seq<u8> {
        self.spec_ssz()
    }

    open spec fn spec_tree_root(&self) -> Seq<u8> {
        self.spec_root()
    }

    proof fn lemma_layout() {
    }

    proof fn lemma_shape(x: &Self) {
    }

    fn ssz_fixed_size() -> (r: Option<usize>) {
        Some(4)
    }

    fn ssz_packed() -> (r: bool) {
        false
    }

    fn ssz_encode(&self, buffer: &mut Vec<u8>) {
        let _ = self.serialize(buffer);
    }

    fn ssz_decode(bytes: &[u8]) -> (r: Result<Self, DeserializeError>) {
        Self::deserialize(bytes)
    }

    fn ssz_root(&self) -> (r: Node) {
        match self.hash_tree_root() {
            Ok(n) => n,
            Err(_) => Node([0u8; 32]),
        }
    }
}

impl SszCodec for BLSPubkey {
    open spec fn spec_fixed_size() -> Option<nat> {
        Some(48)
    }

    open spec fn spec_packed() -> bool {
        false
    }

    open spec fn spec_wf(&self) -> bool {
        true
    }

    open spec fn spec_encoding(&self) -> Seq<u8> {
        self.spec_ssz()
    }

    open spec fn spec_tree_root(&self) -> Seq<u8> {
        self.spec_root()
    }

    proof fn lemma_layout() {
    }

    proof fn lemma_shape(x: &Self) {
    }

    fn ssz_fixed_size() -> (r: Option<usize>) {
        Some(48)
    }

    fn ssz_packed() -> (r: bool) {
        false
    }

    fn ssz_encode(&self, buffer: &mut Vec<u8>) {
        let _ = self.serialize(buffer);
    }

    fn ssz_decode(bytes: &[u8]) -> (r: Result<Self, DeserializeError>) {
        Self::deserialize(bytes)
    }

    fn ssz_root(&self) -> (r: Node) {
        match self.hash_tree_root() {
            Ok(n) => n,
            Err(_) => Node([0u8; 32]),
        }
    }
}

impl SszCodec for BLSSignature {
    open spec fn spec_fixed_size() -> Option<nat> {
        Some(96)
    }

    open spec fn spec_packed() -> bool {
        false
    }

    open spec fn spec_wf(&self) -> bool {
        true
    }

    open spec fn spec_encoding(&self) -> Seq<u8> {
        self.spec_ssz()
    }

    open spec fn spec_tree_root(&self) -> Seq<u8> {
        self.spec_root()
    }

    proof fn lemma_layout() {
    }

    proof fn lemma_shape(x: &Self) {
    }

    fn ssz_fixed_size() -> (r: Option<usize>) {
        Some(96)
    }

    fn ssz_packed() -> (r: bool) {
        false
    }

    fn ssz_encode(&self, buffer: &mut Vec<u8>) {
        let _ = self.serialize(buffer);
    }

    fn ssz_decode(bytes: &[u8]) -> (r: Result<Self, DeserializeError>) {
        Self::deserialize(bytes)
    }

    fn ssz_root(&self) -> (r: Node) {
        match self.hash_tree_root() {
            Ok(n) => n,
            Err(_) => Node([0u8; 32]),
        }
    }
}

impl SszCodec for KZGCommitment {
    open spec fn spec_fixed_size() -> Option<nat> {
        Some(48)
    }

    open spec fn spec_packed() -> bool {
        false
    }

    open spec fn spec_wf(&self) -> bool {
        true
    }

    open spec fn spec_encoding(&self) -> Seq<u8> {
        self.spec_ssz()
    }

    open spec fn spec_tree_root(&self) -> Seq<u8> {
        self.spec_root()
    }

    proof fn lemma_layout() {
    }

    proof fn lemma_shape(x: &Self) {
    }

    fn ssz_fixed_size() -> (r: Option<usize>) {
        Some(48)
    }

    fn ssz_packed() -> (r: bool) {
        false
    }

    fn ssz_encode(&self, buffer: &mut Vec<u8>) {
        let _ = self.serialize(buffer);
    }

    fn ssz_decode(bytes: &[u8]) -> (r: Result<Self, DeserializeError>) {
        Self::deserialize(bytes)
    }

    fn ssz_root(&self) -> (r: Node) {
        match self.hash_tree_root() {
            Ok(n) => n,
            Err(_) => Node([0u8; 32]),
        }
    }
}

impl SszCodec for KZGProof {
    open spec fn spec_fixed_size() -> Option<nat> {
        Some(48)
    }

    open spec fn spec_packed() -> bool {
        false
    }

    open spec fn spec_wf(&self) -> bool {
        true
    }

    open spec fn spec_encoding(&self) -> Seq<u8> {
        self.spec_ssz()
    }

    open spec fn spec_tree_root(&self) -> Seq<u8> {
        self.spec_root()
    }

    proof fn lemma_layout() {
    }

    proof fn lemma_shape(x: &Self) {
    }

    fn ssz_fixed_size() -> (r: Option<usize>) {
        Some(48)
    }

    fn ssz_packed() -> (r: bool) {
        false
    }

    fn ssz_encode(&self, buffer: &mut Vec<u8>) {
        let _ = self.serialize(buffer);
    }

    fn ssz_decode(bytes: &[u8]) -> (r: Result<Self, DeserializeError>) {
        Self::deserialize(bytes)
    }

    fn ssz_root(&self) -> (r: Node) {
        match self.hash_tree_root() {
            Ok(n) => n,
            Err(_) => Node([0u8; 32]),
        }
    }
}

impl SszCodec for Cell {
    open spec fn spec_fixed_size() -> Option<nat> {
        Some(2048)
    }

    open spec fn spec_packed() -> bool {
        false
    }

    open spec fn spec_wf(&self) -> bool {
        true
    }

    open spec fn spec_encoding(&self) -> Seq<u8> {
        self.spec_ssz()
    }

    open spec fn spec_tree_root(&self) -> Seq<u8> {
        self.spec_root()
    }

    proof fn lemma_layout() {
    }

    proof fn lemma_shape(x: &Self) {
    }

    fn ssz_fixed_size() -> (r: Option<usize>) {
        Some(2048)
    }

    fn ssz_packed() -> (r: bool) {
        false
    }

    fn ssz_encode(&self, buffer: &mut Vec<u8>) {
        let _ = self.serialize(buffer);
    }

    fn ssz_decode(bytes: &[u8]) -> (r: Result<Self, DeserializeError>) {
        Self::deserialize(bytes)
    }

    fn ssz_root(&self) -> (r: Node) {
        match self.hash_tree_root() {
            Ok(n) => n,
            Err(_) => Node([0u8; 32]),
        }
    }
}

impl SszCodec for Uint256 {
    open spec fn spec_fixed_size() -> Option<nat> {
        Some(32)
    }

    open spec fn spec_packed() -> bool {
        false
    }

    open spec fn spec_wf(&self) -> bool {
        true
    }

    open spec fn spec_encoding(&self) -> Seq<u8> {
        self.spec_ssz()
    }

    open spec fn spec_tree_root(&self) -> Seq<u8> {
        self.spec_root()
    }

    proof fn lemma_layout() {
    }

    proof fn lemma_shape(x: &Self) {
    }

    fn ssz_fixed_size() -> (r: Option<usize>) {
        Some(32)
    }

    fn ssz_packed() -> (r: bool) {
        false
    }

    fn ssz_encode(&self, buffer: &mut Vec<u8>) {
        let _ = self.serialize(buffer);
    }

    fn ssz_decode(bytes: &[u8]) -> (r: Result<Self, DeserializeError>) {
        Self::deserialize(bytes)
    }

    fn ssz_root(&self) -> (r: Node) {
        match self.hash_tree_root() {
            Ok(n) => n,
            Err(_) => Node([0u8; 32]),
        }
    }
}

} // verus!
