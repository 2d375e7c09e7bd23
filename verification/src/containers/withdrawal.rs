//! Withdrawals, exits, deposits, credential changes and execution requests.
use vstd::prelude::*;
use vstd::slice::slice_subrange;

use crate::ssz::basic::{
    bool_byte, bytes_is_variable_size, bytes_size_hint, deserialize_bool, deserialize_bytes,
    deserialize_u64, deserialize_u8, hash_tree_root_bool, hash_tree_root_bytes,
    hash_tree_root_u64, hash_tree_root_u8, lemma_u64_from_le_roundtrip, lemma_u64_le_injective,
    serialize_bool, serialize_bytes, serialize_u64, serialize_u8, spec_bool_root,
    spec_u64_le, spec_u64_root, spec_u8_root, u64_is_variable_size, u64_size_hint,
    u8_is_variable_size, u8_size_hint,
};
use crate::ssz::error::{length_error, wrong_length};
use crate::ssz::merkle::{merkleize_roots, roots_view, spec_merkleize, spec_merkleize_bytes};
use crate::ssz::{DeserializeError, MerkleizationError, Node, SerializeError};
use crate::constants::{
    DEPOSIT_PROOF_LEN, MAX_BUILDER_DEPOSIT_REQUESTS_PER_PAYLOAD,
    MAX_BUILDER_EXIT_REQUESTS_PER_PAYLOAD, MAX_CONSOLIDATION_REQUESTS_PER_PAYLOAD,
    MAX_DEPOSIT_REQUESTS_PER_PAYLOAD, MAX_WITHDRAWAL_REQUESTS_PER_PAYLOAD,
};
use crate::primitives::{
    BLSPubkey, BLSSignature, Epoch, ExecutionAddress, Gwei, ValidatorIndex, WithdrawalIndex,
};
use crate::ssz::{List, Vector};

verus! {

/// A withdrawal applied at the execution layer.
#[derive(Default, Debug, Clone, Copy, PartialEq, Eq)]
pub struct Withdrawal {
    /// Monotonic index uniquely identifying this withdrawal across history.
    pub index: WithdrawalIndex,
    /// Validator whose balance is being withdrawn.
    pub validator_index: ValidatorIndex,
    /// Execution-layer destination address.
    pub address: ExecutionAddress,
    /// Withdrawn amount.
    pub amount: Gwei,
}

impl Withdrawal {
    /// The SSZ encoding: the fields' encodings in order.
    pub open spec fn spec_ssz(self) -> Seq<u8> {
        self.index.spec_ssz()
            + self.validator_index.spec_ssz()
            + self.address.spec_ssz()
            + self.amount.spec_ssz()
    }

    /// The hash-tree-roots of the fields in order.
    pub open spec fn spec_field_roots(self) -> Seq<Seq<u8>> {
        seq![
            self.index.spec_root(),
            self.validator_index.spec_root(),
            self.address.spec_root(),
            self.amount.spec_root(),
        ]
    }

    /// The hash-tree-root: the merkle root of the field roots.
    pub open spec fn spec_root(self) -> Seq<u8> {
        spec_merkleize(self.spec_field_roots())
    }

    /// Whether `bytes` is the encoding of some value.
    pub open spec fn spec_valid_ssz(bytes: Seq<u8>) -> bool {
        bytes.len() == 44
    }

    /// A container is variable-size when any field is.
    pub fn is_variable_size() -> (r: bool)
        ensures
            !r,
    {
        WithdrawalIndex::is_variable_size()
            || ValidatorIndex::is_variable_size()
            || ExecutionAddress::is_variable_size()
            || Gwei::is_variable_size()
    }

    /// The encoded size: the sum of the field sizes.
    pub fn size_hint() -> (r: usize)
        ensures
            r == 44,
    {
        WithdrawalIndex::size_hint()
            + ValidatorIndex::size_hint()
            + ExecutionAddress::size_hint()
            + Gwei::size_hint()
    }

    /// Append the encoding of every field in order.
    pub fn serialize(&self, buffer: &mut Vec<u8>) -> (r: Result<usize, SerializeError>)
        ensures
            r == Ok::<usize, SerializeError>(44),
            final(buffer)@ == old(buffer)@ + self.spec_ssz(),
    {
        let _ = self.index.serialize(buffer);
        let _ = self.validator_index.serialize(buffer);
        let _ = self.address.serialize(buffer);
        let _ = self.amount.serialize(buffer);
        assert(buffer@ =~= old(buffer)@ + self.spec_ssz());
        Ok(44)
    }

    /// Decode every field from its fixed position in exactly 44 bytes.
    pub fn deserialize(encoding: &[u8]) -> (r: Result<Self, DeserializeError>)
        ensures
            r is Ok <==> Self::spec_valid_ssz(encoding@),
            r matches Ok(v) ==> v.spec_ssz() == encoding@,
            r matches Err(e) ==> e == length_error(encoding@.len() as usize, 44),
    {
        if encoding.len() != 44 {
            return Err(wrong_length(encoding.len(), 44));
        }
        let index = WithdrawalIndex::deserialize(slice_subrange(encoding, 0, 8))?;
        let validator_index = ValidatorIndex::deserialize(slice_subrange(encoding, 8, 16))?;
        let address = ExecutionAddress::deserialize(slice_subrange(encoding, 16, 36))?;
        let amount = Gwei::deserialize(slice_subrange(encoding, 36, 44))?;
        let v = Withdrawal { index, validator_index, address, amount };
        proof {
            lemma_u64_from_le_roundtrip(encoding@.subrange(0, 8));
            lemma_u64_from_le_roundtrip(encoding@.subrange(8, 16));
            lemma_u64_from_le_roundtrip(encoding@.subrange(36, 44));
            assert(v.spec_ssz() =~= encoding@);
        }
        Ok(v)
    }

    /// The merkle root of the field roots.
    pub fn hash_tree_root(&self) -> (r: Result<Node, MerkleizationError>)
        ensures
            r matches Ok(n) && n.0@ == self.spec_root(),
    {
        let r0 = self.index.hash_tree_root()?;
        let r1 = self.validator_index.hash_tree_root()?;
        let r2 = self.address.hash_tree_root()?;
        let r3 = self.amount.hash_tree_root()?;
        let roots = [r0, r1, r2, r3];
        assert(roots_view(roots@) =~= self.spec_field_roots());
        Ok(merkleize_roots(roots.as_slice()))
    }

    /// A container is a composite type.
    pub fn is_composite_type() -> (r: bool)
        ensures
            r,
    {
        true
    }
}

/// The encoding of a `Withdrawal` is 44 bytes long.
pub proof fn lemma_withdrawal_ssz_len(x: Withdrawal)
    ensures
        x.spec_ssz().len() == 44,
{

}

/// Distinct `Withdrawal` values have distinct encodings.
pub proof fn lemma_withdrawal_ssz_injective(a: Withdrawal, b: Withdrawal)
    requires
        a.spec_ssz() == b.spec_ssz(),
    ensures
        a == b,
{
    lemma_withdrawal_ssz_len(a);
    assert(a.spec_ssz().subrange(0, 8) =~= a.index.spec_ssz());
    assert(b.spec_ssz().subrange(0, 8) =~= b.index.spec_ssz());
    lemma_u64_le_injective(a.index.0, b.index.0);
    assert(a.spec_ssz().subrange(8, 16) =~= a.validator_index.spec_ssz());
    assert(b.spec_ssz().subrange(8, 16) =~= b.validator_index.spec_ssz());
    lemma_u64_le_injective(a.validator_index.0, b.validator_index.0);
    assert(a.spec_ssz().subrange(16, 36) =~= a.address.spec_ssz());
    assert(b.spec_ssz().subrange(16, 36) =~= b.address.spec_ssz());
    assert(a.address.0 =~= b.address.0);
    assert(a.spec_ssz().subrange(36, 44) =~= a.amount.spec_ssz());
    assert(b.spec_ssz().subrange(36, 44) =~= b.amount.spec_ssz());
    lemma_u64_le_injective(a.amount.0, b.amount.0);
}

/// Encoding then decoding a `Withdrawal` gives it back: its encoding is accepted
/// by the decoder, and no other value has the same encoding.
pub proof fn lemma_withdrawal_ssz_roundtrip(x: Withdrawal)
    ensures
        Withdrawal::spec_valid_ssz(x.spec_ssz()),
        forall|y: Withdrawal| #[trigger] y.spec_ssz() == x.spec_ssz() ==> y == x,
{
    lemma_withdrawal_ssz_len(x);

    assert forall|y: Withdrawal| #[trigger] y.spec_ssz() == x.spec_ssz() implies y == x by {
        lemma_withdrawal_ssz_injective(y, x);
    }
}

/// A request to swap BLS withdrawal credentials for an execution address.
#[derive(Default, Debug, Clone, Copy, PartialEq, Eq)]
pub struct BLSToExecutionChange {
    /// Validator initiating the credential change.
    pub validator_index: ValidatorIndex,
    /// BLS key authorising the change.
    pub from_bls_pubkey: BLSPubkey,
    /// New execution address for future withdrawals.
    pub to_execution_address: ExecutionAddress,
}

impl BLSToExecutionChange {
    /// The SSZ encoding: the fields' encodings in order.
    pub open spec fn spec_ssz(self) -> Seq<u8> {
        self.validator_index.spec_ssz()
            + self.from_bls_pubkey.spec_ssz()
            + self.to_execution_address.spec_ssz()
    }

    /// The hash-tree-roots of the fields in order.
    pub open spec fn spec_field_roots(self) -> Seq<Seq<u8>> {
        seq![
            self.validator_index.spec_root(),
            self.from_bls_pubkey.spec_root(),
            self.to_execution_address.spec_root(),
        ]
    }

    /// The hash-tree-root: the merkle root of the field roots.
    pub open spec fn spec_root(self) -> Seq<u8> {
        spec_merkleize(self.spec_field_roots())
    }

    /// Whether `bytes` is the encoding of some value.
    pub open spec fn spec_valid_ssz(bytes: Seq<u8>) -> bool {
        bytes.len() == 76
    }

    /// A container is variable-size when any field is.
    pub fn is_variable_size() -> (r: bool)
        ensures
            !r,
    {
        ValidatorIndex::is_variable_size()
            || BLSPubkey::is_variable_size()
            || ExecutionAddress::is_variable_size()
    }

    /// The encoded size: the sum of the field sizes.
    pub fn size_hint() -> (r: usize)
        ensures
            r == 76,
    {
        ValidatorIndex::size_hint()
            + BLSPubkey::size_hint()
            + ExecutionAddress::size_hint()
    }

    /// Append the encoding of every field in order.
    pub fn serialize(&self, buffer: &mut Vec<u8>) -> (r: Result<usize, SerializeError>)
        ensures
            r == Ok::<usize, SerializeError>(76),
            final(buffer)@ == old(buffer)@ + self.spec_ssz(),
    {
        let _ = self.validator_index.serialize(buffer);
        let _ = self.from_bls_pubkey.serialize(buffer);
        let _ = self.to_execution_address.serialize(buffer);
        assert(buffer@ =~= old(buffer)@ + self.spec_ssz());
        Ok(76)
    }

    /// Decode every field from its fixed position in exactly 76 bytes.
    pub fn deserialize(encoding: &[u8]) -> (r: Result<Self, DeserializeError>)
        ensures
            r is Ok <==> Self::spec_valid_ssz(encoding@),
            r matches Ok(v) ==> v.spec_ssz() == encoding@,
            r matches Err(e) ==> e == length_error(encoding@.len() as usize, 76),
    {
        if encoding.len() != 76 {
            return Err(wrong_length(encoding.len(), 76));
        }
        let validator_index = ValidatorIndex::deserialize(slice_subrange(encoding, 0, 8))?;
        let from_bls_pubkey = BLSPubkey::deserialize(slice_subrange(encoding, 8, 56))?;
        let to_execution_address = ExecutionAddress::deserialize(slice_subrange(encoding, 56, 76))?;
        let v = BLSToExecutionChange { validator_index, from_bls_pubkey, to_execution_address };
        proof {
            lemma_u64_from_le_roundtrip(encoding@.subrange(0, 8));
            assert(v.spec_ssz() =~= encoding@);
        }
        Ok(v)
    }

    /// The merkle root of the field roots.
    pub fn hash_tree_root(&self) -> (r: Result<Node, MerkleizationError>)
        ensures
            r matches Ok(n) && n.0@ == self.spec_root(),
    {
        let r0 = self.validator_index.hash_tree_root()?;
        let r1 = self.from_bls_pubkey.hash_tree_root()?;
        let r2 = self.to_execution_address.hash_tree_root()?;
        let roots = [r0, r1, r2];
        assert(roots_view(roots@) =~= self.spec_field_roots());
        Ok(merkleize_roots(roots.as_slice()))
    }

    /// A container is a composite type.
    pub fn is_composite_type() -> (r: bool)
        ensures
            r,
    {
        true
    }
}

/// The encoding of a `BLSToExecutionChange` is 76 bytes long.
pub proof fn lemma_bls_to_execution_change_ssz_len(x: BLSToExecutionChange)
    ensures
        x.spec_ssz().len() == 76,
{

}

/// Distinct `BLSToExecutionChange` values have distinct encodings.
pub proof fn lemma_bls_to_execution_change_ssz_injective(a: BLSToExecutionChange, b: BLSToExecutionChange)
    requires
        a.spec_ssz() == b.spec_ssz(),
    ensures
        a == b,
{
    lemma_bls_to_execution_change_ssz_len(a);
    assert(a.spec_ssz().subrange(0, 8) =~= a.validator_index.spec_ssz());
    assert(b.spec_ssz().subrange(0, 8) =~= b.validator_index.spec_ssz());
    lemma_u64_le_injective(a.validator_index.0, b.validator_index.0);
    assert(a.spec_ssz().subrange(8, 56) =~= a.from_bls_pubkey.spec_ssz());
    assert(b.spec_ssz().subrange(8, 56) =~= b.from_bls_pubkey.spec_ssz());
    assert(a.from_bls_pubkey.0 =~= b.from_bls_pubkey.0);
    assert(a.spec_ssz().subrange(56, 76) =~= a.to_execution_address.spec_ssz());
    assert(b.spec_ssz().subrange(56, 76) =~= b.to_execution_address.spec_ssz());
    assert(a.to_execution_address.0 =~= b.to_execution_address.0);
}

/// Encoding then decoding a `BLSToExecutionChange` gives it back: its encoding is accepted
/// by the decoder, and no other value has the same encoding.
pub proof fn lemma_bls_to_execution_change_ssz_roundtrip(x: BLSToExecutionChange)
    ensures
        BLSToExecutionChange::spec_valid_ssz(x.spec_ssz()),
        forall|y: BLSToExecutionChange| #[trigger] y.spec_ssz() == x.spec_ssz() ==> y == x,
{
    lemma_bls_to_execution_change_ssz_len(x);

    assert forall|y: BLSToExecutionChange| #[trigger] y.spec_ssz() == x.spec_ssz() implies y == x by {
        lemma_bls_to_execution_change_ssz_injective(y, x);
    }
}

/// A signed credential change.
#[derive(Default, Debug, Clone, Copy, PartialEq, Eq)]
pub struct SignedBLSToExecutionChange {
    /// The credential-change being signed.
    pub message: BLSToExecutionChange,
    /// Signature over the domain-separated signing root of `message`.
    pub signature: BLSSignature,
}

impl SignedBLSToExecutionChange {
    /// The SSZ encoding: the fields' encodings in order.
    pub open spec fn spec_ssz(self) -> Seq<u8> {
        self.message.spec_ssz()
            + self.signature.spec_ssz()
    }

    /// The hash-tree-roots of the fields in order.
    pub open spec fn spec_field_roots(self) -> Seq<Seq<u8>> {
        seq![
            self.message.spec_root(),
            self.signature.spec_root(),
        ]
    }

    /// The hash-tree-root: the merkle root of the field roots.
    pub open spec fn spec_root(self) -> Seq<u8> {
        spec_merkleize(self.spec_field_roots())
    }

    /// Whether `bytes` is the encoding of some value.
    pub open spec fn spec_valid_ssz(bytes: Seq<u8>) -> bool {
        bytes.len() == 172
    }

    /// A container is variable-size when any field is.
    pub fn is_variable_size() -> (r: bool)
        ensures
            !r,
    {
        BLSToExecutionChange::is_variable_size()
            || BLSSignature::is_variable_size()
    }

    /// The encoded size: the sum of the field sizes.
    pub fn size_hint() -> (r: usize)
        ensures
            r == 172,
    {
        BLSToExecutionChange::size_hint()
            + BLSSignature::size_hint()
    }

    /// Append the encoding of every field in order.
    pub fn serialize(&self, buffer: &mut Vec<u8>) -> (r: Result<usize, SerializeError>)
        ensures
            r == Ok::<usize, SerializeError>(172),
            final(buffer)@ == old(buffer)@ + self.spec_ssz(),
    {
        let _ = self.message.serialize(buffer);
        let _ = self.signature.serialize(buffer);
        assert(buffer@ =~= old(buffer)@ + self.spec_ssz());
        Ok(172)
    }

    /// Decode every field from its fixed position in exactly 172 bytes.
    pub fn deserialize(encoding: &[u8]) -> (r: Result<Self, DeserializeError>)
        ensures
            r is Ok <==> Self::spec_valid_ssz(encoding@),
            r matches Ok(v) ==> v.spec_ssz() == encoding@,
            r matches Err(e) ==> e == length_error(encoding@.len() as usize, 172),
    {
        if encoding.len() != 172 {
            return Err(wrong_length(encoding.len(), 172));
        }
        let message = BLSToExecutionChange::deserialize(slice_subrange(encoding, 0, 76))?;
        let signature = BLSSignature::deserialize(slice_subrange(encoding, 76, 172))?;
        let v = SignedBLSToExecutionChange { message, signature };
        proof {
            lemma_bls_to_execution_change_ssz_len(message);
            assert(v.spec_ssz() =~= encoding@);
        }
        Ok(v)
    }

    /// The merkle root of the field roots.
    pub fn hash_tree_root(&self) -> (r: Result<Node, MerkleizationError>)
        ensures
            r matches Ok(n) && n.0@ == self.spec_root(),
    {
        let r0 = self.message.hash_tree_root()?;
        let r1 = self.signature.hash_tree_root()?;
        let roots = [r0, r1];
        assert(roots_view(roots@) =~= self.spec_field_roots());
        Ok(merkleize_roots(roots.as_slice()))
    }

    /// A container is a composite type.
    pub fn is_composite_type() -> (r: bool)
        ensures
            r,
    {
        true
    }
}

/// The encoding of a `SignedBLSToExecutionChange` is 172 bytes long.
pub proof fn lemma_signed_bls_to_execution_change_ssz_len(x: SignedBLSToExecutionChange)
    ensures
        x.spec_ssz().len() == 172,
{
    lemma_bls_to_execution_change_ssz_len(x.message);
}

/// Distinct `SignedBLSToExecutionChange` values have distinct encodings.
pub proof fn lemma_signed_bls_to_execution_change_ssz_injective(a: SignedBLSToExecutionChange, b: SignedBLSToExecutionChange)
    requires
        a.spec_ssz() == b.spec_ssz(),
    ensures
        a == b,
{
    lemma_signed_bls_to_execution_change_ssz_len(a);
    lemma_bls_to_execution_change_ssz_len(a.message);
    lemma_bls_to_execution_change_ssz_len(b.message);
    assert(a.spec_ssz().subrange(0, 76) =~= a.message.spec_ssz());
    assert(b.spec_ssz().subrange(0, 76) =~= b.message.spec_ssz());
    lemma_bls_to_execution_change_ssz_injective(a.message, b.message);
    assert(a.spec_ssz().subrange(76, 172) =~= a.signature.spec_ssz());
    assert(b.spec_ssz().subrange(76, 172) =~= b.signature.spec_ssz());
    assert(a.signature.0 =~= b.signature.0);
}

/// Encoding then decoding a `SignedBLSToExecutionChange` gives it back: its encoding is accepted
/// by the decoder, and no other value has the same encoding.
pub proof fn lemma_signed_bls_to_execution_change_ssz_roundtrip(x: SignedBLSToExecutionChange)
    ensures
        SignedBLSToExecutionChange::spec_valid_ssz(x.spec_ssz()),
        forall|y: SignedBLSToExecutionChange| #[trigger] y.spec_ssz() == x.spec_ssz() ==> y == x,
{
    lemma_signed_bls_to_execution_change_ssz_len(x);

    assert forall|y: SignedBLSToExecutionChange| #[trigger] y.spec_ssz() == x.spec_ssz() implies y == x by {
        lemma_signed_bls_to_execution_change_ssz_injective(y, x);
    }
}

/// A validator's request to leave the active set.
#[derive(Default, Debug, Clone, Copy, PartialEq, Eq)]
pub struct VoluntaryExit {
    /// Epoch the exit is being signed at. The exit cannot take effect earlier.
    pub epoch: Epoch,
    /// Validator requesting to exit.
    pub validator_index: ValidatorIndex,
}

impl VoluntaryExit {
    /// The SSZ encoding: the fields' encodings in order.
    pub open spec fn spec_ssz(self) -> Seq<u8> {
        self.epoch.spec_ssz()
            + self.validator_index.spec_ssz()
    }

    /// The hash-tree-roots of the fields in order.
    pub open spec fn spec_field_roots(self) -> Seq<Seq<u8>> {
        seq![
            self.epoch.spec_root(),
            self.validator_index.spec_root(),
        ]
    }

    /// The hash-tree-root: the merkle root of the field roots.
    pub open spec fn spec_root(self) -> Seq<u8> {
        spec_merkleize(self.spec_field_roots())
    }

    /// Whether `bytes` is the encoding of some value.
    pub open spec fn spec_valid_ssz(bytes: Seq<u8>) -> bool {
        bytes.len() == 16
    }

    /// A container is variable-size when any field is.
    pub fn is_variable_size() -> (r: bool)
        ensures
            !r,
    {
        Epoch::is_variable_size()
            || ValidatorIndex::is_variable_size()
    }

    /// The encoded size: the sum of the field sizes.
    pub fn size_hint() -> (r: usize)
        ensures
            r == 16,
    {
        Epoch::size_hint()
            + ValidatorIndex::size_hint()
    }

    /// Append the encoding of every field in order.
    pub fn serialize(&self, buffer: &mut Vec<u8>) -> (r: Result<usize, SerializeError>)
        ensures
            r == Ok::<usize, SerializeError>(16),
            final(buffer)@ == old(buffer)@ + self.spec_ssz(),
    {
        let _ = self.epoch.serialize(buffer);
        let _ = self.validator_index.serialize(buffer);
        assert(buffer@ =~= old(buffer)@ + self.spec_ssz());
        Ok(16)
    }

    /// Decode every field from its fixed position in exactly 16 bytes.
    pub fn deserialize(encoding: &[u8]) -> (r: Result<Self, DeserializeError>)
        ensures
            r is Ok <==> Self::spec_valid_ssz(encoding@),
            r matches Ok(v) ==> v.spec_ssz() == encoding@,
            r matches Err(e) ==> e == length_error(encoding@.len() as usize, 16),
    {
        if encoding.len() != 16 {
            return Err(wrong_length(encoding.len(), 16));
        }
        let epoch = Epoch::deserialize(slice_subrange(encoding, 0, 8))?;
        let validator_index = ValidatorIndex::deserialize(slice_subrange(encoding, 8, 16))?;
        let v = VoluntaryExit { epoch, validator_index };
        proof {
            lemma_u64_from_le_roundtrip(encoding@.subrange(0, 8));
            lemma_u64_from_le_roundtrip(encoding@.subrange(8, 16));
            assert(v.spec_ssz() =~= encoding@);
        }
        Ok(v)
    }

    /// The merkle root of the field roots.
    pub fn hash_tree_root(&self) -> (r: Result<Node, MerkleizationError>)
        ensures
            r matches Ok(n) && n.0@ == self.spec_root(),
    {
        let r0 = self.epoch.hash_tree_root()?;
        let r1 = self.validator_index.hash_tree_root()?;
        let roots = [r0, r1];
        assert(roots_view(roots@) =~= self.spec_field_roots());
        Ok(merkleize_roots(roots.as_slice()))
    }

    /// A container is a composite type.
    pub fn is_composite_type() -> (r: bool)
        ensures
            r,
    {
        true
    }
}

/// The encoding of a `VoluntaryExit` is 16 bytes long.
pub proof fn lemma_voluntary_exit_ssz_len(x: VoluntaryExit)
    ensures
        x.spec_ssz().len() == 16,
{

}

/// Distinct `VoluntaryExit` values have distinct encodings.
pub proof fn lemma_voluntary_exit_ssz_injective(a: VoluntaryExit, b: VoluntaryExit)
    requires
        a.spec_ssz() == b.spec_ssz(),
    ensures
        a == b,
{
    lemma_voluntary_exit_ssz_len(a);
    assert(a.spec_ssz().subrange(0, 8) =~= a.epoch.spec_ssz());
    assert(b.spec_ssz().subrange(0, 8) =~= b.epoch.spec_ssz());
    lemma_u64_le_injective(a.epoch.0, b.epoch.0);
    assert(a.spec_ssz().subrange(8, 16) =~= a.validator_index.spec_ssz());
    assert(b.spec_ssz().subrange(8, 16) =~= b.validator_index.spec_ssz());
    lemma_u64_le_injective(a.validator_index.0, b.validator_index.0);
}

/// Encoding then decoding a `VoluntaryExit` gives it back: its encoding is accepted
/// by the decoder, and no other value has the same encoding.
pub proof fn lemma_voluntary_exit_ssz_roundtrip(x: VoluntaryExit)
    ensures
        VoluntaryExit::spec_valid_ssz(x.spec_ssz()),
        forall|y: VoluntaryExit| #[trigger] y.spec_ssz() == x.spec_ssz() ==> y == x,
{
    lemma_voluntary_exit_ssz_len(x);

    assert forall|y: VoluntaryExit| #[trigger] y.spec_ssz() == x.spec_ssz() implies y == x by {
        lemma_voluntary_exit_ssz_injective(y, x);
    }
}

/// A signed voluntary exit.
#[derive(Default, Debug, Clone, Copy, PartialEq, Eq)]
pub struct SignedVoluntaryExit {
    /// The voluntary exit being signed.
    pub message: VoluntaryExit,
    /// Signature over the domain-separated signing root of `message`.
    pub signature: BLSSignature,
}

impl SignedVoluntaryExit {
    /// The SSZ encoding: the fields' encodings in order.
    pub open spec fn spec_ssz(self) -> Seq<u8> {
        self.message.spec_ssz()
            + self.signature.spec_ssz()
    }

    /// The hash-tree-roots of the fields in order.
    pub open spec fn spec_field_roots(self) -> Seq<Seq<u8>> {
        seq![
            self.message.spec_root(),
            self.signature.spec_root(),
        ]
    }

    /// The hash-tree-root: the merkle root of the field roots.
    pub open spec fn spec_root(self) -> Seq<u8> {
        spec_merkleize(self.spec_field_roots())
    }

    /// Whether `bytes` is the encoding of some value.
    pub open spec fn spec_valid_ssz(bytes: Seq<u8>) -> bool {
        bytes.len() == 112
    }

    /// A container is variable-size when any field is.
    pub fn is_variable_size() -> (r: bool)
        ensures
            !r,
    {
        VoluntaryExit::is_variable_size()
            || BLSSignature::is_variable_size()
    }

    /// The encoded size: the sum of the field sizes.
    pub fn size_hint() -> (r: usize)
        ensures
            r == 112,
    {
        VoluntaryExit::size_hint()
            + BLSSignature::size_hint()
    }

    /// Append the encoding of every field in order.
    pub fn serialize(&self, buffer: &mut Vec<u8>) -> (r: Result<usize, SerializeError>)
        ensures
            r == Ok::<usize, SerializeError>(112),
            final(buffer)@ == old(buffer)@ + self.spec_ssz(),
    {
        let _ = self.message.serialize(buffer);
        let _ = self.signature.serialize(buffer);
        assert(buffer@ =~= old(buffer)@ + self.spec_ssz());
        Ok(112)
    }

    /// Decode every field from its fixed position in exactly 112 bytes.
    pub fn deserialize(encoding: &[u8]) -> (r: Result<Self, DeserializeError>)
        ensures
            r is Ok <==> Self::spec_valid_ssz(encoding@),
            r matches Ok(v) ==> v.spec_ssz() == encoding@,
            r matches Err(e) ==> e == length_error(encoding@.len() as usize, 112),
    {
        if encoding.len() != 112 {
            return Err(wrong_length(encoding.len(), 112));
        }
        let message = VoluntaryExit::deserialize(slice_subrange(encoding, 0, 16))?;
        let signature = BLSSignature::deserialize(slice_subrange(encoding, 16, 112))?;
        let v = SignedVoluntaryExit { message, signature };
        proof {
            lemma_voluntary_exit_ssz_len(message);
            assert(v.spec_ssz() =~= encoding@);
        }
        Ok(v)
    }

    /// The merkle root of the field roots.
    pub fn hash_tree_root(&self) -> (r: Result<Node, MerkleizationError>)
        ensures
            r matches Ok(n) && n.0@ == self.spec_root(),
    {
        let r0 = self.message.hash_tree_root()?;
        let r1 = self.signature.hash_tree_root()?;
        let roots = [r0, r1];
        assert(roots_view(roots@) =~= self.spec_field_roots());
        Ok(merkleize_roots(roots.as_slice()))
    }

    /// A container is a composite type.
    pub fn is_composite_type() -> (r: bool)
        ensures
            r,
    {
        true
    }
}

/// The encoding of a `SignedVoluntaryExit` is 112 bytes long.
pub proof fn lemma_signed_voluntary_exit_ssz_len(x: SignedVoluntaryExit)
    ensures
        x.spec_ssz().len() == 112,
{
    lemma_voluntary_exit_ssz_len(x.message);
}

/// Distinct `SignedVoluntaryExit` values have distinct encodings.
pub proof fn lemma_signed_voluntary_exit_ssz_injective(a: SignedVoluntaryExit, b: SignedVoluntaryExit)
    requires
        a.spec_ssz() == b.spec_ssz(),
    ensures
        a == b,
{
    lemma_signed_voluntary_exit_ssz_len(a);
    lemma_voluntary_exit_ssz_len(a.message);
    lemma_voluntary_exit_ssz_len(b.message);
    assert(a.spec_ssz().subrange(0, 16) =~= a.message.spec_ssz());
    assert(b.spec_ssz().subrange(0, 16) =~= b.message.spec_ssz());
    lemma_voluntary_exit_ssz_injective(a.message, b.message);
    assert(a.spec_ssz().subrange(16, 112) =~= a.signature.spec_ssz());
    assert(b.spec_ssz().subrange(16, 112) =~= b.signature.spec_ssz());
    assert(a.signature.0 =~= b.signature.0);
}

/// Encoding then decoding a `SignedVoluntaryExit` gives it back: its encoding is accepted
/// by the decoder, and no other value has the same encoding.
pub proof fn lemma_signed_voluntary_exit_ssz_roundtrip(x: SignedVoluntaryExit)
    ensures
        SignedVoluntaryExit::spec_valid_ssz(x.spec_ssz()),
        forall|y: SignedVoluntaryExit| #[trigger] y.spec_ssz() == x.spec_ssz() ==> y == x,
{
    lemma_signed_voluntary_exit_ssz_len(x);

    assert forall|y: SignedVoluntaryExit| #[trigger] y.spec_ssz() == x.spec_ssz() implies y == x by {
        lemma_signed_voluntary_exit_ssz_injective(y, x);
    }
}

/// The unsigned deposit tuple.
#[derive(Default, Debug, Clone, Copy, PartialEq, Eq)]
pub struct DepositMessage {
    /// Depositing validator's public key.
    pub pubkey: BLSPubkey,
    /// Withdrawal credential the deposit binds the validator to.
    pub withdrawal_credentials: [u8; 32],
    /// Deposit amount.
    pub amount: Gwei,
}

impl DepositMessage {
    /// The SSZ encoding: the fields' encodings in order.
    pub open spec fn spec_ssz(self) -> Seq<u8> {
        self.pubkey.spec_ssz()
            + self.withdrawal_credentials@
            + self.amount.spec_ssz()
    }

    /// The hash-tree-roots of the fields in order.
    pub open spec fn spec_field_roots(self) -> Seq<Seq<u8>> {
        seq![
            self.pubkey.spec_root(),
            spec_merkleize_bytes(self.withdrawal_credentials@),
            self.amount.spec_root(),
        ]
    }

    /// The hash-tree-root: the merkle root of the field roots.
    pub open spec fn spec_root(self) -> Seq<u8> {
        spec_merkleize(self.spec_field_roots())
    }

    /// Whether `bytes` is the encoding of some value.
    pub open spec fn spec_valid_ssz(bytes: Seq<u8>) -> bool {
        bytes.len() == 88
    }

    /// A container is variable-size when any field is.
    pub fn is_variable_size() -> (r: bool)
        ensures
            !r,
    {
        BLSPubkey::is_variable_size()
            || bytes_is_variable_size::<32>()
            || Gwei::is_variable_size()
    }

    /// The encoded size: the sum of the field sizes.
    pub fn size_hint() -> (r: usize)
        ensures
            r == 88,
    {
        BLSPubkey::size_hint()
            + bytes_size_hint::<32>()
            + Gwei::size_hint()
    }

    /// Append the encoding of every field in order.
    pub fn serialize(&self, buffer: &mut Vec<u8>) -> (r: Result<usize, SerializeError>)
        ensures
            r == Ok::<usize, SerializeError>(88),
            final(buffer)@ == old(buffer)@ + self.spec_ssz(),
    {
        let _ = self.pubkey.serialize(buffer);
        let _ = serialize_bytes(&self.withdrawal_credentials, buffer);
        let _ = self.amount.serialize(buffer);
        assert(buffer@ =~= old(buffer)@ + self.spec_ssz());
        Ok(88)
    }

    /// Decode every field from its fixed position in exactly 88 bytes.
    pub fn deserialize(encoding: &[u8]) -> (r: Result<Self, DeserializeError>)
        ensures
            r is Ok <==> Self::spec_valid_ssz(encoding@),
            r matches Ok(v) ==> v.spec_ssz() == encoding@,
            r matches Err(e) ==> e == length_error(encoding@.len() as usize, 88),
    {
        if encoding.len() != 88 {
            return Err(wrong_length(encoding.len(), 88));
        }
        let pubkey = BLSPubkey::deserialize(slice_subrange(encoding, 0, 48))?;
        let withdrawal_credentials = deserialize_bytes::<32>(slice_subrange(encoding, 48, 80))?;
        let amount = Gwei::deserialize(slice_subrange(encoding, 80, 88))?;
        let v = DepositMessage { pubkey, withdrawal_credentials, amount };
        proof {
            lemma_u64_from_le_roundtrip(encoding@.subrange(80, 88));
            assert(v.spec_ssz() =~= encoding@);
        }
        Ok(v)
    }

    /// The merkle root of the field roots.
    pub fn hash_tree_root(&self) -> (r: Result<Node, MerkleizationError>)
        ensures
            r matches Ok(n) && n.0@ == self.spec_root(),
    {
        let r0 = self.pubkey.hash_tree_root()?;
        let r1 = hash_tree_root_bytes(&self.withdrawal_credentials)?;
        let r2 = self.amount.hash_tree_root()?;
        let roots = [r0, r1, r2];
        assert(roots_view(roots@) =~= self.spec_field_roots());
        Ok(merkleize_roots(roots.as_slice()))
    }

    /// A container is a composite type.
    pub fn is_composite_type() -> (r: bool)
        ensures
            r,
    {
        true
    }
}

/// The encoding of a `DepositMessage` is 88 bytes long.
pub proof fn lemma_deposit_message_ssz_len(x: DepositMessage)
    ensures
        x.spec_ssz().len() == 88,
{

}

/// Distinct `DepositMessage` values have distinct encodings.
pub proof fn lemma_deposit_message_ssz_injective(a: DepositMessage, b: DepositMessage)
    requires
        a.spec_ssz() == b.spec_ssz(),
    ensures
        a == b,
{
    lemma_deposit_message_ssz_len(a);
    assert(a.spec_ssz().subrange(0, 48) =~= a.pubkey.spec_ssz());
    assert(b.spec_ssz().subrange(0, 48) =~= b.pubkey.spec_ssz());
    assert(a.pubkey.0 =~= b.pubkey.0);
    assert(a.spec_ssz().subrange(48, 80) =~= a.withdrawal_credentials@);
    assert(b.spec_ssz().subrange(48, 80) =~= b.withdrawal_credentials@);
    assert(a.withdrawal_credentials =~= b.withdrawal_credentials);
    assert(a.spec_ssz().subrange(80, 88) =~= a.amount.spec_ssz());
    assert(b.spec_ssz().subrange(80, 88) =~= b.amount.spec_ssz());
    lemma_u64_le_injective(a.amount.0, b.amount.0);
}

/// Encoding then decoding a `DepositMessage` gives it back: its encoding is accepted
/// by the decoder, and no other value has the same encoding.
pub proof fn lemma_deposit_message_ssz_roundtrip(x: DepositMessage)
    ensures
        DepositMessage::spec_valid_ssz(x.spec_ssz()),
        forall|y: DepositMessage| #[trigger] y.spec_ssz() == x.spec_ssz() ==> y == x,
{
    lemma_deposit_message_ssz_len(x);

    assert forall|y: DepositMessage| #[trigger] y.spec_ssz() == x.spec_ssz() implies y == x by {
        lemma_deposit_message_ssz_injective(y, x);
    }
}

/// A deposit with its signature.
#[derive(Default, Debug, Clone, Copy, PartialEq, Eq)]
pub struct DepositData {
    /// Depositing validator's public key.
    pub pubkey: BLSPubkey,
    /// Withdrawal credential the deposit binds the validator to.
    pub withdrawal_credentials: [u8; 32],
    /// Deposit amount.
    pub amount: Gwei,
    /// Signature over the deposit message (the unsigned tuple).
    pub signature: BLSSignature,
}

impl DepositData {
    /// The SSZ encoding: the fields' encodings in order.
    pub open spec fn spec_ssz(self) -> Seq<u8> {
        self.pubkey.spec_ssz()
            + self.withdrawal_credentials@
            + self.amount.spec_ssz()
            + self.signature.spec_ssz()
    }

    /// The hash-tree-roots of the fields in order.
    pub open spec fn spec_field_roots(self) -> Seq<Seq<u8>> {
        seq![
            self.pubkey.spec_root(),
            spec_merkleize_bytes(self.withdrawal_credentials@),
            self.amount.spec_root(),
            self.signature.spec_root(),
        ]
    }

    /// The hash-tree-root: the merkle root of the field roots.
    pub open spec fn spec_root(self) -> Seq<u8> {
        spec_merkleize(self.spec_field_roots())
    }

    /// Whether `bytes` is the encoding of some value.
    pub open spec fn spec_valid_ssz(bytes: Seq<u8>) -> bool {
        bytes.len() == 184
    }

    /// A container is variable-size when any field is.
    pub fn is_variable_size() -> (r: bool)
        ensures
            !r,
    {
        BLSPubkey::is_variable_size()
            || bytes_is_variable_size::<32>()
            || Gwei::is_variable_size()
            || BLSSignature::is_variable_size()
    }

    /// The encoded size: the sum of the field sizes.
    pub fn size_hint() -> (r: usize)
        ensures
            r == 184,
    {
        BLSPubkey::size_hint()
            + bytes_size_hint::<32>()
            + Gwei::size_hint()
            + BLSSignature::size_hint()
    }

    /// Append the encoding of every field in order.
    pub fn serialize(&self, buffer: &mut Vec<u8>) -> (r: Result<usize, SerializeError>)
        ensures
            r == Ok::<usize, SerializeError>(184),
            final(buffer)@ == old(buffer)@ + self.spec_ssz(),
    {
        let _ = self.pubkey.serialize(buffer);
        let _ = serialize_bytes(&self.withdrawal_credentials, buffer);
        let _ = self.amount.serialize(buffer);
        let _ = self.signature.serialize(buffer);
        assert(buffer@ =~= old(buffer)@ + self.spec_ssz());
        Ok(184)
    }

    /// Decode every field from its fixed position in exactly 184 bytes.
    pub fn deserialize(encoding: &[u8]) -> (r: Result<Self, DeserializeError>)
        ensures
            r is Ok <==> Self::spec_valid_ssz(encoding@),
            r matches Ok(v) ==> v.spec_ssz() == encoding@,
            r matches Err(e) ==> e == length_error(encoding@.len() as usize, 184),
    {
        if encoding.len() != 184 {
            return Err(wrong_length(encoding.len(), 184));
        }
        let pubkey = BLSPubkey::deserialize(slice_subrange(encoding, 0, 48))?;
        let withdrawal_credentials = deserialize_bytes::<32>(slice_subrange(encoding, 48, 80))?;
        let amount = Gwei::deserialize(slice_subrange(encoding, 80, 88))?;
        let signature = BLSSignature::deserialize(slice_subrange(encoding, 88, 184))?;
        let v = DepositData { pubkey, withdrawal_credentials, amount, signature };
        proof {
            lemma_u64_from_le_roundtrip(encoding@.subrange(80, 88));
            assert(v.spec_ssz() =~= encoding@);
        }
        Ok(v)
    }

    /// The merkle root of the field roots.
    pub fn hash_tree_root(&self) -> (r: Result<Node, MerkleizationError>)
        ensures
            r matches Ok(n) && n.0@ == self.spec_root(),
    {
        let r0 = self.pubkey.hash_tree_root()?;
        let r1 = hash_tree_root_bytes(&self.withdrawal_credentials)?;
        let r2 = self.amount.hash_tree_root()?;
        let r3 = self.signature.hash_tree_root()?;
        let roots = [r0, r1, r2, r3];
        assert(roots_view(roots@) =~= self.spec_field_roots());
        Ok(merkleize_roots(roots.as_slice()))
    }

    /// A container is a composite type.
    pub fn is_composite_type() -> (r: bool)
        ensures
            r,
    {
        true
    }
}

/// The encoding of a `DepositData` is 184 bytes long.
pub proof fn lemma_deposit_data_ssz_len(x: DepositData)
    ensures
        x.spec_ssz().len() == 184,
{

}

/// Distinct `DepositData` values have distinct encodings.
pub proof fn lemma_deposit_data_ssz_injective(a: DepositData, b: DepositData)
    requires
        a.spec_ssz() == b.spec_ssz(),
    ensures
        a == b,
{
    lemma_deposit_data_ssz_len(a);
    assert(a.spec_ssz().subrange(0, 48) =~= a.pubkey.spec_ssz());
    assert(b.spec_ssz().subrange(0, 48) =~= b.pubkey.spec_ssz());
    assert(a.pubkey.0 =~= b.pubkey.0);
    assert(a.spec_ssz().subrange(48, 80) =~= a.withdrawal_credentials@);
    assert(b.spec_ssz().subrange(48, 80) =~= b.withdrawal_credentials@);
    assert(a.withdrawal_credentials =~= b.withdrawal_credentials);
    assert(a.spec_ssz().subrange(80, 88) =~= a.amount.spec_ssz());
    assert(b.spec_ssz().subrange(80, 88) =~= b.amount.spec_ssz());
    lemma_u64_le_injective(a.amount.0, b.amount.0);
    assert(a.spec_ssz().subrange(88, 184) =~= a.signature.spec_ssz());
    assert(b.spec_ssz().subrange(88, 184) =~= b.signature.spec_ssz());
    assert(a.signature.0 =~= b.signature.0);
}

/// Encoding then decoding a `DepositData` gives it back: its encoding is accepted
/// by the decoder, and no other value has the same encoding.
pub proof fn lemma_deposit_data_ssz_roundtrip(x: DepositData)
    ensures
        DepositData::spec_valid_ssz(x.spec_ssz()),
        forall|y: DepositData| #[trigger] y.spec_ssz() == x.spec_ssz() ==> y == x,
{
    lemma_deposit_data_ssz_len(x);

    assert forall|y: DepositData| #[trigger] y.spec_ssz() == x.spec_ssz() implies y == x by {
        lemma_deposit_data_ssz_injective(y, x);
    }
}

/// An execution-layer deposit request.
#[derive(Default, Debug, Clone, Copy, PartialEq, Eq)]
pub struct DepositRequest {
    /// Depositing validator's public key.
    pub pubkey: BLSPubkey,
    /// Withdrawal credential the deposit binds the validator to.
    pub withdrawal_credentials: [u8; 32],
    /// Deposit amount.
    pub amount: Gwei,
    /// Signature over the deposit message.
    pub signature: BLSSignature,
    /// Sequence index assigned by the deposit contract.
    pub index: u64,
}

impl DepositRequest {
    /// The SSZ encoding: the fields' encodings in order.
    pub open spec fn spec_ssz(self) -> Seq<u8> {
        self.pubkey.spec_ssz()
            + self.withdrawal_credentials@
            + self.amount.spec_ssz()
            + self.signature.spec_ssz()
            + spec_u64_le(self.index)
    }

    /// The hash-tree-roots of the fields in order.
    pub open spec fn spec_field_roots(self) -> Seq<Seq<u8>> {
        seq![
            self.pubkey.spec_root(),
            spec_merkleize_bytes(self.withdrawal_credentials@),
            self.amount.spec_root(),
            self.signature.spec_root(),
            spec_u64_root(self.index),
        ]
    }

    /// The hash-tree-root: the merkle root of the field roots.
    pub open spec fn spec_root(self) -> Seq<u8> {
        spec_merkleize(self.spec_field_roots())
    }

    /// Whether `bytes` is the encoding of some value.
    pub open spec fn spec_valid_ssz(bytes: Seq<u8>) -> bool {
        bytes.len() == 192
    }

    /// A container is variable-size when any field is.
    pub fn is_variable_size() -> (r: bool)
        ensures
            !r,
    {
        BLSPubkey::is_variable_size()
            || bytes_is_variable_size::<32>()
            || Gwei::is_variable_size()
            || BLSSignature::is_variable_size()
            || u64_is_variable_size()
    }

    /// The encoded size: the sum of the field sizes.
    pub fn size_hint() -> (r: usize)
        ensures
            r == 192,
    {
        BLSPubkey::size_hint()
            + bytes_size_hint::<32>()
            + Gwei::size_hint()
            + BLSSignature::size_hint()
            + u64_size_hint()
    }

    /// Append the encoding of every field in order.
    pub fn serialize(&self, buffer: &mut Vec<u8>) -> (r: Result<usize, SerializeError>)
        ensures
            r == Ok::<usize, SerializeError>(192),
            final(buffer)@ == old(buffer)@ + self.spec_ssz(),
    {
        let _ = self.pubkey.serialize(buffer);
        let _ = serialize_bytes(&self.withdrawal_credentials, buffer);
        let _ = self.amount.serialize(buffer);
        let _ = self.signature.serialize(buffer);
        let _ = serialize_u64(self.index, buffer);
        assert(buffer@ =~= old(buffer)@ + self.spec_ssz());
        Ok(192)
    }

    /// Decode every field from its fixed position in exactly 192 bytes.
    pub fn deserialize(encoding: &[u8]) -> (r: Result<Self, DeserializeError>)
        ensures
            r is Ok <==> Self::spec_valid_ssz(encoding@),
            r matches Ok(v) ==> v.spec_ssz() == encoding@,
            r matches Err(e) ==> e == length_error(encoding@.len() as usize, 192),
    {
        if encoding.len() != 192 {
            return Err(wrong_length(encoding.len(), 192));
        }
        let pubkey = BLSPubkey::deserialize(slice_subrange(encoding, 0, 48))?;
        let withdrawal_credentials = deserialize_bytes::<32>(slice_subrange(encoding, 48, 80))?;
        let amount = Gwei::deserialize(slice_subrange(encoding, 80, 88))?;
        let signature = BLSSignature::deserialize(slice_subrange(encoding, 88, 184))?;
        let index = deserialize_u64(slice_subrange(encoding, 184, 192))?;
        let v = DepositRequest { pubkey, withdrawal_credentials, amount, signature, index };
        proof {
            lemma_u64_from_le_roundtrip(encoding@.subrange(80, 88));
            lemma_u64_from_le_roundtrip(encoding@.subrange(184, 192));
            assert(v.spec_ssz() =~= encoding@);
        }
        Ok(v)
    }

    /// The merkle root of the field roots.
    pub fn hash_tree_root(&self) -> (r: Result<Node, MerkleizationError>)
        ensures
            r matches Ok(n) && n.0@ == self.spec_root(),
    {
        let r0 = self.pubkey.hash_tree_root()?;
        let r1 = hash_tree_root_bytes(&self.withdrawal_credentials)?;
        let r2 = self.amount.hash_tree_root()?;
        let r3 = self.signature.hash_tree_root()?;
        let r4 = hash_tree_root_u64(self.index)?;
        let roots = [r0, r1, r2, r3, r4];
        assert(roots_view(roots@) =~= self.spec_field_roots());
        Ok(merkleize_roots(roots.as_slice()))
    }

    /// A container is a composite type.
    pub fn is_composite_type() -> (r: bool)
        ensures
            r,
    {
        true
    }
}

/// The encoding of a `DepositRequest` is 192 bytes long.
pub proof fn lemma_deposit_request_ssz_len(x: DepositRequest)
    ensures
        x.spec_ssz().len() == 192,
{

}

/// Distinct `DepositRequest` values have distinct encodings.
pub proof fn lemma_deposit_request_ssz_injective(a: DepositRequest, b: DepositRequest)
    requires
        a.spec_ssz() == b.spec_ssz(),
    ensures
        a == b,
{
    lemma_deposit_request_ssz_len(a);
    assert(a.spec_ssz().subrange(0, 48) =~= a.pubkey.spec_ssz());
    assert(b.spec_ssz().subrange(0, 48) =~= b.pubkey.spec_ssz());
    assert(a.pubkey.0 =~= b.pubkey.0);
    assert(a.spec_ssz().subrange(48, 80) =~= a.withdrawal_credentials@);
    assert(b.spec_ssz().subrange(48, 80) =~= b.withdrawal_credentials@);
    assert(a.withdrawal_credentials =~= b.withdrawal_credentials);
    assert(a.spec_ssz().subrange(80, 88) =~= a.amount.spec_ssz());
    assert(b.spec_ssz().subrange(80, 88) =~= b.amount.spec_ssz());
    lemma_u64_le_injective(a.amount.0, b.amount.0);
    assert(a.spec_ssz().subrange(88, 184) =~= a.signature.spec_ssz());
    assert(b.spec_ssz().subrange(88, 184) =~= b.signature.spec_ssz());
    assert(a.signature.0 =~= b.signature.0);
    assert(a.spec_ssz().subrange(184, 192) =~= spec_u64_le(a.index));
    assert(b.spec_ssz().subrange(184, 192) =~= spec_u64_le(b.index));
    lemma_u64_le_injective(a.index, b.index);
}

/// Encoding then decoding a `DepositRequest` gives it back: its encoding is accepted
/// by the decoder, and no other value has the same encoding.
pub proof fn lemma_deposit_request_ssz_roundtrip(x: DepositRequest)
    ensures
        DepositRequest::spec_valid_ssz(x.spec_ssz()),
        forall|y: DepositRequest| #[trigger] y.spec_ssz() == x.spec_ssz() ==> y == x,
{
    lemma_deposit_request_ssz_len(x);

    assert forall|y: DepositRequest| #[trigger] y.spec_ssz() == x.spec_ssz() implies y == x by {
        lemma_deposit_request_ssz_injective(y, x);
    }
}

/// An execution-layer partial-withdrawal or full-exit request.
#[derive(Default, Debug, Clone, Copy, PartialEq, Eq)]
pub struct WithdrawalRequest {
    /// Execution-layer address authorising the request.
    pub source_address: ExecutionAddress,
    /// Validator targeted by the request.
    pub validator_pubkey: BLSPubkey,
    /// Amount to withdraw, or the full-exit marker for a full exit.
    pub amount: Gwei,
}

impl WithdrawalRequest {
    /// The SSZ encoding: the fields' encodings in order.
    pub open spec fn spec_ssz(self) -> Seq<u8> {
        self.source_address.spec_ssz()
            + self.validator_pubkey.spec_ssz()
            + self.amount.spec_ssz()
    }

    /// The hash-tree-roots of the fields in order.
    pub open spec fn spec_field_roots(self) -> Seq<Seq<u8>> {
        seq![
            self.source_address.spec_root(),
            self.validator_pubkey.spec_root(),
            self.amount.spec_root(),
        ]
    }

    /// The hash-tree-root: the merkle root of the field roots.
    pub open spec fn spec_root(self) -> Seq<u8> {
        spec_merkleize(self.spec_field_roots())
    }

    /// Whether `bytes` is the encoding of some value.
    pub open spec fn spec_valid_ssz(bytes: Seq<u8>) -> bool {
        bytes.len() == 76
    }

    /// A container is variable-size when any field is.
    pub fn is_variable_size() -> (r: bool)
        ensures
            !r,
    {
        ExecutionAddress::is_variable_size()
            || BLSPubkey::is_variable_size()
            || Gwei::is_variable_size()
    }

    /// The encoded size: the sum of the field sizes.
    pub fn size_hint() -> (r: usize)
        ensures
            r == 76,
    {
        ExecutionAddress::size_hint()
            + BLSPubkey::size_hint()
            + Gwei::size_hint()
    }

    /// Append the encoding of every field in order.
    pub fn serialize(&self, buffer: &mut Vec<u8>) -> (r: Result<usize, SerializeError>)
        ensures
            r == Ok::<usize, SerializeError>(76),
            final(buffer)@ == old(buffer)@ + self.spec_ssz(),
    {
        let _ = self.source_address.serialize(buffer);
        let _ = self.validator_pubkey.serialize(buffer);
        let _ = self.amount.serialize(buffer);
        assert(buffer@ =~= old(buffer)@ + self.spec_ssz());
        Ok(76)
    }

    /// Decode every field from its fixed position in exactly 76 bytes.
    pub fn deserialize(encoding: &[u8]) -> (r: Result<Self, DeserializeError>)
        ensures
            r is Ok <==> Self::spec_valid_ssz(encoding@),
            r matches Ok(v) ==> v.spec_ssz() == encoding@,
            r matches Err(e) ==> e == length_error(encoding@.len() as usize, 76),
    {
        if encoding.len() != 76 {
            return Err(wrong_length(encoding.len(), 76));
        }
        let source_address = ExecutionAddress::deserialize(slice_subrange(encoding, 0, 20))?;
        let validator_pubkey = BLSPubkey::deserialize(slice_subrange(encoding, 20, 68))?;
        let amount = Gwei::deserialize(slice_subrange(encoding, 68, 76))?;
        let v = WithdrawalRequest { source_address, validator_pubkey, amount };
        proof {
            lemma_u64_from_le_roundtrip(encoding@.subrange(68, 76));
            assert(v.spec_ssz() =~= encoding@);
        }
        Ok(v)
    }

    /// The merkle root of the field roots.
    pub fn hash_tree_root(&self) -> (r: Result<Node, MerkleizationError>)
        ensures
            r matches Ok(n) && n.0@ == self.spec_root(),
    {
        let r0 = self.source_address.hash_tree_root()?;
        let r1 = self.validator_pubkey.hash_tree_root()?;
        let r2 = self.amount.hash_tree_root()?;
        let roots = [r0, r1, r2];
        assert(roots_view(roots@) =~= self.spec_field_roots());
        Ok(merkleize_roots(roots.as_slice()))
    }

    /// A container is a composite type.
    pub fn is_composite_type() -> (r: bool)
        ensures
            r,
    {
        true
    }
}

/// The encoding of a `WithdrawalRequest` is 76 bytes long.
pub proof fn lemma_withdrawal_request_ssz_len(x: WithdrawalRequest)
    ensures
        x.spec_ssz().len() == 76,
{

}

/// Distinct `WithdrawalRequest` values have distinct encodings.
pub proof fn lemma_withdrawal_request_ssz_injective(a: WithdrawalRequest, b: WithdrawalRequest)
    requires
        a.spec_ssz() == b.spec_ssz(),
    ensures
        a == b,
{
    lemma_withdrawal_request_ssz_len(a);
    assert(a.spec_ssz().subrange(0, 20) =~= a.source_address.spec_ssz());
    assert(b.spec_ssz().subrange(0, 20) =~= b.source_address.spec_ssz());
    assert(a.source_address.0 =~= b.source_address.0);
    assert(a.spec_ssz().subrange(20, 68) =~= a.validator_pubkey.spec_ssz());
    assert(b.spec_ssz().subrange(20, 68) =~= b.validator_pubkey.spec_ssz());
    assert(a.validator_pubkey.0 =~= b.validator_pubkey.0);
    assert(a.spec_ssz().subrange(68, 76) =~= a.amount.spec_ssz());
    assert(b.spec_ssz().subrange(68, 76) =~= b.amount.spec_ssz());
    lemma_u64_le_injective(a.amount.0, b.amount.0);
}

/// Encoding then decoding a `WithdrawalRequest` gives it back: its encoding is accepted
/// by the decoder, and no other value has the same encoding.
pub proof fn lemma_withdrawal_request_ssz_roundtrip(x: WithdrawalRequest)
    ensures
        WithdrawalRequest::spec_valid_ssz(x.spec_ssz()),
        forall|y: WithdrawalRequest| #[trigger] y.spec_ssz() == x.spec_ssz() ==> y == x,
{
    lemma_withdrawal_request_ssz_len(x);

    assert forall|y: WithdrawalRequest| #[trigger] y.spec_ssz() == x.spec_ssz() implies y == x by {
        lemma_withdrawal_request_ssz_injective(y, x);
    }
}

/// An execution-layer consolidation request.
#[derive(Default, Debug, Clone, Copy, PartialEq, Eq)]
pub struct ConsolidationRequest {
    /// Execution-layer address authorising the consolidation.
    pub source_address: ExecutionAddress,
    /// Source validator's public key (balance moved out).
    pub source_pubkey: BLSPubkey,
    /// Target validator's public key (balance folded in).
    pub target_pubkey: BLSPubkey,
}

impl ConsolidationRequest {
    /// The SSZ encoding: the fields' encodings in order.
    pub open spec fn spec_ssz(self) -> Seq<u8> {
        self.source_address.spec_ssz()
            + self.source_pubkey.spec_ssz()
            + self.target_pubkey.spec_ssz()
    }

    /// The hash-tree-roots of the fields in order.
    pub open spec fn spec_field_roots(self) -> Seq<Seq<u8>> {
        seq![
            self.source_address.spec_root(),
            self.source_pubkey.spec_root(),
            self.target_pubkey.spec_root(),
        ]
    }

    /// The hash-tree-root: the merkle root of the field roots.
    pub open spec fn spec_root(self) -> Seq<u8> {
        spec_merkleize(self.spec_field_roots())
    }

    /// Whether `bytes` is the encoding of some value.
    pub open spec fn spec_valid_ssz(bytes: Seq<u8>) -> bool {
        bytes.len() == 116
    }

    /// A container is variable-size when any field is.
    pub fn is_variable_size() -> (r: bool)
        ensures
            !r,
    {
        ExecutionAddress::is_variable_size()
            || BLSPubkey::is_variable_size()
            || BLSPubkey::is_variable_size()
    }

    /// The encoded size: the sum of the field sizes.
    pub fn size_hint() -> (r: usize)
        ensures
            r == 116,
    {
        ExecutionAddress::size_hint()
            + BLSPubkey::size_hint()
            + BLSPubkey::size_hint()
    }

    /// Append the encoding of every field in order.
    pub fn serialize(&self, buffer: &mut Vec<u8>) -> (r: Result<usize, SerializeError>)
        ensures
            r == Ok::<usize, SerializeError>(116),
            final(buffer)@ == old(buffer)@ + self.spec_ssz(),
    {
        let _ = self.source_address.serialize(buffer);
        let _ = self.source_pubkey.serialize(buffer);
        let _ = self.target_pubkey.serialize(buffer);
        assert(buffer@ =~= old(buffer)@ + self.spec_ssz());
        Ok(116)
    }

    /// Decode every field from its fixed position in exactly 116 bytes.
    pub fn deserialize(encoding: &[u8]) -> (r: Result<Self, DeserializeError>)
        ensures
            r is Ok <==> Self::spec_valid_ssz(encoding@),
            r matches Ok(v) ==> v.spec_ssz() == encoding@,
            r matches Err(e) ==> e == length_error(encoding@.len() as usize, 116),
    {
        if encoding.len() != 116 {
            return Err(wrong_length(encoding.len(), 116));
        }
        let source_address = ExecutionAddress::deserialize(slice_subrange(encoding, 0, 20))?;
        let source_pubkey = BLSPubkey::deserialize(slice_subrange(encoding, 20, 68))?;
        let target_pubkey = BLSPubkey::deserialize(slice_subrange(encoding, 68, 116))?;
        let v = ConsolidationRequest { source_address, source_pubkey, target_pubkey };
        proof {

            assert(v.spec_ssz() =~= encoding@);
        }
        Ok(v)
    }

    /// The merkle root of the field roots.
    pub fn hash_tree_root(&self) -> (r: Result<Node, MerkleizationError>)
        ensures
            r matches Ok(n) && n.0@ == self.spec_root(),
    {
        let r0 = self.source_address.hash_tree_root()?;
        let r1 = self.source_pubkey.hash_tree_root()?;
        let r2 = self.target_pubkey.hash_tree_root()?;
        let roots = [r0, r1, r2];
        assert(roots_view(roots@) =~= self.spec_field_roots());
        Ok(merkleize_roots(roots.as_slice()))
    }

    /// A container is a composite type.
    pub fn is_composite_type() -> (r: bool)
        ensures
            r,
    {
        true
    }
}

/// The encoding of a `ConsolidationRequest` is 116 bytes long.
pub proof fn lemma_consolidation_request_ssz_len(x: ConsolidationRequest)
    ensures
        x.spec_ssz().len() == 116,
{

}

/// Distinct `ConsolidationRequest` values have distinct encodings.
pub proof fn lemma_consolidation_request_ssz_injective(a: ConsolidationRequest, b: ConsolidationRequest)
    requires
        a.spec_ssz() == b.spec_ssz(),
    ensures
        a == b,
{
    lemma_consolidation_request_ssz_len(a);
    assert(a.spec_ssz().subrange(0, 20) =~= a.source_address.spec_ssz());
    assert(b.spec_ssz().subrange(0, 20) =~= b.source_address.spec_ssz());
    assert(a.source_address.0 =~= b.source_address.0);
    assert(a.spec_ssz().subrange(20, 68) =~= a.source_pubkey.spec_ssz());
    assert(b.spec_ssz().subrange(20, 68) =~= b.source_pubkey.spec_ssz());
    assert(a.source_pubkey.0 =~= b.source_pubkey.0);
    assert(a.spec_ssz().subrange(68, 116) =~= a.target_pubkey.spec_ssz());
    assert(b.spec_ssz().subrange(68, 116) =~= b.target_pubkey.spec_ssz());
    assert(a.target_pubkey.0 =~= b.target_pubkey.0);
}

/// Encoding then decoding a `ConsolidationRequest` gives it back: its encoding is accepted
/// by the decoder, and no other value has the same encoding.
pub proof fn lemma_consolidation_request_ssz_roundtrip(x: ConsolidationRequest)
    ensures
        ConsolidationRequest::spec_valid_ssz(x.spec_ssz()),
        forall|y: ConsolidationRequest| #[trigger] y.spec_ssz() == x.spec_ssz() ==> y == x,
{
    lemma_consolidation_request_ssz_len(x);

    assert forall|y: ConsolidationRequest| #[trigger] y.spec_ssz() == x.spec_ssz() implies y == x by {
        lemma_consolidation_request_ssz_injective(y, x);
    }
}

/// An execution-layer builder deposit request.
#[derive(Default, Debug, Clone, Copy, PartialEq, Eq)]
pub struct BuilderDepositRequest {
    /// Builder's public key.
    pub pubkey: BLSPubkey,
    /// Withdrawal credential the deposit binds the builder to.
    pub withdrawal_credentials: [u8; 32],
    /// Deposit amount.
    pub amount: Gwei,
    /// Signature over the deposit message under the builder-deposit domain.
    pub signature: BLSSignature,
}

impl BuilderDepositRequest {
    /// The SSZ encoding: the fields' encodings in order.
    pub open spec fn spec_ssz(self) -> Seq<u8> {
        self.pubkey.spec_ssz()
            + self.withdrawal_credentials@
            + self.amount.spec_ssz()
            + self.signature.spec_ssz()
    }

    /// The hash-tree-roots of the fields in order.
    pub open spec fn spec_field_roots(self) -> Seq<Seq<u8>> {
        seq![
            self.pubkey.spec_root(),
            spec_merkleize_bytes(self.withdrawal_credentials@),
            self.amount.spec_root(),
            self.signature.spec_root(),
        ]
    }

    /// The hash-tree-root: the merkle root of the field roots.
    pub open spec fn spec_root(self) -> Seq<u8> {
        spec_merkleize(self.spec_field_roots())
    }

    /// Whether `bytes` is the encoding of some value.
    pub open spec fn spec_valid_ssz(bytes: Seq<u8>) -> bool {
        bytes.len() == 184
    }

    /// A container is variable-size when any field is.
    pub fn is_variable_size() -> (r: bool)
        ensures
            !r,
    {
        BLSPubkey::is_variable_size()
            || bytes_is_variable_size::<32>()
            || Gwei::is_variable_size()
            || BLSSignature::is_variable_size()
    }

    /// The encoded size: the sum of the field sizes.
    pub fn size_hint() -> (r: usize)
        ensures
            r == 184,
    {
        BLSPubkey::size_hint()
            + bytes_size_hint::<32>()
            + Gwei::size_hint()
            + BLSSignature::size_hint()
    }

    /// Append the encoding of every field in order.
    pub fn serialize(&self, buffer: &mut Vec<u8>) -> (r: Result<usize, SerializeError>)
        ensures
            r == Ok::<usize, SerializeError>(184),
            final(buffer)@ == old(buffer)@ + self.spec_ssz(),
    {
        let _ = self.pubkey.serialize(buffer);
        let _ = serialize_bytes(&self.withdrawal_credentials, buffer);
        let _ = self.amount.serialize(buffer);
        let _ = self.signature.serialize(buffer);
        assert(buffer@ =~= old(buffer)@ + self.spec_ssz());
        Ok(184)
    }

    /// Decode every field from its fixed position in exactly 184 bytes.
    pub fn deserialize(encoding: &[u8]) -> (r: Result<Self, DeserializeError>)
        ensures
            r is Ok <==> Self::spec_valid_ssz(encoding@),
            r matches Ok(v) ==> v.spec_ssz() == encoding@,
            r matches Err(e) ==> e == length_error(encoding@.len() as usize, 184),
    {
        if encoding.len() != 184 {
            return Err(wrong_length(encoding.len(), 184));
        }
        let pubkey = BLSPubkey::deserialize(slice_subrange(encoding, 0, 48))?;
        let withdrawal_credentials = deserialize_bytes::<32>(slice_subrange(encoding, 48, 80))?;
        let amount = Gwei::deserialize(slice_subrange(encoding, 80, 88))?;
        let signature = BLSSignature::deserialize(slice_subrange(encoding, 88, 184))?;
        let v = BuilderDepositRequest { pubkey, withdrawal_credentials, amount, signature };
        proof {
            lemma_u64_from_le_roundtrip(encoding@.subrange(80, 88));
            assert(v.spec_ssz() =~= encoding@);
        }
        Ok(v)
    }

    /// The merkle root of the field roots.
    pub fn hash_tree_root(&self) -> (r: Result<Node, MerkleizationError>)
        ensures
            r matches Ok(n) && n.0@ == self.spec_root(),
    {
        let r0 = self.pubkey.hash_tree_root()?;
        let r1 = hash_tree_root_bytes(&self.withdrawal_credentials)?;
        let r2 = self.amount.hash_tree_root()?;
        let r3 = self.signature.hash_tree_root()?;
        let roots = [r0, r1, r2, r3];
        assert(roots_view(roots@) =~= self.spec_field_roots());
        Ok(merkleize_roots(roots.as_slice()))
    }

    /// A container is a composite type.
    pub fn is_composite_type() -> (r: bool)
        ensures
            r,
    {
        true
    }
}

/// The encoding of a `BuilderDepositRequest` is 184 bytes long.
pub proof fn lemma_builder_deposit_request_ssz_len(x: BuilderDepositRequest)
    ensures
        x.spec_ssz().len() == 184,
{

}

/// Distinct `BuilderDepositRequest` values have distinct encodings.
pub proof fn lemma_builder_deposit_request_ssz_injective(a: BuilderDepositRequest, b: BuilderDepositRequest)
    requires
        a.spec_ssz() == b.spec_ssz(),
    ensures
        a == b,
{
    lemma_builder_deposit_request_ssz_len(a);
    assert(a.spec_ssz().subrange(0, 48) =~= a.pubkey.spec_ssz());
    assert(b.spec_ssz().subrange(0, 48) =~= b.pubkey.spec_ssz());
    assert(a.pubkey.0 =~= b.pubkey.0);
    assert(a.spec_ssz().subrange(48, 80) =~= a.withdrawal_credentials@);
    assert(b.spec_ssz().subrange(48, 80) =~= b.withdrawal_credentials@);
    assert(a.withdrawal_credentials =~= b.withdrawal_credentials);
    assert(a.spec_ssz().subrange(80, 88) =~= a.amount.spec_ssz());
    assert(b.spec_ssz().subrange(80, 88) =~= b.amount.spec_ssz());
    lemma_u64_le_injective(a.amount.0, b.amount.0);
    assert(a.spec_ssz().subrange(88, 184) =~= a.signature.spec_ssz());
    assert(b.spec_ssz().subrange(88, 184) =~= b.signature.spec_ssz());
    assert(a.signature.0 =~= b.signature.0);
}

/// Encoding then decoding a `BuilderDepositRequest` gives it back: its encoding is accepted
/// by the decoder, and no other value has the same encoding.
pub proof fn lemma_builder_deposit_request_ssz_roundtrip(x: BuilderDepositRequest)
    ensures
        BuilderDepositRequest::spec_valid_ssz(x.spec_ssz()),
        forall|y: BuilderDepositRequest| #[trigger] y.spec_ssz() == x.spec_ssz() ==> y == x,
{
    lemma_builder_deposit_request_ssz_len(x);

    assert forall|y: BuilderDepositRequest| #[trigger] y.spec_ssz() == x.spec_ssz() implies y == x by {
        lemma_builder_deposit_request_ssz_injective(y, x);
    }
}

/// An execution-layer builder exit request.
#[derive(Default, Debug, Clone, Copy, PartialEq, Eq)]
pub struct BuilderExitRequest {
    /// Execution-layer address authorising the exit.
    pub source_address: ExecutionAddress,
    /// Builder's public key.
    pub pubkey: BLSPubkey,
}

impl BuilderExitRequest {
    /// The SSZ encoding: the fields' encodings in order.
    pub open spec fn spec_ssz(self) -> Seq<u8> {
        self.source_address.spec_ssz()
            + self.pubkey.spec_ssz()
    }

    /// The hash-tree-roots of the fields in order.
    pub open spec fn spec_field_roots(self) -> Seq<Seq<u8>> {
        seq![
            self.source_address.spec_root(),
            self.pubkey.spec_root(),
        ]
    }

    /// The hash-tree-root: the merkle root of the field roots.
    pub open spec fn spec_root(self) -> Seq<u8> {
        spec_merkleize(self.spec_field_roots())
    }

    /// Whether `bytes` is the encoding of some value.
    pub open spec fn spec_valid_ssz(bytes: Seq<u8>) -> bool {
        bytes.len() == 68
    }

    /// A container is variable-size when any field is.
    pub fn is_variable_size() -> (r: bool)
        ensures
            !r,
    {
        ExecutionAddress::is_variable_size()
            || BLSPubkey::is_variable_size()
    }

    /// The encoded size: the sum of the field sizes.
    pub fn size_hint() -> (r: usize)
        ensures
            r == 68,
    {
        ExecutionAddress::size_hint()
            + BLSPubkey::size_hint()
    }

    /// Append the encoding of every field in order.
    pub fn serialize(&self, buffer: &mut Vec<u8>) -> (r: Result<usize, SerializeError>)
        ensures
            r == Ok::<usize, SerializeError>(68),
            final(buffer)@ == old(buffer)@ + self.spec_ssz(),
    {
        let _ = self.source_address.serialize(buffer);
        let _ = self.pubkey.serialize(buffer);
        assert(buffer@ =~= old(buffer)@ + self.spec_ssz());
        Ok(68)
    }

    /// Decode every field from its fixed position in exactly 68 bytes.
    pub fn deserialize(encoding: &[u8]) -> (r: Result<Self, DeserializeError>)
        ensures
            r is Ok <==> Self::spec_valid_ssz(encoding@),
            r matches Ok(v) ==> v.spec_ssz() == encoding@,
            r matches Err(e) ==> e == length_error(encoding@.len() as usize, 68),
    {
        if encoding.len() != 68 {
            return Err(wrong_length(encoding.len(), 68));
        }
        let source_address = ExecutionAddress::deserialize(slice_subrange(encoding, 0, 20))?;
        let pubkey = BLSPubkey::deserialize(slice_subrange(encoding, 20, 68))?;
        let v = BuilderExitRequest { source_address, pubkey };
        proof {

            assert(v.spec_ssz() =~= encoding@);
        }
        Ok(v)
    }

    /// The merkle root of the field roots.
    pub fn hash_tree_root(&self) -> (r: Result<Node, MerkleizationError>)
        ensures
            r matches Ok(n) && n.0@ == self.spec_root(),
    {
        let r0 = self.source_address.hash_tree_root()?;
        let r1 = self.pubkey.hash_tree_root()?;
        let roots = [r0, r1];
        assert(roots_view(roots@) =~= self.spec_field_roots());
        Ok(merkleize_roots(roots.as_slice()))
    }

    /// A container is a composite type.
    pub fn is_composite_type() -> (r: bool)
        ensures
            r,
    {
        true
    }
}

/// The encoding of a `BuilderExitRequest` is 68 bytes long.
pub proof fn lemma_builder_exit_request_ssz_len(x: BuilderExitRequest)
    ensures
        x.spec_ssz().len() == 68,
{

}

/// Distinct `BuilderExitRequest` values have distinct encodings.
pub proof fn lemma_builder_exit_request_ssz_injective(a: BuilderExitRequest, b: BuilderExitRequest)
    requires
        a.spec_ssz() == b.spec_ssz(),
    ensures
        a == b,
{
    lemma_builder_exit_request_ssz_len(a);
    assert(a.spec_ssz().subrange(0, 20) =~= a.source_address.spec_ssz());
    assert(b.spec_ssz().subrange(0, 20) =~= b.source_address.spec_ssz());
    assert(a.source_address.0 =~= b.source_address.0);
    assert(a.spec_ssz().subrange(20, 68) =~= a.pubkey.spec_ssz());
    assert(b.spec_ssz().subrange(20, 68) =~= b.pubkey.spec_ssz());
    assert(a.pubkey.0 =~= b.pubkey.0);
}

/// Encoding then decoding a `BuilderExitRequest` gives it back: its encoding is accepted
/// by the decoder, and no other value has the same encoding.
pub proof fn lemma_builder_exit_request_ssz_roundtrip(x: BuilderExitRequest)
    ensures
        BuilderExitRequest::spec_valid_ssz(x.spec_ssz()),
        forall|y: BuilderExitRequest| #[trigger] y.spec_ssz() == x.spec_ssz() ==> y == x,
{
    lemma_builder_exit_request_ssz_len(x);

    assert forall|y: BuilderExitRequest| #[trigger] y.spec_ssz() == x.spec_ssz() implies y == x by {
        lemma_builder_exit_request_ssz_injective(y, x);
    }
}

/// A deposit with its inclusion proof in the deposit-contract tree.
#[derive(Debug, Clone)]
pub struct Deposit {
    /// Merkle proof of inclusion in the deposit-contract tree (depth + 1 nodes).
    pub proof: Vector<[u8; 32], DEPOSIT_PROOF_LEN>,
    /// The deposit payload being proven.
    pub data: DepositData,
}

/// Execution-to-consensus requests carried by a payload.
#[derive(Debug, Clone)]
pub struct ExecutionRequests {
    /// Execution-layer deposit requests.
    pub deposits: List<DepositRequest, MAX_DEPOSIT_REQUESTS_PER_PAYLOAD>,
    /// Execution-layer partial-withdrawal and full-exit requests.
    pub withdrawals: List<WithdrawalRequest, MAX_WITHDRAWAL_REQUESTS_PER_PAYLOAD>,
    /// Execution-layer consolidation requests.
    pub consolidations: List<ConsolidationRequest, MAX_CONSOLIDATION_REQUESTS_PER_PAYLOAD>,
    /// Execution-layer builder deposit requests.
    pub builder_deposits: List<BuilderDepositRequest, MAX_BUILDER_DEPOSIT_REQUESTS_PER_PAYLOAD>,
    /// Execution-layer builder exit requests.
    pub builder_exits: List<BuilderExitRequest, MAX_BUILDER_EXIT_REQUESTS_PER_PAYLOAD>,
}

impl ExecutionRequests {
    /// True when the payload carried no execution-to-consensus requests.
    pub fn is_empty(&self) -> (r: bool)
        ensures
            r == (self.deposits@.len() == 0 && self.withdrawals@.len() == 0
                && self.consolidations@.len() == 0 && self.builder_deposits@.len() == 0
                && self.builder_exits@.len() == 0),
    {
        self.deposits.is_empty() && self.withdrawals.is_empty() && self.consolidations.is_empty()
            && self.builder_deposits.is_empty() && self.builder_exits.is_empty()
    }
}

} // verus!
