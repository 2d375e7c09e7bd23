//! Builder registry records, builder payments and payload-timeliness votes.
use vstd::prelude::*;
use vstd::slice::slice_subrange;

use crate::ssz::basic::{
    bool_byte, bytes_is_variable_size, bytes_size_hint, deserialize_bool, deserialize_bytes,
    deserialize_u64, deserialize_u8, hash_tree_root_bool, hash_tree_root_bytes,
    hash_tree_root_u64, hash_tree_root_u8, lemma_u64_from_le_roundtrip, lemma_u64_le_injective,
    serialize_bool, serialize_bytes, serialize_u64, serialize_u8, spec_bool_root,
    spec_u64_le, spec_u64_root, spec_u8_root, u64_is_variable_size, u64_size_hint,
    u8_is_variable_size, u8_size_hint,
};
use crate::ssz::error::{length_error, wrong_length};
use crate::ssz::merkle::{merkleize_roots, roots_view, spec_merkleize, spec_merkleize_bytes};
use crate::ssz::{DeserializeError, MerkleizationError, Node, SerializeError};
use crate::constants::PTC_SIZE;
use crate::primitives::{
    BLSPubkey, BLSSignature, BuilderIndex, Epoch, ExecutionAddress, Gwei, Root, Slot,
    ValidatorIndex,
};
use crate::ssz::List;

verus! {

/// A registered execution-payload builder.
#[derive(Default, Debug, Clone, Copy, PartialEq, Eq)]
pub struct Builder {
    /// Builder's BLS public key used to verify bid signatures.
    pub pubkey: BLSPubkey,
    /// Builder registry record version.
    pub version: u8,
    /// Execution-layer address that receives builder withdrawals.
    pub execution_address: ExecutionAddress,
    /// Builder's stake balance backing accepted bids.
    pub balance: Gwei,
    /// Epoch at which the builder was added to the registry.
    pub deposit_epoch: Epoch,
    /// Epoch the balance becomes withdrawable, or the far-future epoch while active.
    pub withdrawable_epoch: Epoch,
}

impl Builder {
    /// The SSZ encoding: the fields' encodings in order.
    pub open spec fn spec_ssz(self) -> Seq<u8> {
        self.pubkey.spec_ssz()
            + seq![self.version]
            + self.execution_address.spec_ssz()
            + self.balance.spec_ssz()
            + self.deposit_epoch.spec_ssz()
            + self.withdrawable_epoch.spec_ssz()
    }

    /// The hash-tree-roots of the fields in order.
    pub open spec fn spec_field_roots(self) -> Seq<Seq<u8>> {
        seq![
            self.pubkey.spec_root(),
            spec_u8_root(self.version),
            self.execution_address.spec_root(),
            self.balance.spec_root(),
            self.deposit_epoch.spec_root(),
            self.withdrawable_epoch.spec_root(),
        ]
    }

    /// The hash-tree-root: the merkle root of the field roots.
    pub open spec fn spec_root(self) -> Seq<u8> {
        spec_merkleize(self.spec_field_roots())
    }

    /// Whether `bytes` is the encoding of some value.
    pub open spec fn spec_valid_ssz(bytes: Seq<u8>) -> bool {
        bytes.len() == 93
    }

    /// A container is variable-size when any field is.
    pub fn is_variable_size() -> (r: bool)
        ensures
            !r,
    {
        BLSPubkey::is_variable_size()
            || u8_is_variable_size()
            || ExecutionAddress::is_variable_size()
            || Gwei::is_variable_size()
            || Epoch::is_variable_size()
            || Epoch::is_variable_size()
    }

    /// The encoded size: the sum of the field sizes.
    pub fn size_hint() -> (r: usize)
        ensures
            r == 93,
    {
        BLSPubkey::size_hint()
            + u8_size_hint()
            + ExecutionAddress::size_hint()
            + Gwei::size_hint()
            + Epoch::size_hint()
            + Epoch::size_hint()
    }

    /// Append the encoding of every field in order.
    pub fn serialize(&self, buffer: &mut Vec<u8>) -> (r: Result<usize, SerializeError>)
        ensures
            r == Ok::<usize, SerializeError>(93),
            final(buffer)@ == old(buffer)@ + self.spec_ssz(),
    {
        let _ = self.pubkey.serialize(buffer);
        let _ = serialize_u8(self.version, buffer);
        let _ = self.execution_address.serialize(buffer);
        let _ = self.balance.serialize(buffer);
        let _ = self.deposit_epoch.serialize(buffer);
        let _ = self.withdrawable_epoch.serialize(buffer);
        assert(buffer@ =~= old(buffer)@ + self.spec_ssz());
        Ok(93)
    }

    /// Decode every field from its fixed position in exactly 93 bytes.
    pub fn deserialize(encoding: &[u8]) -> (r: Result<Self, DeserializeError>)
        ensures
            r is Ok <==> Self::spec_valid_ssz(encoding@),
            r matches Ok(v) ==> v.spec_ssz() == encoding@,
            r matches Err(e) ==> e == length_error(encoding@.len() as usize, 93),
    {
        if encoding.len() != 93 {
            return Err(wrong_length(encoding.len(), 93));
        }
        let pubkey = BLSPubkey::deserialize(slice_subrange(encoding, 0, 48))?;
        let version = deserialize_u8(slice_subrange(encoding, 48, 49))?;
        let execution_address = ExecutionAddress::deserialize(slice_subrange(encoding, 49, 69))?;
        let balance = Gwei::deserialize(slice_subrange(encoding, 69, 77))?;
        let deposit_epoch = Epoch::deserialize(slice_subrange(encoding, 77, 85))?;
        let withdrawable_epoch = Epoch::deserialize(slice_subrange(encoding, 85, 93))?;
        let v = Builder { pubkey, version, execution_address, balance, deposit_epoch, withdrawable_epoch };
        proof {
            lemma_u64_from_le_roundtrip(encoding@.subrange(69, 77));
            lemma_u64_from_le_roundtrip(encoding@.subrange(77, 85));
            lemma_u64_from_le_roundtrip(encoding@.subrange(85, 93));
            assert(v.spec_ssz() =~= encoding@);
        }
        Ok(v)
    }

    /// The merkle root of the field roots.
    pub fn hash_tree_root(&self) -> (r: Result<Node, MerkleizationError>)
        ensures
            r matches Ok(n) && n.0@ == self.spec_root(),
    {
        let r0 = self.pubkey.hash_tree_root()?;
        let r1 = hash_tree_root_u8(self.version)?;
        let r2 = self.execution_address.hash_tree_root()?;
        let r3 = self.balance.hash_tree_root()?;
        let r4 = self.deposit_epoch.hash_tree_root()?;
        let r5 = self.withdrawable_epoch.hash_tree_root()?;
        let roots = [r0, r1, r2, r3, r4, r5];
        assert(roots_view(roots@) =~= self.spec_field_roots());
        Ok(merkleize_roots(roots.as_slice()))
    }

    /// A container is a composite type.
    pub fn is_composite_type() -> (r: bool)
        ensures
            r,
    {
        true
    }
}

/// The encoding of a `Builder` is 93 bytes long.
pub proof fn lemma_builder_ssz_len(x: Builder)
    ensures
        x.spec_ssz().len() == 93,
{

}

/// Distinct `Builder` values have distinct encodings.
pub proof fn lemma_builder_ssz_injective(a: Builder, b: Builder)
    requires
        a.spec_ssz() == b.spec_ssz(),
    ensures
        a == b,
{
    lemma_builder_ssz_len(a);
    assert(a.spec_ssz().subrange(0, 48) =~= a.pubkey.spec_ssz());
    assert(b.spec_ssz().subrange(0, 48) =~= b.pubkey.spec_ssz());
    assert(a.pubkey.0 =~= b.pubkey.0);
    assert(a.spec_ssz().subrange(48, 49) =~= seq![a.version]);
    assert(b.spec_ssz().subrange(48, 49) =~= seq![b.version]);
    assert(a.spec_ssz().subrange(48, 49)[0] == a.version);
    assert(b.spec_ssz().subrange(48, 49)[0] == b.version);
    assert(a.spec_ssz().subrange(49, 69) =~= a.execution_address.spec_ssz());
    assert(b.spec_ssz().subrange(49, 69) =~= b.execution_address.spec_ssz());
    assert(a.execution_address.0 =~= b.execution_address.0);
    assert(a.spec_ssz().subrange(69, 77) =~= a.balance.spec_ssz());
    assert(b.spec_ssz().subrange(69, 77) =~= b.balance.spec_ssz());
    lemma_u64_le_injective(a.balance.0, b.balance.0);
    assert(a.spec_ssz().subrange(77, 85) =~= a.deposit_epoch.spec_ssz());
    assert(b.spec_ssz().subrange(77, 85) =~= b.deposit_epoch.spec_ssz());
    lemma_u64_le_injective(a.deposit_epoch.0, b.deposit_epoch.0);
    assert(a.spec_ssz().subrange(85, 93) =~= a.withdrawable_epoch.spec_ssz());
    assert(b.spec_ssz().subrange(85, 93) =~= b.withdrawable_epoch.spec_ssz());
    lemma_u64_le_injective(a.withdrawable_epoch.0, b.withdrawable_epoch.0);
}

/// Encoding then decoding a `Builder` gives it back: its encoding is accepted
/// by the decoder, and no other value has the same encoding.
pub proof fn lemma_builder_ssz_roundtrip(x: Builder)
    ensures
        Builder::spec_valid_ssz(x.spec_ssz()),
        forall|y: Builder| #[trigger] y.spec_ssz() == x.spec_ssz() ==> y == x,
{
    lemma_builder_ssz_len(x);

    assert forall|y: Builder| #[trigger] y.spec_ssz() == x.spec_ssz() implies y == x by {
        lemma_builder_ssz_injective(y, x);
    }
}

/// A builder payment queued for the next withdrawal sweep.
#[derive(Default, Debug, Clone, Copy, PartialEq, Eq)]
pub struct BuilderPendingWithdrawal {
    /// Execution-layer address the payment is destined for.
    pub fee_recipient: ExecutionAddress,
    /// Amount the builder owes.
    pub amount: Gwei,
    /// Builder making the payment.
    pub builder_index: BuilderIndex,
}

impl BuilderPendingWithdrawal {
    /// The SSZ encoding: the fields' encodings in order.
    pub open spec fn spec_ssz(self) -> Seq<u8> {
        self.fee_recipient.spec_ssz()
            + self.amount.spec_ssz()
            + self.builder_index.spec_ssz()
    }

    /// The hash-tree-roots of the fields in order.
    pub open spec fn spec_field_roots(self) -> Seq<Seq<u8>> {
        seq![
            self.fee_recipient.spec_root(),
            self.amount.spec_root(),
            self.builder_index.spec_root(),
        ]
    }

    /// The hash-tree-root: the merkle root of the field roots.
    pub open spec fn spec_root(self) -> Seq<u8> {
        spec_merkleize(self.spec_field_roots())
    }

    /// Whether `bytes` is the encoding of some value.
    pub open spec fn spec_valid_ssz(bytes: Seq<u8>) -> bool {
        bytes.len() == 36
    }

    /// A container is variable-size when any field is.
    pub fn is_variable_size() -> (r: bool)
        ensures
            !r,
    {
        ExecutionAddress::is_variable_size()
            || Gwei::is_variable_size()
            || BuilderIndex::is_variable_size()
    }

    /// The encoded size: the sum of the field sizes.
    pub fn size_hint() -> (r: usize)
        ensures
            r == 36,
    {
        ExecutionAddress::size_hint()
            + Gwei::size_hint()
            + BuilderIndex::size_hint()
    }

    /// Append the encoding of every field in order.
    pub fn serialize(&self, buffer: &mut Vec<u8>) -> (r: Result<usize, SerializeError>)
        ensures
            r == Ok::<usize, SerializeError>(36),
            final(buffer)@ == old(buffer)@ + self.spec_ssz(),
    {
        let _ = self.fee_recipient.serialize(buffer);
        let _ = self.amount.serialize(buffer);
        let _ = self.builder_index.serialize(buffer);
        assert(buffer@ =~= old(buffer)@ + self.spec_ssz());
        Ok(36)
    }

    /// Decode every field from its fixed position in exactly 36 bytes.
    pub fn deserialize(encoding: &[u8]) -> (r: Result<Self, DeserializeError>)
        ensures
            r is Ok <==> Self::spec_valid_ssz(encoding@),
            r matches Ok(v) ==> v.spec_ssz() == encoding@,
            r matches Err(e) ==> e == length_error(encoding@.len() as usize, 36),
    {
        if encoding.len() != 36 {
            return Err(wrong_length(encoding.len(), 36));
        }
        let fee_recipient = ExecutionAddress::deserialize(slice_subrange(encoding, 0, 20))?;
        let amount = Gwei::deserialize(slice_subrange(encoding, 20, 28))?;
        let builder_index = BuilderIndex::deserialize(slice_subrange(encoding, 28, 36))?;
        let v = BuilderPendingWithdrawal { fee_recipient, amount, builder_index };
        proof {
            lemma_u64_from_le_roundtrip(encoding@.subrange(20, 28));
            lemma_u64_from_le_roundtrip(encoding@.subrange(28, 36));
            assert(v.spec_ssz() =~= encoding@);
        }
        Ok(v)
    }

    /// The merkle root of the field roots.
    pub fn hash_tree_root(&self) -> (r: Result<Node, MerkleizationError>)
        ensures
            r matches Ok(n) && n.0@ == self.spec_root(),
    {
        let r0 = self.fee_recipient.hash_tree_root()?;
        let r1 = self.amount.hash_tree_root()?;
        let r2 = self.builder_index.hash_tree_root()?;
        let roots = [r0, r1, r2];
        assert(roots_view(roots@) =~= self.spec_field_roots());
        Ok(merkleize_roots(roots.as_slice()))
    }

    /// A container is a composite type.
    pub fn is_composite_type() -> (r: bool)
        ensures
            r,
    {
        true
    }
}

/// The encoding of a `BuilderPendingWithdrawal` is 36 bytes long.
pub proof fn lemma_builder_pending_withdrawal_ssz_len(x: BuilderPendingWithdrawal)
    ensures
        x.spec_ssz().len() == 36,
{

}

/// Distinct `BuilderPendingWithdrawal` values have distinct encodings.
pub proof fn lemma_builder_pending_withdrawal_ssz_injective(a: BuilderPendingWithdrawal, b: BuilderPendingWithdrawal)
    requires
        a.spec_ssz() == b.spec_ssz(),
    ensures
        a == b,
{
    lemma_builder_pending_withdrawal_ssz_len(a);
    assert(a.spec_ssz().subrange(0, 20) =~= a.fee_recipient.spec_ssz());
    assert(b.spec_ssz().subrange(0, 20) =~= b.fee_recipient.spec_ssz());
    assert(a.fee_recipient.0 =~= b.fee_recipient.0);
    assert(a.spec_ssz().subrange(20, 28) =~= a.amount.spec_ssz());
    assert(b.spec_ssz().subrange(20, 28) =~= b.amount.spec_ssz());
    lemma_u64_le_injective(a.amount.0, b.amount.0);
    assert(a.spec_ssz().subrange(28, 36) =~= a.builder_index.spec_ssz());
    assert(b.spec_ssz().subrange(28, 36) =~= b.builder_index.spec_ssz());
    lemma_u64_le_injective(a.builder_index.0, b.builder_index.0);
}

/// Encoding then decoding a `BuilderPendingWithdrawal` gives it back: its encoding is accepted
/// by the decoder, and no other value has the same encoding.
pub proof fn lemma_builder_pending_withdrawal_ssz_roundtrip(x: BuilderPendingWithdrawal)
    ensures
        BuilderPendingWithdrawal::spec_valid_ssz(x.spec_ssz()),
        forall|y: BuilderPendingWithdrawal| #[trigger] y.spec_ssz() == x.spec_ssz() ==> y == x,
{
    lemma_builder_pending_withdrawal_ssz_len(x);

    assert forall|y: BuilderPendingWithdrawal| #[trigger] y.spec_ssz() == x.spec_ssz() implies y == x by {
        lemma_builder_pending_withdrawal_ssz_injective(y, x);
    }
}

/// A builder payment awaiting quorum or parent-payload settlement.
#[derive(Default, Debug, Clone, Copy, PartialEq, Eq)]
pub struct BuilderPendingPayment {
    /// Sum of committee members' effective balance weighting toward payment quorum.
    pub weight: Gwei,
    /// The payment obligation.
    pub withdrawal: BuilderPendingWithdrawal,
    /// Proposer that opened this payment.
    pub proposer_index: ValidatorIndex,
}

impl BuilderPendingPayment {
    /// The SSZ encoding: the fields' encodings in order.
    pub open spec fn spec_ssz(self) -> Seq<u8> {
        self.weight.spec_ssz()
            + self.withdrawal.spec_ssz()
            + self.proposer_index.spec_ssz()
    }

    /// The hash-tree-roots of the fields in order.
    pub open spec fn spec_field_roots(self) -> Seq<Seq<u8>> {
        seq![
            self.weight.spec_root(),
            self.withdrawal.spec_root(),
            self.proposer_index.spec_root(),
        ]
    }

    /// The hash-tree-root: the merkle root of the field roots.
    pub open spec fn spec_root(self) -> Seq<u8> {
        spec_merkleize(self.spec_field_roots())
    }

    /// Whether `bytes` is the encoding of some value.
    pub open spec fn spec_valid_ssz(bytes: Seq<u8>) -> bool {
        bytes.len() == 52
    }

    /// A container is variable-size when any field is.
    pub fn is_variable_size() -> (r: bool)
        ensures
            !r,
    {
        Gwei::is_variable_size()
            || BuilderPendingWithdrawal::is_variable_size()
            || ValidatorIndex::is_variable_size()
    }

    /// The encoded size: the sum of the field sizes.
    pub fn size_hint() -> (r: usize)
        ensures
            r == 52,
    {
        Gwei::size_hint()
            + BuilderPendingWithdrawal::size_hint()
            + ValidatorIndex::size_hint()
    }

    /// Append the encoding of every field in order.
    pub fn serialize(&self, buffer: &mut Vec<u8>) -> (r: Result<usize, SerializeError>)
        ensures
            r == Ok::<usize, SerializeError>(52),
            final(buffer)@ == old(buffer)@ + self.spec_ssz(),
    {
        let _ = self.weight.serialize(buffer);
        let _ = self.withdrawal.serialize(buffer);
        let _ = self.proposer_index.serialize(buffer);
        assert(buffer@ =~= old(buffer)@ + self.spec_ssz());
        Ok(52)
    }

    /// Decode every field from its fixed position in exactly 52 bytes.
    pub fn deserialize(encoding: &[u8]) -> (r: Result<Self, DeserializeError>)
        ensures
            r is Ok <==> Self::spec_valid_ssz(encoding@),
            r matches Ok(v) ==> v.spec_ssz() == encoding@,
            r matches Err(e) ==> e == length_error(encoding@.len() as usize, 52),
    {
        if encoding.len() != 52 {
            return Err(wrong_length(encoding.len(), 52));
        }
        let weight = Gwei::deserialize(slice_subrange(encoding, 0, 8))?;
        let withdrawal = BuilderPendingWithdrawal::deserialize(slice_subrange(encoding, 8, 44))?;
        let proposer_index = ValidatorIndex::deserialize(slice_subrange(encoding, 44, 52))?;
        let v = BuilderPendingPayment { weight, withdrawal, proposer_index };
        proof {
            lemma_u64_from_le_roundtrip(encoding@.subrange(0, 8));
            lemma_builder_pending_withdrawal_ssz_len(withdrawal);
            lemma_u64_from_le_roundtrip(encoding@.subrange(44, 52));
            assert(v.spec_ssz() =~= encoding@);
        }
        Ok(v)
    }

    /// The merkle root of the field roots.
    pub fn hash_tree_root(&self) -> (r: Result<Node, MerkleizationError>)
        ensures
            r matches Ok(n) && n.0@ == self.spec_root(),
    {
        let r0 = self.weight.hash_tree_root()?;
        let r1 = self.withdrawal.hash_tree_root()?;
        let r2 = self.proposer_index.hash_tree_root()?;
        let roots = [r0, r1, r2];
        assert(roots_view(roots@) =~= self.spec_field_roots());
        Ok(merkleize_roots(roots.as_slice()))
    }

    /// A container is a composite type.
    pub fn is_composite_type() -> (r: bool)
        ensures
            r,
    {
        true
    }
}

/// The encoding of a `BuilderPendingPayment` is 52 bytes long.
pub proof fn lemma_builder_pending_payment_ssz_len(x: BuilderPendingPayment)
    ensures
        x.spec_ssz().len() == 52,
{
    lemma_builder_pending_withdrawal_ssz_len(x.withdrawal);
}

/// Distinct `BuilderPendingPayment` values have distinct encodings.
pub proof fn lemma_builder_pending_payment_ssz_injective(a: BuilderPendingPayment, b: BuilderPendingPayment)
    requires
        a.spec_ssz() == b.spec_ssz(),
    ensures
        a == b,
{
    lemma_builder_pending_payment_ssz_len(a);
    lemma_builder_pending_withdrawal_ssz_len(a.withdrawal);
    lemma_builder_pending_withdrawal_ssz_len(b.withdrawal);
    assert(a.spec_ssz().subrange(0, 8) =~= a.weight.spec_ssz());
    assert(b.spec_ssz().subrange(0, 8) =~= b.weight.spec_ssz());
    lemma_u64_le_injective(a.weight.0, b.weight.0);
    assert(a.spec_ssz().subrange(8, 44) =~= a.withdrawal.spec_ssz());
    assert(b.spec_ssz().subrange(8, 44) =~= b.withdrawal.spec_ssz());
    lemma_builder_pending_withdrawal_ssz_injective(a.withdrawal, b.withdrawal);
    assert(a.spec_ssz().subrange(44, 52) =~= a.proposer_index.spec_ssz());
    assert(b.spec_ssz().subrange(44, 52) =~= b.proposer_index.spec_ssz());
    lemma_u64_le_injective(a.proposer_index.0, b.proposer_index.0);
}

/// Encoding then decoding a `BuilderPendingPayment` gives it back: its encoding is accepted
/// by the decoder, and no other value has the same encoding.
pub proof fn lemma_builder_pending_payment_ssz_roundtrip(x: BuilderPendingPayment)
    ensures
        BuilderPendingPayment::spec_valid_ssz(x.spec_ssz()),
        forall|y: BuilderPendingPayment| #[trigger] y.spec_ssz() == x.spec_ssz() ==> y == x,
{
    lemma_builder_pending_payment_ssz_len(x);

    assert forall|y: BuilderPendingPayment| #[trigger] y.spec_ssz() == x.spec_ssz() implies y == x by {
        lemma_builder_pending_payment_ssz_injective(y, x);
    }
}

/// A payload-timeliness committee vote about one block's payload.
#[derive(Default, Debug, Clone, Copy, PartialEq, Eq)]
pub struct PayloadAttestationData {
    /// Beacon block root the payload is associated with.
    pub beacon_block_root: Root,
    /// Slot the attestation is for.
    pub slot: Slot,
    /// True if the payload was seen on time, before its due time in the slot.
    pub payload_present: bool,
    /// True if blob data was observed alongside the payload.
    pub blob_data_available: bool,
}

impl PayloadAttestationData {
    /// The SSZ encoding: the fields' encodings in order.
    pub open spec fn spec_ssz(self) -> Seq<u8> {
        self.beacon_block_root.spec_ssz()
            + self.slot.spec_ssz()
            + seq![bool_byte(self.payload_present)]
            + seq![bool_byte(self.blob_data_available)]
    }

    /// The hash-tree-roots of the fields in order.
    pub open spec fn spec_field_roots(self) -> Seq<Seq<u8>> {
        seq![
            self.beacon_block_root.spec_root(),
            self.slot.spec_root(),
            spec_bool_root(self.payload_present),
            spec_bool_root(self.blob_data_available),
        ]
    }

    /// The hash-tree-root: the merkle root of the field roots.
    pub open spec fn spec_root(self) -> Seq<u8> {
        spec_merkleize(self.spec_field_roots())
    }

    /// Whether `bytes` is the encoding of some value.
    pub open spec fn spec_valid_ssz(bytes: Seq<u8>) -> bool {
        bytes.len() == 42
        && bytes[40] <= 1
        && bytes[41] <= 1
    }

    /// A container is variable-size when any field is.
    pub fn is_variable_size() -> (r: bool)
        ensures
            !r,
    {
        Root::is_variable_size()
            || Slot::is_variable_size()
            || u8_is_variable_size()
            || u8_is_variable_size()
    }

    /// The encoded size: the sum of the field sizes.
    pub fn size_hint() -> (r: usize)
        ensures
            r == 42,
    {
        Root::size_hint()
            + Slot::size_hint()
            + u8_size_hint()
            + u8_size_hint()
    }

    /// Append the encoding of every field in order.
    pub fn serialize(&self, buffer: &mut Vec<u8>) -> (r: Result<usize, SerializeError>)
        ensures
            r == Ok::<usize, SerializeError>(42),
            final(buffer)@ == old(buffer)@ + self.spec_ssz(),
    {
        let _ = self.beacon_block_root.serialize(buffer);
        let _ = self.slot.serialize(buffer);
        let _ = serialize_bool(self.payload_present, buffer);
        let _ = serialize_bool(self.blob_data_available, buffer);
        assert(buffer@ =~= old(buffer)@ + self.spec_ssz());
        Ok(42)
    }

    /// Decode every field from its fixed position in exactly 42 bytes.
    pub fn deserialize(encoding: &[u8]) -> (r: Result<Self, DeserializeError>)
        ensures
            r is Ok <==> Self::spec_valid_ssz(encoding@),
            r matches Ok(v) ==> v.spec_ssz() == encoding@,
            r matches Err(e) ==> (encoding@.len() != 42 ==> e == length_error(encoding@.len() as usize, 42))
                && (encoding@.len() == 42 ==> e is InvalidByte),
    {
        if encoding.len() != 42 {
            return Err(wrong_length(encoding.len(), 42));
        }
        let beacon_block_root = Root::deserialize(slice_subrange(encoding, 0, 32))?;
        let slot = Slot::deserialize(slice_subrange(encoding, 32, 40))?;
        let payload_present = deserialize_bool(slice_subrange(encoding, 40, 41))?;
        let blob_data_available = deserialize_bool(slice_subrange(encoding, 41, 42))?;
        let v = PayloadAttestationData { beacon_block_root, slot, payload_present, blob_data_available };
        proof {
            lemma_u64_from_le_roundtrip(encoding@.subrange(32, 40));
            assert(v.spec_ssz() =~= encoding@);
        }
        Ok(v)
    }

    /// The merkle root of the field roots.
    pub fn hash_tree_root(&self) -> (r: Result<Node, MerkleizationError>)
        ensures
            r matches Ok(n) && n.0@ == self.spec_root(),
    {
        let r0 = self.beacon_block_root.hash_tree_root()?;
        let r1 = self.slot.hash_tree_root()?;
        let r2 = hash_tree_root_bool(self.payload_present)?;
        let r3 = hash_tree_root_bool(self.blob_data_available)?;
        let roots = [r0, r1, r2, r3];
        assert(roots_view(roots@) =~= self.spec_field_roots());
        Ok(merkleize_roots(roots.as_slice()))
    }

    /// A container is a composite type.
    pub fn is_composite_type() -> (r: bool)
        ensures
            r,
    {
        true
    }
}

/// The encoding of a `PayloadAttestationData` is 42 bytes long.
pub proof fn lemma_payload_attestation_data_ssz_len(x: PayloadAttestationData)
    ensures
        x.spec_ssz().len() == 42,
{

}

/// Distinct `PayloadAttestationData` values have distinct encodings.
pub proof fn lemma_payload_attestation_data_ssz_injective(a: PayloadAttestationData, b: PayloadAttestationData)
    requires
        a.spec_ssz() == b.spec_ssz(),
    ensures
        a == b,
{
    lemma_payload_attestation_data_ssz_len(a);
    assert(a.spec_ssz().subrange(0, 32) =~= a.beacon_block_root.spec_ssz());
    assert(b.spec_ssz().subrange(0, 32) =~= b.beacon_block_root.spec_ssz());
    assert(a.beacon_block_root.0 =~= b.beacon_block_root.0);
    assert(a.spec_ssz().subrange(32, 40) =~= a.slot.spec_ssz());
    assert(b.spec_ssz().subrange(32, 40) =~= b.slot.spec_ssz());
    lemma_u64_le_injective(a.slot.0, b.slot.0);
    assert(a.spec_ssz().subrange(40, 41) =~= seq![bool_byte(a.payload_present)]);
    assert(b.spec_ssz().subrange(40, 41) =~= seq![bool_byte(b.payload_present)]);
    assert(a.spec_ssz().subrange(40, 41)[0] == bool_byte(a.payload_present));
    assert(b.spec_ssz().subrange(40, 41)[0] == bool_byte(b.payload_present));
    assert(a.spec_ssz().subrange(41, 42) =~= seq![bool_byte(a.blob_data_available)]);
    assert(b.spec_ssz().subrange(41, 42) =~= seq![bool_byte(b.blob_data_available)]);
    assert(a.spec_ssz().subrange(41, 42)[0] == bool_byte(a.blob_data_available));
    assert(b.spec_ssz().subrange(41, 42)[0] == bool_byte(b.blob_data_available));
}

/// Encoding then decoding a `PayloadAttestationData` gives it back: its encoding is accepted
/// by the decoder, and no other value has the same encoding.
pub proof fn lemma_payload_attestation_data_ssz_roundtrip(x: PayloadAttestationData)
    ensures
        PayloadAttestationData::spec_valid_ssz(x.spec_ssz()),
        forall|y: PayloadAttestationData| #[trigger] y.spec_ssz() == x.spec_ssz() ==> y == x,
{
    lemma_payload_attestation_data_ssz_len(x);

    assert forall|y: PayloadAttestationData| #[trigger] y.spec_ssz() == x.spec_ssz() implies y == x by {
        lemma_payload_attestation_data_ssz_injective(y, x);
    }
}

/// An aggregate of payload-timeliness committee votes.
#[derive(Debug, Clone, Copy, PartialEq, Eq)]
pub struct PayloadAttestation {
    /// Bit per committee position (packed little-endian), set if that position's signature is included.
    pub aggregation_bits: [u8; 64],
    /// The shared vote.
    pub data: PayloadAttestationData,
    /// Aggregate signature over `data`.
    pub signature: BLSSignature,
}

impl PayloadAttestation {
    /// The SSZ encoding: the fields' encodings in order.
    pub open spec fn spec_ssz(self) -> Seq<u8> {
        self.aggregation_bits@
            + self.data.spec_ssz()
            + self.signature.spec_ssz()
    }

    /// The hash-tree-roots of the fields in order.
    pub open spec fn spec_field_roots(self) -> Seq<Seq<u8>> {
        seq![
            spec_merkleize_bytes(self.aggregation_bits@),
            self.data.spec_root(),
            self.signature.spec_root(),
        ]
    }

    /// The hash-tree-root: the merkle root of the field roots.
    pub open spec fn spec_root(self) -> Seq<u8> {
        spec_merkleize(self.spec_field_roots())
    }

    /// Whether `bytes` is the encoding of some value.
    pub open spec fn spec_valid_ssz(bytes: Seq<u8>) -> bool {
        bytes.len() == 202
        && PayloadAttestationData::spec_valid_ssz(bytes.subrange(64, 106))
    }

    /// A container is variable-size when any field is.
    pub fn is_variable_size() -> (r: bool)
        ensures
            !r,
    {
        bytes_is_variable_size::<64>()
            || PayloadAttestationData::is_variable_size()
            || BLSSignature::is_variable_size()
    }

    /// The encoded size: the sum of the field sizes.
    pub fn size_hint() -> (r: usize)
        ensures
            r == 202,
    {
        bytes_size_hint::<64>()
            + PayloadAttestationData::size_hint()
            + BLSSignature::size_hint()
    }

    /// Append the encoding of every field in order.
    pub fn serialize(&self, buffer: &mut Vec<u8>) -> (r: Result<usize, SerializeError>)
        ensures
            r == Ok::<usize, SerializeError>(202),
            final(buffer)@ == old(buffer)@ + self.spec_ssz(),
    {
        let _ = serialize_bytes(&self.aggregation_bits, buffer);
        let _ = self.data.serialize(buffer);
        let _ = self.signature.serialize(buffer);
        assert(buffer@ =~= old(buffer)@ + self.spec_ssz());
        Ok(202)
    }

    /// Decode every field from its fixed position in exactly 202 bytes.
    pub fn deserialize(encoding: &[u8]) -> (r: Result<Self, DeserializeError>)
        ensures
            r is Ok <==> Self::spec_valid_ssz(encoding@),
            r matches Ok(v) ==> v.spec_ssz() == encoding@,
            r matches Err(e) ==> (encoding@.len() != 202 ==> e == length_error(encoding@.len() as usize, 202))
                && (encoding@.len() == 202 ==> e is InvalidByte),
    {
        if encoding.len() != 202 {
            return Err(wrong_length(encoding.len(), 202));
        }
        let aggregation_bits = deserialize_bytes::<64>(slice_subrange(encoding, 0, 64))?;
        let data = PayloadAttestationData::deserialize(slice_subrange(encoding, 64, 106))?;
        let signature = BLSSignature::deserialize(slice_subrange(encoding, 106, 202))?;
        let v = PayloadAttestation { aggregation_bits, data, signature };
        proof {
            lemma_payload_attestation_data_ssz_len(data);
            assert(v.spec_ssz() =~= encoding@);
        }
        Ok(v)
    }

    /// The merkle root of the field roots.
    pub fn hash_tree_root(&self) -> (r: Result<Node, MerkleizationError>)
        ensures
            r matches Ok(n) && n.0@ == self.spec_root(),
    {
        let r0 = hash_tree_root_bytes(&self.aggregation_bits)?;
        let r1 = self.data.hash_tree_root()?;
        let r2 = self.signature.hash_tree_root()?;
        let roots = [r0, r1, r2];
        assert(roots_view(roots@) =~= self.spec_field_roots());
        Ok(merkleize_roots(roots.as_slice()))
    }

    /// A container is a composite type.
    pub fn is_composite_type() -> (r: bool)
        ensures
            r,
    {
        true
    }
}

/// The encoding of a `PayloadAttestation` is 202 bytes long.
pub proof fn lemma_payload_attestation_ssz_len(x: PayloadAttestation)
    ensures
        x.spec_ssz().len() == 202,
{
    lemma_payload_attestation_data_ssz_len(x.data);
}

/// Distinct `PayloadAttestation` values have distinct encodings.
pub proof fn lemma_payload_attestation_ssz_injective(a: PayloadAttestation, b: PayloadAttestation)
    requires
        a.spec_ssz() == b.spec_ssz(),
    ensures
        a == b,
{
    lemma_payload_attestation_ssz_len(a);
    lemma_payload_attestation_data_ssz_len(a.data);
    lemma_payload_attestation_data_ssz_len(b.data);
    assert(a.spec_ssz().subrange(0, 64) =~= a.aggregation_bits@);
    assert(b.spec_ssz().subrange(0, 64) =~= b.aggregation_bits@);
    assert(a.aggregation_bits =~= b.aggregation_bits);
    assert(a.spec_ssz().subrange(64, 106) =~= a.data.spec_ssz());
    assert(b.spec_ssz().subrange(64, 106) =~= b.data.spec_ssz());
    lemma_payload_attestation_data_ssz_injective(a.data, b.data);
    assert(a.spec_ssz().subrange(106, 202) =~= a.signature.spec_ssz());
    assert(b.spec_ssz().subrange(106, 202) =~= b.signature.spec_ssz());
    assert(a.signature.0 =~= b.signature.0);
}

/// Encoding then decoding a `PayloadAttestation` gives it back: its encoding is accepted
/// by the decoder, and no other value has the same encoding.
pub proof fn lemma_payload_attestation_ssz_roundtrip(x: PayloadAttestation)
    ensures
        PayloadAttestation::spec_valid_ssz(x.spec_ssz()),
        forall|y: PayloadAttestation| #[trigger] y.spec_ssz() == x.spec_ssz() ==> y == x,
{
    lemma_payload_attestation_ssz_len(x);
    lemma_payload_attestation_data_ssz_roundtrip(x.data);
    assert(x.spec_ssz().subrange(64, 106) =~= x.data.spec_ssz());
    assert forall|y: PayloadAttestation| #[trigger] y.spec_ssz() == x.spec_ssz() implies y == x by {
        lemma_payload_attestation_ssz_injective(y, x);
    }
}

/// One committee member's payload-timeliness vote as gossiped.
#[derive(Default, Debug, Clone, Copy, PartialEq, Eq)]
pub struct PayloadAttestationMessage {
    /// Committee member that produced the vote.
    pub validator_index: ValidatorIndex,
    /// The vote.
    pub data: PayloadAttestationData,
    /// Member's signature over `data`.
    pub signature: BLSSignature,
}

impl PayloadAttestationMessage {
    /// The SSZ encoding: the fields' encodings in order.
    pub open spec fn spec_ssz(self) -> Seq<u8> {
        self.validator_index.spec_ssz()
            + self.data.spec_ssz()
            + self.signature.spec_ssz()
    }

    /// The hash-tree-roots of the fields in order.
    pub open spec fn spec_field_roots(self) -> Seq<Seq<u8>> {
        seq![
            self.validator_index.spec_root(),
            self.data.spec_root(),
            self.signature.spec_root(),
        ]
    }

    /// The hash-tree-root: the merkle root of the field roots.
    pub open spec fn spec_root(self) -> Seq<u8> {
        spec_merkleize(self.spec_field_roots())
    }

    /// Whether `bytes` is the encoding of some value.
    pub open spec fn spec_valid_ssz(bytes: Seq<u8>) -> bool {
        bytes.len() == 146
        && PayloadAttestationData::spec_valid_ssz(bytes.subrange(8, 50))
    }

    /// A container is variable-size when any field is.
    pub fn is_variable_size() -> (r: bool)
        ensures
            !r,
    {
        ValidatorIndex::is_variable_size()
            || PayloadAttestationData::is_variable_size()
            || BLSSignature::is_variable_size()
    }

    /// The encoded size: the sum of the field sizes.
    pub fn size_hint() -> (r: usize)
        ensures
            r == 146,
    {
        ValidatorIndex::size_hint()
            + PayloadAttestationData::size_hint()
            + BLSSignature::size_hint()
    }

    /// Append the encoding of every field in order.
    pub fn serialize(&self, buffer: &mut Vec<u8>) -> (r: Result<usize, SerializeError>)
        ensures
            r == Ok::<usize, SerializeError>(146),
            final(buffer)@ == old(buffer)@ + self.spec_ssz(),
    {
        let _ = self.validator_index.serialize(buffer);
        let _ = self.data.serialize(buffer);
        let _ = self.signature.serialize(buffer);
        assert(buffer@ =~= old(buffer)@ + self.spec_ssz());
        Ok(146)
    }

    /// Decode every field from its fixed position in exactly 146 bytes.
    pub fn deserialize(encoding: &[u8]) -> (r: Result<Self, DeserializeError>)
        ensures
            r is Ok <==> Self::spec_valid_ssz(encoding@),
            r matches Ok(v) ==> v.spec_ssz() == encoding@,
            r matches Err(e) ==> (encoding@.len() != 146 ==> e == length_error(encoding@.len() as usize, 146))
                && (encoding@.len() == 146 ==> e is InvalidByte),
    {
        if encoding.len() != 146 {
            return Err(wrong_length(encoding.len(), 146));
        }
        let validator_index = ValidatorIndex::deserialize(slice_subrange(encoding, 0, 8))?;
        let data = PayloadAttestationData::deserialize(slice_subrange(encoding, 8, 50))?;
        let signature = BLSSignature::deserialize(slice_subrange(encoding, 50, 146))?;
        let v = PayloadAttestationMessage { validator_index, data, signature };
        proof {
            lemma_u64_from_le_roundtrip(encoding@.subrange(0, 8));
            lemma_payload_attestation_data_ssz_len(data);
            assert(v.spec_ssz() =~= encoding@);
        }
        Ok(v)
    }

    /// The merkle root of the field roots.
    pub fn hash_tree_root(&self) -> (r: Result<Node, MerkleizationError>)
        ensures
            r matches Ok(n) && n.0@ == self.spec_root(),
    {
        let r0 = self.validator_index.hash_tree_root()?;
        let r1 = self.data.hash_tree_root()?;
        let r2 = self.signature.hash_tree_root()?;
        let roots = [r0, r1, r2];
        assert(roots_view(roots@) =~= self.spec_field_roots());
        Ok(merkleize_roots(roots.as_slice()))
    }

    /// A container is a composite type.
    pub fn is_composite_type() -> (r: bool)
        ensures
            r,
    {
        true
    }
}

/// The encoding of a `PayloadAttestationMessage` is 146 bytes long.
pub proof fn lemma_payload_attestation_message_ssz_len(x: PayloadAttestationMessage)
    ensures
        x.spec_ssz().len() == 146,
{
    lemma_payload_attestation_data_ssz_len(x.data);
}

/// Distinct `PayloadAttestationMessage` values have distinct encodings.
pub proof fn lemma_payload_attestation_message_ssz_injective(a: PayloadAttestationMessage, b: PayloadAttestationMessage)
    requires
        a.spec_ssz() == b.spec_ssz(),
    ensures
        a == b,
{
    lemma_payload_attestation_message_ssz_len(a);
    lemma_payload_attestation_data_ssz_len(a.data);
    lemma_payload_attestation_data_ssz_len(b.data);
    assert(a.spec_ssz().subrange(0, 8) =~= a.validator_index.spec_ssz());
    assert(b.spec_ssz().subrange(0, 8) =~= b.validator_index.spec_ssz());
    lemma_u64_le_injective(a.validator_index.0, b.validator_index.0);
    assert(a.spec_ssz().subrange(8, 50) =~= a.data.spec_ssz());
    assert(b.spec_ssz().subrange(8, 50) =~= b.data.spec_ssz());
    lemma_payload_attestation_data_ssz_injective(a.data, b.data);
    assert(a.spec_ssz().subrange(50, 146) =~= a.signature.spec_ssz());
    assert(b.spec_ssz().subrange(50, 146) =~= b.signature.spec_ssz());
    assert(a.signature.0 =~= b.signature.0);
}

/// Encoding then decoding a `PayloadAttestationMessage` gives it back: its encoding is accepted
/// by the decoder, and no other value has the same encoding.
pub proof fn lemma_payload_attestation_message_ssz_roundtrip(x: PayloadAttestationMessage)
    ensures
        PayloadAttestationMessage::spec_valid_ssz(x.spec_ssz()),
        forall|y: PayloadAttestationMessage| #[trigger] y.spec_ssz() == x.spec_ssz() ==> y == x,
{
    lemma_payload_attestation_message_ssz_len(x);
    lemma_payload_attestation_data_ssz_roundtrip(x.data);
    assert(x.spec_ssz().subrange(8, 50) =~= x.data.spec_ssz());
    assert forall|y: PayloadAttestationMessage| #[trigger] y.spec_ssz() == x.spec_ssz() implies y == x by {
        lemma_payload_attestation_message_ssz_injective(y, x);
    }
}

/// A payload-timeliness aggregate with its attesters listed by validator index.
#[derive(Debug, Clone)]
pub struct IndexedPayloadAttestation {
    /// Sorted indices of committee members that attested.
    pub attesting_indices: List<ValidatorIndex, PTC_SIZE>,
    /// The shared vote.
    pub data: PayloadAttestationData,
    /// Aggregate signature.
    pub signature: BLSSignature,
}

} // verus!
