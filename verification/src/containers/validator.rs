//! Validator registry records and the registry's pending queues.
use vstd::prelude::*;
use vstd::slice::slice_subrange;

use crate::ssz::basic::{
    bool_byte, bytes_is_variable_size, bytes_size_hint, deserialize_bool, deserialize_bytes,
    deserialize_u64, deserialize_u8, hash_tree_root_bool, hash_tree_root_bytes,
    hash_tree_root_u64, hash_tree_root_u8, lemma_u64_from_le_roundtrip, lemma_u64_le_injective,
    serialize_bool, serialize_bytes, serialize_u64, serialize_u8, spec_bool_root,
    spec_u64_le, spec_u64_root, spec_u8_root, u64_is_variable_size, u64_size_hint,
    u8_is_variable_size, u8_size_hint,
};
use crate::ssz::error::{length_error, wrong_length};
use crate::ssz::merkle::{merkleize_roots, roots_view, spec_merkleize, spec_merkleize_bytes};
use crate::ssz::{DeserializeError, MerkleizationError, Node, SerializeError};
use crate::primitives::{BLSPubkey, BLSSignature, Epoch, Gwei, Slot, ValidatorIndex};

verus! {

/// A validator registry record.
#[derive(Default, Debug, Clone, Copy, PartialEq, Eq)]
pub struct Validator {
    /// BLS public key used to verify the validator's signatures.
    pub pubkey: BLSPubkey,
    /// 32-byte credential whose leading byte selects the withdrawal-credential variant.
    pub withdrawal_credentials: [u8; 32],
    /// Quantized balance contributing to weight, voting power, and base-reward math.
    pub effective_balance: Gwei,
    /// True once the validator has been successfully slashed.
    pub slashed: bool,
    /// Epoch at which the validator became eligible to enter the activation queue.
    pub activation_eligibility_epoch: Epoch,
    /// Epoch at which the validator became active.
    pub activation_epoch: Epoch,
    /// Epoch at which the validator exited (or the far-future epoch if not exited).
    pub exit_epoch: Epoch,
    /// Epoch at which the balance becomes withdrawable.
    pub withdrawable_epoch: Epoch,
}

impl Validator {
    /// The SSZ encoding: the fields' encodings in order.
    pub open spec fn spec_ssz(self) -> Seq<u8> {
        self.pubkey.spec_ssz()
            + self.withdrawal_credentials@
            + self.effective_balance.spec_ssz()
            + seq![bool_byte(self.slashed)]
            + self.activation_eligibility_epoch.spec_ssz()
            + self.activation_epoch.spec_ssz()
            + self.exit_epoch.spec_ssz()
            + self.withdrawable_epoch.spec_ssz()
    }

    /// The hash-tree-roots of the fields in order.
    pub open spec fn spec_field_roots(self) -> Seq<Seq<u8>> {
        seq![
            self.pubkey.spec_root(),
            spec_merkleize_bytes(self.withdrawal_credentials@),
            self.effective_balance.spec_root(),
            spec_bool_root(self.slashed),
            self.activation_eligibility_epoch.spec_root(),
            self.activation_epoch.spec_root(),
            self.exit_epoch.spec_root(),
            self.withdrawable_epoch.spec_root(),
        ]
    }

    /// The hash-tree-root: the merkle root of the field roots.
    pub open spec fn spec_root(self) -> Seq<u8> {
        spec_merkleize(self.spec_field_roots())
    }

    /// Whether `bytes` is the encoding of some value.
    pub open spec fn spec_valid_ssz(bytes: Seq<u8>) -> bool {
        bytes.len() == 121
        && bytes[88] <= 1
    }

    /// A container is variable-size when any field is.
    pub fn is_variable_size() -> (r: bool)
        ensures
            !r,
    {
        BLSPubkey::is_variable_size()
            || bytes_is_variable_size::<32>()
            || Gwei::is_variable_size()
            || u8_is_variable_size()
            || Epoch::is_variable_size()
            || Epoch::is_variable_size()
            || Epoch::is_variable_size()
            || Epoch::is_variable_size()
    }

    /// The encoded size: the sum of the field sizes.
    pub fn size_hint() -> (r: usize)
        ensures
            r == 121,
    {
        BLSPubkey::size_hint()
            + bytes_size_hint::<32>()
            + Gwei::size_hint()
            + u8_size_hint()
            + Epoch::size_hint()
            + Epoch::size_hint()
            + Epoch::size_hint()
            + Epoch::size_hint()
    }

    /// Append the encoding of every field in order.
    pub fn serialize(&self, buffer: &mut Vec<u8>) -> (r: Result<usize, SerializeError>)
        ensures
            r == Ok::<usize, SerializeError>(121),
            final(buffer)@ == old(buffer)@ + self.spec_ssz(),
    {
        let _ = self.pubkey.serialize(buffer);
        let _ = serialize_bytes(&self.withdrawal_credentials, buffer);
        let _ = self.effective_balance.serialize(buffer);
        let _ = serialize_bool(self.slashed, buffer);
        let _ = self.activation_eligibility_epoch.serialize(buffer);
        let _ = self.activation_epoch.serialize(buffer);
        let _ = self.exit_epoch.serialize(buffer);
        let _ = self.withdrawable_epoch.serialize(buffer);
        assert(buffer@ =~= old(buffer)@ + self.spec_ssz());
        Ok(121)
    }

    /// Decode every field from its fixed position in exactly 121 bytes.
    pub fn deserialize(encoding: &[u8]) -> (r: Result<Self, DeserializeError>)
        ensures
            r is Ok <==> Self::spec_valid_ssz(encoding@),
            r matches Ok(v) ==> v.spec_ssz() == encoding@,
            r matches Err(e) ==> (encoding@.len() != 121 ==> e == length_error(encoding@.len() as usize, 121))
                && (encoding@.len() == 121 ==> e is InvalidByte),
    {
        if encoding.len() != 121 {
            return Err(wrong_length(encoding.len(), 121));
        }
        let pubkey = BLSPubkey::deserialize(slice_subrange(encoding, 0, 48))?;
        let withdrawal_credentials = deserialize_bytes::<32>(slice_subrange(encoding, 48, 80))?;
        let effective_balance = Gwei::deserialize(slice_subrange(encoding, 80, 88))?;
        let slashed = deserialize_bool(slice_subrange(encoding, 88, 89))?;
        let activation_eligibility_epoch = Epoch::deserialize(slice_subrange(encoding, 89, 97))?;
        let activation_epoch = Epoch::deserialize(slice_subrange(encoding, 97, 105))?;
        let exit_epoch = Epoch::deserialize(slice_subrange(encoding, 105, 113))?;
        let withdrawable_epoch = Epoch::deserialize(slice_subrange(encoding, 113, 121))?;
        let v = Validator { pubkey, withdrawal_credentials, effective_balance, slashed, activation_eligibility_epoch, activation_epoch, exit_epoch, withdrawable_epoch };
        proof {
            lemma_u64_from_le_roundtrip(encoding@.subrange(80, 88));
            lemma_u64_from_le_roundtrip(encoding@.subrange(89, 97));
            lemma_u64_from_le_roundtrip(encoding@.subrange(97, 105));
            lemma_u64_from_le_roundtrip(encoding@.subrange(105, 113));
            lemma_u64_from_le_roundtrip(encoding@.subrange(113, 121));
            assert(v.spec_ssz() =~= encoding@);
        }
        Ok(v)
    }

    /// The merkle root of the field roots.
    pub fn hash_tree_root(&self) -> (r: Result<Node, MerkleizationError>)
        ensures
            r matches Ok(n) && n.0@ == self.spec_root(),
    {
        let r0 = self.pubkey.hash_tree_root()?;
        let r1 = hash_tree_root_bytes(&self.withdrawal_credentials)?;
        let r2 = self.effective_balance.hash_tree_root()?;
        let r3 = hash_tree_root_bool(self.slashed)?;
        let r4 = self.activation_eligibility_epoch.hash_tree_root()?;
        let r5 = self.activation_epoch.hash_tree_root()?;
        let r6 = self.exit_epoch.hash_tree_root()?;
        let r7 = self.withdrawable_epoch.hash_tree_root()?;
        let roots = [r0, r1, r2, r3, r4, r5, r6, r7];
        assert(roots_view(roots@) =~= self.spec_field_roots());
        Ok(merkleize_roots(roots.as_slice()))
    }

    /// A container is a composite type.
    pub fn is_composite_type() -> (r: bool)
        ensures
            r,
    {
        true
    }
}

/// The encoding of a `Validator` is 121 bytes long.
pub proof fn lemma_validator_ssz_len(x: Validator)
    ensures
        x.spec_ssz().len() == 121,
{

}

/// Distinct `Validator` values have distinct encodings.
pub proof fn lemma_validator_ssz_injective(a: Validator, b: Validator)
    requires
        a.spec_ssz() == b.spec_ssz(),
    ensures
        a == b,
{
    lemma_validator_ssz_len(a);
    assert(a.spec_ssz().subrange(0, 48) =~= a.pubkey.spec_ssz());
    assert(b.spec_ssz().subrange(0, 48) =~= b.pubkey.spec_ssz());
    assert(a.pubkey.0 =~= b.pubkey.0);
    assert(a.spec_ssz().subrange(48, 80) =~= a.withdrawal_credentials@);
    assert(b.spec_ssz().subrange(48, 80) =~= b.withdrawal_credentials@);
    assert(a.withdrawal_credentials =~= b.withdrawal_credentials);
    assert(a.spec_ssz().subrange(80, 88) =~= a.effective_balance.spec_ssz());
    assert(b.spec_ssz().subrange(80, 88) =~= b.effective_balance.spec_ssz());
    lemma_u64_le_injective(a.effective_balance.0, b.effective_balance.0);
    assert(a.spec_ssz().subrange(88, 89) =~= seq![bool_byte(a.slashed)]);
    assert(b.spec_ssz().subrange(88, 89) =~= seq![bool_byte(b.slashed)]);
    assert(a.spec_ssz().subrange(88, 89)[0] == bool_byte(a.slashed));
    assert(b.spec_ssz().subrange(88, 89)[0] == bool_byte(b.slashed));
    assert(a.spec_ssz().subrange(89, 97) =~= a.activation_eligibility_epoch.spec_ssz());
    assert(b.spec_ssz().subrange(89, 97) =~= b.activation_eligibility_epoch.spec_ssz());
    lemma_u64_le_injective(a.activation_eligibility_epoch.0, b.activation_eligibility_epoch.0);
    assert(a.spec_ssz().subrange(97, 105) =~= a.activation_epoch.spec_ssz());
    assert(b.spec_ssz().subrange(97, 105) =~= b.activation_epoch.spec_ssz());
    lemma_u64_le_injective(a.activation_epoch.0, b.activation_epoch.0);
    assert(a.spec_ssz().subrange(105, 113) =~= a.exit_epoch.spec_ssz());
    assert(b.spec_ssz().subrange(105, 113) =~= b.exit_epoch.spec_ssz());
    lemma_u64_le_injective(a.exit_epoch.0, b.exit_epoch.0);
    assert(a.spec_ssz().subrange(113, 121) =~= a.withdrawable_epoch.spec_ssz());
    assert(b.spec_ssz().subrange(113, 121) =~= b.withdrawable_epoch.spec_ssz());
    lemma_u64_le_injective(a.withdrawable_epoch.0, b.withdrawable_epoch.0);
}

/// Encoding then decoding a `Validator` gives it back: its encoding is accepted
/// by the decoder, and no other value has the same encoding.
pub proof fn lemma_validator_ssz_roundtrip(x: Validator)
    ensures
        Validator::spec_valid_ssz(x.spec_ssz()),
        forall|y: Validator| #[trigger] y.spec_ssz() == x.spec_ssz() ==> y == x,
{
    lemma_validator_ssz_len(x);

    assert forall|y: Validator| #[trigger] y.spec_ssz() == x.spec_ssz() implies y == x by {
        lemma_validator_ssz_injective(y, x);
    }
}

/// A deposit awaiting signature verification and activation.
#[derive(Default, Debug, Clone, Copy, PartialEq, Eq)]
pub struct PendingDeposit {
    /// Depositing validator's public key.
    pub pubkey: BLSPubkey,
    /// Withdrawal credential the deposit binds the validator to.
    pub withdrawal_credentials: [u8; 32],
    /// Deposit amount.
    pub amount: Gwei,
    /// Signature over the deposit message, checked when the deposit is processed.
    pub signature: BLSSignature,
    /// Slot the deposit was observed in.
    pub slot: Slot,
}

impl PendingDeposit {
    /// The SSZ encoding: the fields' encodings in order.
    pub open spec fn spec_ssz(self) -> Seq<u8> {
        self.pubkey.spec_ssz()
            + self.withdrawal_credentials@
            + self.amount.spec_ssz()
            + self.signature.spec_ssz()
            + self.slot.spec_ssz()
    }

    /// The hash-tree-roots of the fields in order.
    pub open spec fn spec_field_roots(self) -> Seq<Seq<u8>> {
        seq![
            self.pubkey.spec_root(),
            spec_merkleize_bytes(self.withdrawal_credentials@),
            self.amount.spec_root(),
            self.signature.spec_root(),
            self.slot.spec_root(),
        ]
    }

    /// The hash-tree-root: the merkle root of the field roots.
    pub open spec fn spec_root(self) -> Seq<u8> {
        spec_merkleize(self.spec_field_roots())
    }

    /// Whether `bytes` is the encoding of some value.
    pub open spec fn spec_valid_ssz(bytes: Seq<u8>) -> bool {
        bytes.len() == 192
    }

    /// A container is variable-size when any field is.
    pub fn is_variable_size() -> (r: bool)
        ensures
            !r,
    {
        BLSPubkey::is_variable_size()
            || bytes_is_variable_size::<32>()
            || Gwei::is_variable_size()
            || BLSSignature::is_variable_size()
            || Slot::is_variable_size()
    }

    /// The encoded size: the sum of the field sizes.
    pub fn size_hint() -> (r: usize)
        ensures
            r == 192,
    {
        BLSPubkey::size_hint()
            + bytes_size_hint::<32>()
            + Gwei::size_hint()
            + BLSSignature::size_hint()
            + Slot::size_hint()
    }

    /// Append the encoding of every field in order.
    pub fn serialize(&self, buffer: &mut Vec<u8>) -> (r: Result<usize, SerializeError>)
        ensures
            r == Ok::<usize, SerializeError>(192),
            final(buffer)@ == old(buffer)@ + self.spec_ssz(),
    {
        let _ = self.pubkey.serialize(buffer);
        let _ = serialize_bytes(&self.withdrawal_credentials, buffer);
        let _ = self.amount.serialize(buffer);
        let _ = self.signature.serialize(buffer);
        let _ = self.slot.serialize(buffer);
        assert(buffer@ =~= old(buffer)@ + self.spec_ssz());
        Ok(192)
    }

    /// Decode every field from its fixed position in exactly 192 bytes.
    pub fn deserialize(encoding: &[u8]) -> (r: Result<Self, DeserializeError>)
        ensures
            r is Ok <==> Self::spec_valid_ssz(encoding@),
            r matches Ok(v) ==> v.spec_ssz() == encoding@,
            r matches Err(e) ==> e == length_error(encoding@.len() as usize, 192),
    {
        if encoding.len() != 192 {
            return Err(wrong_length(encoding.len(), 192));
        }
        let pubkey = BLSPubkey::deserialize(slice_subrange(encoding, 0, 48))?;
        let withdrawal_credentials = deserialize_bytes::<32>(slice_subrange(encoding, 48, 80))?;
        let amount = Gwei::deserialize(slice_subrange(encoding, 80, 88))?;
        let signature = BLSSignature::deserialize(slice_subrange(encoding, 88, 184))?;
        let slot = Slot::deserialize(slice_subrange(encoding, 184, 192))?;
        let v = PendingDeposit { pubkey, withdrawal_credentials, amount, signature, slot };
        proof {
            lemma_u64_from_le_roundtrip(encoding@.subrange(80, 88));
            lemma_u64_from_le_roundtrip(encoding@.subrange(184, 192));
            assert(v.spec_ssz() =~= encoding@);
        }
        Ok(v)
    }

    /// The merkle root of the field roots.
    pub fn hash_tree_root(&self) -> (r: Result<Node, MerkleizationError>)
        ensures
            r matches Ok(n) && n.0@ == self.spec_root(),
    {
        let r0 = self.pubkey.hash_tree_root()?;
        let r1 = hash_tree_root_bytes(&self.withdrawal_credentials)?;
        let r2 = self.amount.hash_tree_root()?;
        let r3 = self.signature.hash_tree_root()?;
        let r4 = self.slot.hash_tree_root()?;
        let roots = [r0, r1, r2, r3, r4];
        assert(roots_view(roots@) =~= self.spec_field_roots());
        Ok(merkleize_roots(roots.as_slice()))
    }

    /// A container is a composite type.
    pub fn is_composite_type() -> (r: bool)
        ensures
            r,
    {
        true
    }
}

/// The encoding of a `PendingDeposit` is 192 bytes long.
pub proof fn lemma_pending_deposit_ssz_len(x: PendingDeposit)
    ensures
        x.spec_ssz().len() == 192,
{

}

/// Distinct `PendingDeposit` values have distinct encodings.
pub proof fn lemma_pending_deposit_ssz_injective(a: PendingDeposit, b: PendingDeposit)
    requires
        a.spec_ssz() == b.spec_ssz(),
    ensures
        a == b,
{
    lemma_pending_deposit_ssz_len(a);
    assert(a.spec_ssz().subrange(0, 48) =~= a.pubkey.spec_ssz());
    assert(b.spec_ssz().subrange(0, 48) =~= b.pubkey.spec_ssz());
    assert(a.pubkey.0 =~= b.pubkey.0);
    assert(a.spec_ssz().subrange(48, 80) =~= a.withdrawal_credentials@);
    assert(b.spec_ssz().subrange(48, 80) =~= b.withdrawal_credentials@);
    assert(a.withdrawal_credentials =~= b.withdrawal_credentials);
    assert(a.spec_ssz().subrange(80, 88) =~= a.amount.spec_ssz());
    assert(b.spec_ssz().subrange(80, 88) =~= b.amount.spec_ssz());
    lemma_u64_le_injective(a.amount.0, b.amount.0);
    assert(a.spec_ssz().subrange(88, 184) =~= a.signature.spec_ssz());
    assert(b.spec_ssz().subrange(88, 184) =~= b.signature.spec_ssz());
    assert(a.signature.0 =~= b.signature.0);
    assert(a.spec_ssz().subrange(184, 192) =~= a.slot.spec_ssz());
    assert(b.spec_ssz().subrange(184, 192) =~= b.slot.spec_ssz());
    lemma_u64_le_injective(a.slot.0, b.slot.0);
}

/// Encoding then decoding a `PendingDeposit` gives it back: its encoding is accepted
/// by the decoder, and no other value has the same encoding.
pub proof fn lemma_pending_deposit_ssz_roundtrip(x: PendingDeposit)
    ensures
        PendingDeposit::spec_valid_ssz(x.spec_ssz()),
        forall|y: PendingDeposit| #[trigger] y.spec_ssz() == x.spec_ssz() ==> y == x,
{
    lemma_pending_deposit_ssz_len(x);

    assert forall|y: PendingDeposit| #[trigger] y.spec_ssz() == x.spec_ssz() implies y == x by {
        lemma_pending_deposit_ssz_injective(y, x);
    }
}

/// A scheduled partial withdrawal.
#[derive(Default, Debug, Clone, Copy, PartialEq, Eq)]
pub struct PendingPartialWithdrawal {
    /// Validator the withdrawal applies to.
    pub validator_index: ValidatorIndex,
    /// Amount to withdraw at `withdrawable_epoch`.
    pub amount: Gwei,
    /// Earliest epoch the withdrawal becomes due.
    pub withdrawable_epoch: Epoch,
}

impl PendingPartialWithdrawal {
    /// The SSZ encoding: the fields' encodings in order.
    pub open spec fn spec_ssz(self) -> Seq<u8> {
        self.validator_index.spec_ssz()
            + self.amount.spec_ssz()
            + self.withdrawable_epoch.spec_ssz()
    }

    /// The hash-tree-roots of the fields in order.
    pub open spec fn spec_field_roots(self) -> Seq<Seq<u8>> {
        seq![
            self.validator_index.spec_root(),
            self.amount.spec_root(),
            self.withdrawable_epoch.spec_root(),
        ]
    }

    /// The hash-tree-root: the merkle root of the field roots.
    pub open spec fn spec_root(self) -> Seq<u8> {
        spec_merkleize(self.spec_field_roots())
    }

    /// Whether `bytes` is the encoding of some value.
    pub open spec fn spec_valid_ssz(bytes: Seq<u8>) -> bool {
        bytes.len() == 24
    }

    /// A container is variable-size when any field is.
    pub fn is_variable_size() -> (r: bool)
        ensures
            !r,
    {
        ValidatorIndex::is_variable_size()
            || Gwei::is_variable_size()
            || Epoch::is_variable_size()
    }

    /// The encoded size: the sum of the field sizes.
    pub fn size_hint() -> (r: usize)
        ensures
            r == 24,
    {
        ValidatorIndex::size_hint()
            + Gwei::size_hint()
            + Epoch::size_hint()
    }

    /// Append the encoding of every field in order.
    pub fn serialize(&self, buffer: &mut Vec<u8>) -> (r: Result<usize, SerializeError>)
        ensures
            r == Ok::<usize, SerializeError>(24),
            final(buffer)@ == old(buffer)@ + self.spec_ssz(),
    {
        let _ = self.validator_index.serialize(buffer);
        let _ = self.amount.serialize(buffer);
        let _ = self.withdrawable_epoch.serialize(buffer);
        assert(buffer@ =~= old(buffer)@ + self.spec_ssz());
        Ok(24)
    }

    /// Decode every field from its fixed position in exactly 24 bytes.
    pub fn deserialize(encoding: &[u8]) -> (r: Result<Self, DeserializeError>)
        ensures
            r is Ok <==> Self::spec_valid_ssz(encoding@),
            r matches Ok(v) ==> v.spec_ssz() == encoding@,
            r matches Err(e) ==> e == length_error(encoding@.len() as usize, 24),
    {
        if encoding.len() != 24 {
            return Err(wrong_length(encoding.len(), 24));
        }
        let validator_index = ValidatorIndex::deserialize(slice_subrange(encoding, 0, 8))?;
        let amount = Gwei::deserialize(slice_subrange(encoding, 8, 16))?;
        let withdrawable_epoch = Epoch::deserialize(slice_subrange(encoding, 16, 24))?;
        let v = PendingPartialWithdrawal { validator_index, amount, withdrawable_epoch };
        proof {
            lemma_u64_from_le_roundtrip(encoding@.subrange(0, 8));
            lemma_u64_from_le_roundtrip(encoding@.subrange(8, 16));
            lemma_u64_from_le_roundtrip(encoding@.subrange(16, 24));
            assert(v.spec_ssz() =~= encoding@);
        }
        Ok(v)
    }

    /// The merkle root of the field roots.
    pub fn hash_tree_root(&self) -> (r: Result<Node, MerkleizationError>)
        ensures
            r matches Ok(n) && n.0@ == self.spec_root(),
    {
        let r0 = self.validator_index.hash_tree_root()?;
        let r1 = self.amount.hash_tree_root()?;
        let r2 = self.withdrawable_epoch.hash_tree_root()?;
        let roots = [r0, r1, r2];
        assert(roots_view(roots@) =~= self.spec_field_roots());
        Ok(merkleize_roots(roots.as_slice()))
    }

    /// A container is a composite type.
    pub fn is_composite_type() -> (r: bool)
        ensures
            r,
    {
        true
    }
}

/// The encoding of a `PendingPartialWithdrawal` is 24 bytes long.
pub proof fn lemma_pending_partial_withdrawal_ssz_len(x: PendingPartialWithdrawal)
    ensures
        x.spec_ssz().len() == 24,
{

}

/// Distinct `PendingPartialWithdrawal` values have distinct encodings.
pub proof fn lemma_pending_partial_withdrawal_ssz_injective(a: PendingPartialWithdrawal, b: PendingPartialWithdrawal)
    requires
        a.spec_ssz() == b.spec_ssz(),
    ensures
        a == b,
{
    lemma_pending_partial_withdrawal_ssz_len(a);
    assert(a.spec_ssz().subrange(0, 8) =~= a.validator_index.spec_ssz());
    assert(b.spec_ssz().subrange(0, 8) =~= b.validator_index.spec_ssz());
    lemma_u64_le_injective(a.validator_index.0, b.validator_index.0);
    assert(a.spec_ssz().subrange(8, 16) =~= a.amount.spec_ssz());
    assert(b.spec_ssz().subrange(8, 16) =~= b.amount.spec_ssz());
    lemma_u64_le_injective(a.amount.0, b.amount.0);
    assert(a.spec_ssz().subrange(16, 24) =~= a.withdrawable_epoch.spec_ssz());
    assert(b.spec_ssz().subrange(16, 24) =~= b.withdrawable_epoch.spec_ssz());
    lemma_u64_le_injective(a.withdrawable_epoch.0, b.withdrawable_epoch.0);
}

/// Encoding then decoding a `PendingPartialWithdrawal` gives it back: its encoding is accepted
/// by the decoder, and no other value has the same encoding.
pub proof fn lemma_pending_partial_withdrawal_ssz_roundtrip(x: PendingPartialWithdrawal)
    ensures
        PendingPartialWithdrawal::spec_valid_ssz(x.spec_ssz()),
        forall|y: PendingPartialWithdrawal| #[trigger] y.spec_ssz() == x.spec_ssz() ==> y == x,
{
    lemma_pending_partial_withdrawal_ssz_len(x);

    assert forall|y: PendingPartialWithdrawal| #[trigger] y.spec_ssz() == x.spec_ssz() implies y == x by {
        lemma_pending_partial_withdrawal_ssz_injective(y, x);
    }
}

/// A scheduled consolidation of one validator's balance into another.
#[derive(Default, Debug, Clone, Copy, PartialEq, Eq)]
pub struct PendingConsolidation {
    /// Source validator (balance is moved out of this one).
    pub source_index: ValidatorIndex,
    /// Target validator (balance is folded into this one).
    pub target_index: ValidatorIndex,
}

impl PendingConsolidation {
    /// The SSZ encoding: the fields' encodings in order.
    pub open spec fn spec_ssz(self) -> Seq<u8> {
        self.source_index.spec_ssz()
            + self.target_index.spec_ssz()
    }

    /// The hash-tree-roots of the fields in order.
    pub open spec fn spec_field_roots(self) -> Seq<Seq<u8>> {
        seq![
            self.source_index.spec_root(),
            self.target_index.spec_root(),
        ]
    }

    /// The hash-tree-root: the merkle root of the field roots.
    pub open spec fn spec_root(self) -> Seq<u8> {
        spec_merkleize(self.spec_field_roots())
    }

    /// Whether `bytes` is the encoding of some value.
    pub open spec fn spec_valid_ssz(bytes: Seq<u8>) -> bool {
        bytes.len() == 16
    }

    /// A container is variable-size when any field is.
    pub fn is_variable_size() -> (r: bool)
        ensures
            !r,
    {
        ValidatorIndex::is_variable_size()
            || ValidatorIndex::is_variable_size()
    }

    /// The encoded size: the sum of the field sizes.
    pub fn size_hint() -> (r: usize)
        ensures
            r == 16,
    {
        ValidatorIndex::size_hint()
            + ValidatorIndex::size_hint()
    }

    /// Append the encoding of every field in order.
    pub fn serialize(&self, buffer: &mut Vec<u8>) -> (r: Result<usize, SerializeError>)
        ensures
            r == Ok::<usize, SerializeError>(16),
            final(buffer)@ == old(buffer)@ + self.spec_ssz(),
    {
        let _ = self.source_index.serialize(buffer);
        let _ = self.target_index.serialize(buffer);
        assert(buffer@ =~= old(buffer)@ + self.spec_ssz());
        Ok(16)
    }

    /// Decode every field from its fixed position in exactly 16 bytes.
    pub fn deserialize(encoding: &[u8]) -> (r: Result<Self, DeserializeError>)
        ensures
            r is Ok <==> Self::spec_valid_ssz(encoding@),
            r matches Ok(v) ==> v.spec_ssz() == encoding@,
            r matches Err(e) ==> e == length_error(encoding@.len() as usize, 16),
    {
        if encoding.len() != 16 {
            return Err(wrong_length(encoding.len(), 16));
        }
        let source_index = ValidatorIndex::deserialize(slice_subrange(encoding, 0, 8))?;
        let target_index = ValidatorIndex::deserialize(slice_subrange(encoding, 8, 16))?;
        let v = PendingConsolidation { source_index, target_index };
        proof {
            lemma_u64_from_le_roundtrip(encoding@.subrange(0, 8));
            lemma_u64_from_le_roundtrip(encoding@.subrange(8, 16));
            assert(v.spec_ssz() =~= encoding@);
        }
        Ok(v)
    }

    /// The merkle root of the field roots.
    pub fn hash_tree_root(&self) -> (r: Result<Node, MerkleizationError>)
        ensures
            r matches Ok(n) && n.0@ == self.spec_root(),
    {
        let r0 = self.source_index.hash_tree_root()?;
        let r1 = self.target_index.hash_tree_root()?;
        let roots = [r0, r1];
        assert(roots_view(roots@) =~= self.spec_field_roots());
        Ok(merkleize_roots(roots.as_slice()))
    }

    /// A container is a composite type.
    pub fn is_composite_type() -> (r: bool)
        ensures
            r,
    {
        true
    }
}

/// The encoding of a `PendingConsolidation` is 16 bytes long.
pub proof fn lemma_pending_consolidation_ssz_len(x: PendingConsolidation)
    ensures
        x.spec_ssz().len() == 16,
{

}

/// Distinct `PendingConsolidation` values have distinct encodings.
pub proof fn lemma_pending_consolidation_ssz_injective(a: PendingConsolidation, b: PendingConsolidation)
    requires
        a.spec_ssz() == b.spec_ssz(),
    ensures
        a == b,
{
    lemma_pending_consolidation_ssz_len(a);
    assert(a.spec_ssz().subrange(0, 8) =~= a.source_index.spec_ssz());
    assert(b.spec_ssz().subrange(0, 8) =~= b.source_index.spec_ssz());
    lemma_u64_le_injective(a.source_index.0, b.source_index.0);
    assert(a.spec_ssz().subrange(8, 16) =~= a.target_index.spec_ssz());
    assert(b.spec_ssz().subrange(8, 16) =~= b.target_index.spec_ssz());
    lemma_u64_le_injective(a.target_index.0, b.target_index.0);
}

/// Encoding then decoding a `PendingConsolidation` gives it back: its encoding is accepted
/// by the decoder, and no other value has the same encoding.
pub proof fn lemma_pending_consolidation_ssz_roundtrip(x: PendingConsolidation)
    ensures
        PendingConsolidation::spec_valid_ssz(x.spec_ssz()),
        forall|y: PendingConsolidation| #[trigger] y.spec_ssz() == x.spec_ssz() ==> y == x,
{
    lemma_pending_consolidation_ssz_len(x);

    assert forall|y: PendingConsolidation| #[trigger] y.spec_ssz() == x.spec_ssz() implies y == x by {
        lemma_pending_consolidation_ssz_injective(y, x);
    }
}

} // verus!
