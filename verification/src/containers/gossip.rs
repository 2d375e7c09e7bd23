//! Gossip-only containers: proposer preferences.
use vstd::prelude::*;
use vstd::slice::slice_subrange;

use crate::ssz::basic::{
    bool_byte, bytes_is_variable_size, bytes_size_hint, deserialize_bool, deserialize_bytes,
    deserialize_u64, deserialize_u8, hash_tree_root_bool, hash_tree_root_bytes,
    hash_tree_root_u64, hash_tree_root_u8, lemma_u64_from_le_roundtrip, lemma_u64_le_injective,
    serialize_bool, serialize_bytes, serialize_u64, serialize_u8, spec_bool_root,
    spec_u64_le, spec_u64_root, spec_u8_root, u64_is_variable_size, u64_size_hint,
    u8_is_variable_size, u8_size_hint,
};
use crate::ssz::error::{length_error, wrong_length};
use crate::ssz::merkle::{merkleize_roots, roots_view, spec_merkleize, spec_merkleize_bytes};
use crate::ssz::{DeserializeError, MerkleizationError, Node, SerializeError};
use crate::primitives::{BLSSignature, ExecutionAddress, Root, Slot, ValidatorIndex};

verus! {

/// A proposer's preferences for the payload of an upcoming slot.
#[derive(Default, Debug, Clone, Copy, PartialEq, Eq)]
pub struct ProposerPreferences {
    /// Dependent block root for the proposer lookahead.
    pub dependent_root: Root,
    /// Slot the preferences apply to.
    pub proposal_slot: Slot,
    /// Validator expected to propose at `proposal_slot`.
    pub validator_index: ValidatorIndex,
    /// Preferred execution-layer fee recipient.
    pub fee_recipient: ExecutionAddress,
    /// Preferred execution payload gas limit.
    pub target_gas_limit: u64,
}

impl ProposerPreferences {
    /// The SSZ encoding: the fields' encodings in order.
    pub open spec fn spec_ssz(self) -> Seq<u8> {
        self.dependent_root.spec_ssz()
            + self.proposal_slot.spec_ssz()
            + self.validator_index.spec_ssz()
            + self.fee_recipient.spec_ssz()
            + spec_u64_le(self.target_gas_limit)
    }

    /// The hash-tree-roots of the fields in order.
    pub open spec fn spec_field_roots(self) -> Seq<Seq<u8>> {
        seq![
            self.dependent_root.spec_root(),
            self.proposal_slot.spec_root(),
            self.validator_index.spec_root(),
            self.fee_recipient.spec_root(),
            spec_u64_root(self.target_gas_limit),
        ]
    }

    /// The hash-tree-root: the merkle root of the field roots.
    pub open spec fn spec_root(self) -> Seq<u8> {
        spec_merkleize(self.spec_field_roots())
    }

    /// Whether `bytes` is the encoding of some value.
    pub open spec fn spec_valid_ssz(bytes: Seq<u8>) -> bool {
        bytes.len() == 76
    }

    /// A container is variable-size when any field is.
    pub fn is_variable_size() -> (r: bool)
        ensures
            !r,
    {
        Root::is_variable_size()
            || Slot::is_variable_size()
            || ValidatorIndex::is_variable_size()
            || ExecutionAddress::is_variable_size()
            || u64_is_variable_size()
    }

    /// The encoded size: the sum of the field sizes.
    pub fn size_hint() -> (r: usize)
        ensures
            r == 76,
    {
        Root::size_hint()
            + Slot::size_hint()
            + ValidatorIndex::size_hint()
            + ExecutionAddress::size_hint()
            + u64_size_hint()
    }

    /// Append the encoding of every field in order.
    pub fn serialize(&self, buffer: &mut Vec<u8>) -> (r: Result<usize, SerializeError>)
        ensures
            r == Ok::<usize, SerializeError>(76),
            final(buffer)@ == old(buffer)@ + self.spec_ssz(),
    {
        let _ = self.dependent_root.serialize(buffer);
        let _ = self.proposal_slot.serialize(buffer);
        let _ = self.validator_index.serialize(buffer);
        let _ = self.fee_recipient.serialize(buffer);
        let _ = serialize_u64(self.target_gas_limit, buffer);
        assert(buffer@ =~= old(buffer)@ + self.spec_ssz());
        Ok(76)
    }

    /// Decode every field from its fixed position in exactly 76 bytes.
    pub fn deserialize(encoding: &[u8]) -> (r: Result<Self, DeserializeError>)
        ensures
            r is Ok <==> Self::spec_valid_ssz(encoding@),
            r matches Ok(v) ==> v.spec_ssz() == encoding@,
            r matches Err(e) ==> e == length_error(encoding@.len() as usize, 76),
    {
        if encoding.len() != 76 {
            return Err(wrong_length(encoding.len(), 76));
        }
        let dependent_root = Root::deserialize(slice_subrange(encoding, 0, 32))?;
        let proposal_slot = Slot::deserialize(slice_subrange(encoding, 32, 40))?;
        let validator_index = ValidatorIndex::deserialize(slice_subrange(encoding, 40, 48))?;
        let fee_recipient = ExecutionAddress::deserialize(slice_subrange(encoding, 48, 68))?;
        let target_gas_limit = deserialize_u64(slice_subrange(encoding, 68, 76))?;
        let v = ProposerPreferences { dependent_root, proposal_slot, validator_index, fee_recipient, target_gas_limit };
        proof {
            lemma_u64_from_le_roundtrip(encoding@.subrange(32, 40));
            lemma_u64_from_le_roundtrip(encoding@.subrange(40, 48));
            lemma_u64_from_le_roundtrip(encoding@.subrange(68, 76));
            assert(v.spec_ssz() =~= encoding@);
        }
        Ok(v)
    }

    /// The merkle root of the field roots.
    pub fn hash_tree_root(&self) -> (r: Result<Node, MerkleizationError>)
        ensures
            r matches Ok(n) && n.0@ == self.spec_root(),
    {
        let r0 = self.dependent_root.hash_tree_root()?;
        let r1 = self.proposal_slot.hash_tree_root()?;
        let r2 = self.validator_index.hash_tree_root()?;
        let r3 = self.fee_recipient.hash_tree_root()?;
        let r4 = hash_tree_root_u64(self.target_gas_limit)?;
        let roots = [r0, r1, r2, r3, r4];
        assert(roots_view(roots@) =~= self.spec_field_roots());
        Ok(merkleize_roots(roots.as_slice()))
    }

    /// A container is a composite type.
    pub fn is_composite_type() -> (r: bool)
        ensures
            r,
    {
        true
    }
}

/// The encoding of a `ProposerPreferences` is 76 bytes long.
pub proof fn lemma_proposer_preferences_ssz_len(x: ProposerPreferences)
    ensures
        x.spec_ssz().len() == 76,
{

}

/// Distinct `ProposerPreferences` values have distinct encodings.
pub proof fn lemma_proposer_preferences_ssz_injective(a: ProposerPreferences, b: ProposerPreferences)
    requires
        a.spec_ssz() == b.spec_ssz(),
    ensures
        a == b,
{
    lemma_proposer_preferences_ssz_len(a);
    assert(a.spec_ssz().subrange(0, 32) =~= a.dependent_root.spec_ssz());
    assert(b.spec_ssz().subrange(0, 32) =~= b.dependent_root.spec_ssz());
    assert(a.dependent_root.0 =~= b.dependent_root.0);
    assert(a.spec_ssz().subrange(32, 40) =~= a.proposal_slot.spec_ssz());
    assert(b.spec_ssz().subrange(32, 40) =~= b.proposal_slot.spec_ssz());
    lemma_u64_le_injective(a.proposal_slot.0, b.proposal_slot.0);
    assert(a.spec_ssz().subrange(40, 48) =~= a.validator_index.spec_ssz());
    assert(b.spec_ssz().subrange(40, 48) =~= b.validator_index.spec_ssz());
    lemma_u64_le_injective(a.validator_index.0, b.validator_index.0);
    assert(a.spec_ssz().subrange(48, 68) =~= a.fee_recipient.spec_ssz());
    assert(b.spec_ssz().subrange(48, 68) =~= b.fee_recipient.spec_ssz());
    assert(a.fee_recipient.0 =~= b.fee_recipient.0);
    assert(a.spec_ssz().subrange(68, 76) =~= spec_u64_le(a.target_gas_limit));
    assert(b.spec_ssz().subrange(68, 76) =~= spec_u64_le(b.target_gas_limit));
    lemma_u64_le_injective(a.target_gas_limit, b.target_gas_limit);
}

/// Encoding then decoding a `ProposerPreferences` gives it back: its encoding is accepted
/// by the decoder, and no other value has the same encoding.
pub proof fn lemma_proposer_preferences_ssz_roundtrip(x: ProposerPreferences)
    ensures
        ProposerPreferences::spec_valid_ssz(x.spec_ssz()),
        forall|y: ProposerPreferences| #[trigger] y.spec_ssz() == x.spec_ssz() ==> y == x,
{
    lemma_proposer_preferences_ssz_len(x);

    assert forall|y: ProposerPreferences| #[trigger] y.spec_ssz() == x.spec_ssz() implies y == x by {
        lemma_proposer_preferences_ssz_injective(y, x);
    }
}

/// Signed proposer preferences.
#[derive(Default, Debug, Clone, Copy, PartialEq, Eq)]
pub struct SignedProposerPreferences {
    /// Preferences being signed.
    pub message: ProposerPreferences,
    /// Validator signature over `message`.
    pub signature: BLSSignature,
}

impl SignedProposerPreferences {
    /// The SSZ encoding: the fields' encodings in order.
    pub open spec fn spec_ssz(self) -> Seq<u8> {
        self.message.spec_ssz()
            + self.signature.spec_ssz()
    }

    /// The hash-tree-roots of the fields in order.
    pub open spec fn spec_field_roots(self) -> Seq<Seq<u8>> {
        seq![
            self.message.spec_root(),
            self.signature.spec_root(),
        ]
    }

    /// The hash-tree-root: the merkle root of the field roots.
    pub open spec fn spec_root(self) -> Seq<u8> {
        spec_merkleize(self.spec_field_roots())
    }

    /// Whether `bytes` is the encoding of some value.
    pub open spec fn spec_valid_ssz(bytes: Seq<u8>) -> bool {
        bytes.len() == 172
    }

    /// A container is variable-size when any field is.
    pub fn is_variable_size() -> (r: bool)
        ensures
            !r,
    {
        ProposerPreferences::is_variable_size()
            || BLSSignature::is_variable_size()
    }

    /// The encoded size: the sum of the field sizes.
    pub fn size_hint() -> (r: usize)
        ensures
            r == 172,
    {
        ProposerPreferences::size_hint()
            + BLSSignature::size_hint()
    }

    /// Append the encoding of every field in order.
    pub fn serialize(&self, buffer: &mut Vec<u8>) -> (r: Result<usize, SerializeError>)
        ensures
            r == Ok::<usize, SerializeError>(172),
            final(buffer)@ == old(buffer)@ + self.spec_ssz(),
    {
        let _ = self.message.serialize(buffer);
        let _ = self.signature.serialize(buffer);
        assert(buffer@ =~= old(buffer)@ + self.spec_ssz());
        Ok(172)
    }

    /// Decode every field from its fixed position in exactly 172 bytes.
    pub fn deserialize(encoding: &[u8]) -> (r: Result<Self, DeserializeError>)
        ensures
            r is Ok <==> Self::spec_valid_ssz(encoding@),
            r matches Ok(v) ==> v.spec_ssz() == encoding@,
            r matches Err(e) ==> e == length_error(encoding@.len() as usize, 172),
    {
        if encoding.len() != 172 {
            return Err(wrong_length(encoding.len(), 172));
        }
        let message = ProposerPreferences::deserialize(slice_subrange(encoding, 0, 76))?;
        let signature = BLSSignature::deserialize(slice_subrange(encoding, 76, 172))?;
        let v = SignedProposerPreferences { message, signature };
        proof {
            lemma_proposer_preferences_ssz_len(message);
            assert(v.spec_ssz() =~= encoding@);
        }
        Ok(v)
    }

    /// The merkle root of the field roots.
    pub fn hash_tree_root(&self) -> (r: Result<Node, MerkleizationError>)
        ensures
            r matches Ok(n) && n.0@ == self.spec_root(),
    {
        let r0 = self.message.hash_tree_root()?;
        let r1 = self.signature.hash_tree_root()?;
        let roots = [r0, r1];
        assert(roots_view(roots@) =~= self.spec_field_roots());
        Ok(merkleize_roots(roots.as_slice()))
    }

    /// A container is a composite type.
    pub fn is_composite_type() -> (r: bool)
        ensures
            r,
    {
        true
    }
}

/// The encoding of a `SignedProposerPreferences` is 172 bytes long.
pub proof fn lemma_signed_proposer_preferences_ssz_len(x: SignedProposerPreferences)
    ensures
        x.spec_ssz().len() == 172,
{
    lemma_proposer_preferences_ssz_len(x.message);
}

/// Distinct `SignedProposerPreferences` values have distinct encodings.
pub proof fn lemma_signed_proposer_preferences_ssz_injective(a: SignedProposerPreferences, b: SignedProposerPreferences)
    requires
        a.spec_ssz() == b.spec_ssz(),
    ensures
        a == b,
{
    lemma_signed_proposer_preferences_ssz_len(a);
    lemma_proposer_preferences_ssz_len(a.message);
    lemma_proposer_preferences_ssz_len(b.message);
    assert(a.spec_ssz().subrange(0, 76) =~= a.message.spec_ssz());
    assert(b.spec_ssz().subrange(0, 76) =~= b.message.spec_ssz());
    lemma_proposer_preferences_ssz_injective(a.message, b.message);
    assert(a.spec_ssz().subrange(76, 172) =~= a.signature.spec_ssz());
    assert(b.spec_ssz().subrange(76, 172) =~= b.signature.spec_ssz());
    assert(a.signature.0 =~= b.signature.0);
}

/// Encoding then decoding a `SignedProposerPreferences` gives it back: its encoding is accepted
/// by the decoder, and no other value has the same encoding.
pub proof fn lemma_signed_proposer_preferences_ssz_roundtrip(x: SignedProposerPreferences)
    ensures
        SignedProposerPreferences::spec_valid_ssz(x.spec_ssz()),
        forall|y: SignedProposerPreferences| #[trigger] y.spec_ssz() == x.spec_ssz() ==> y == x,
{
    lemma_signed_proposer_preferences_ssz_len(x);

    assert forall|y: SignedProposerPreferences| #[trigger] y.spec_ssz() == x.spec_ssz() implies y == x by {
        lemma_signed_proposer_preferences_ssz_injective(y, x);
    }
}

} // verus!
