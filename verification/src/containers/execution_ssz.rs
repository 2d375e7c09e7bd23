//! SSZ for the execution containers with list, bitlist or nested fields.
//!
//! Each container encodes as a head of fixed-size fields and offsets
//! followed by its variable-size fields, decodes by cutting the input along
//! its field layout, and roots to the merkle root of its fields' roots.
use vstd::prelude::*;
use vstd::slice::slice_subrange;

use crate::ssz::codec::SszCodec;
use crate::ssz::container::{
    encode_fixed_field, encode_variable_field, lemma_container_all_fixed,
    lemma_container_part_bounds, lemma_so_far_done, spec_container_encoding, spec_head_pieces,
    spec_head_pos, spec_layout_head_len, spec_layout_matches, spec_ranges_fit, spec_tail_pieces,
    split_container, decode_field, FieldPart,
};
use crate::ssz::merkle::{merkleize_roots, roots_view, spec_merkleize};
use crate::ssz::{Bitlist, Bitvector, DeserializeError, List, MerkleizationError, Node, SerializeError, Vector};

use crate::constants::{BYTES_PER_LOGS_BLOOM, MAX_BLOB_COMMITMENTS_PER_BLOCK, MAX_BYTES_PER_TRANSACTION, MAX_EXTRA_DATA_BYTES, MAX_TRANSACTIONS_PER_PAYLOAD, MAX_WITHDRAWALS_PER_PAYLOAD};
use crate::containers::execution::{ExecutionPayload, ExecutionPayloadBid, ExecutionPayloadEnvelope, SignedExecutionPayloadBid, SignedExecutionPayloadEnvelope};
use crate::containers::withdrawal::{ExecutionRequests, Withdrawal};
use crate::primitives::{BLSSignature, BuilderIndex, ExecutionAddress, Gwei, Hash32, KZGCommitment, Root, Slot, Uint256};

verus! {

impl ExecutionPayloadBid {
    /// The fields' places in the encoding: whether each is variable-size,
    /// and its encoding.
    #[verifier::opaque]
    pub open spec fn spec_parts(&self) -> Seq<FieldPart> {
        seq![
            (false, self.parent_block_hash.spec_encoding()),
            (false, self.parent_block_root.spec_encoding()),
            (false, self.block_hash.spec_encoding()),
            (false, self.prev_randao.spec_encoding()),
            (false, self.fee_recipient.spec_encoding()),
            (false, self.gas_limit.spec_encoding()),
            (false, self.builder_index.spec_encoding()),
            (false, self.slot.spec_encoding()),
            (false, self.value.spec_encoding()),
            (false, self.execution_payment.spec_encoding()),
            (true, self.blob_kzg_commitments.spec_encoding()),
            (false, self.execution_requests_root.spec_encoding()),
        ]
    }

    /// Each field's fixed size, or zero for a variable-size field.
    pub open spec fn spec_layout() -> Seq<usize> {
        seq![32usize, 32usize, 32usize, 32usize, 20usize, 8usize, 8usize, 8usize, 8usize, 8usize, 0usize, 32usize]
    }

    /// The SSZ encoding: fixed-size fields and offsets, then variable-size
    /// fields.
    #[verifier::opaque]
    pub open spec fn spec_ssz(&self) -> Seq<u8> {
        spec_container_encoding(self.spec_parts(), 224)
    }

    /// The hash-tree-roots of the fields in order.
    #[verifier::opaque]
    pub open spec fn spec_field_roots(&self) -> Seq<Seq<u8>> {
        seq![
            self.parent_block_hash.spec_tree_root(),
            self.parent_block_root.spec_tree_root(),
            self.block_hash.spec_tree_root(),
            self.prev_randao.spec_tree_root(),
            self.fee_recipient.spec_tree_root(),
            self.gas_limit.spec_tree_root(),
            self.builder_index.spec_tree_root(),
            self.slot.spec_tree_root(),
            self.value.spec_tree_root(),
            self.execution_payment.spec_tree_root(),
            self.blob_kzg_commitments.spec_tree_root(),
            self.execution_requests_root.spec_tree_root(),
        ]
    }

    /// The hash-tree-root: the merkle root of the field roots.
    pub open spec fn spec_root(&self) -> Seq<u8> {
        spec_merkleize(self.spec_field_roots())
    }

    /// Whether every field respects its bounds.
    #[verifier::opaque]
    pub open spec fn spec_fields_wf(&self) -> bool {
        &&& self.parent_block_hash.spec_wf()
        &&& self.parent_block_root.spec_wf()
        &&& self.block_hash.spec_wf()
        &&& self.prev_randao.spec_wf()
        &&& self.fee_recipient.spec_wf()
        &&& self.gas_limit.spec_wf()
        &&& self.builder_index.spec_wf()
        &&& self.slot.spec_wf()
        &&& self.value.spec_wf()
        &&& self.execution_payment.spec_wf()
        &&& self.blob_kzg_commitments.spec_wf()
        &&& self.execution_requests_root.spec_wf()
    }

    /// Whether the container has a variable-size encoding.
    pub fn is_variable_size() -> (r: bool)
        ensures
            r == true,
    {
        true
    }

    /// The bytes taken by the fixed-size fields.
    pub fn size_hint() -> (r: usize)
        ensures
            r == 220,
    {
        220
    }

    /// Append the encoding.
    #[verifier::spinoff_prover]
    #[verifier::rlimit(100)]
    pub fn serialize(&self, buffer: &mut Vec<u8>) -> (r: Result<usize, SerializeError>)
        requires
            self.spec_fields_wf(),
            self.spec_ssz().len() <= u32::MAX,
        ensures
            r == Ok::<usize, SerializeError>(self.spec_ssz().len() as usize),
            final(buffer)@ == old(buffer)@ + self.spec_ssz(),
    {
        let ghost parts = self.spec_parts();
        proof {
            reveal(ExecutionPayloadBid::spec_ssz);
            reveal(ExecutionPayloadBid::spec_parts);
            reveal(ExecutionPayloadBid::spec_fields_wf);
            assert(parts.len() == 12);
            SszCodec::lemma_shape(&self.parent_block_hash);
            SszCodec::lemma_shape(&self.parent_block_root);
            SszCodec::lemma_shape(&self.block_hash);
            SszCodec::lemma_shape(&self.prev_randao);
            SszCodec::lemma_shape(&self.fee_recipient);
            SszCodec::lemma_shape(&self.gas_limit);
            SszCodec::lemma_shape(&self.builder_index);
            SszCodec::lemma_shape(&self.slot);
            SszCodec::lemma_shape(&self.value);
            SszCodec::lemma_shape(&self.execution_payment);
            SszCodec::lemma_shape(&self.execution_requests_root);
            assert(spec_layout_matches(Self::spec_layout(), parts));
            assert(spec_layout_head_len(Self::spec_layout()) == 224) by {
                reveal_with_fuel(spec_head_pos, 13);
            }
            assert(spec_head_pieces(parts, 224int).subrange(0, 0) =~= Seq::<Seq<u8>>::empty());
            assert(spec_tail_pieces(parts).subrange(0, 0) =~= Seq::<Seq<u8>>::empty());
        }
        let mut head: Vec<u8> = Vec::new();
        let mut tail: Vec<u8> = Vec::new();
        encode_fixed_field(&self.parent_block_hash, &mut head, &tail, Ghost(Self::spec_layout()), Ghost(parts), Ghost(0int));
        encode_fixed_field(&self.parent_block_root, &mut head, &tail, Ghost(Self::spec_layout()), Ghost(parts), Ghost(1int));
        encode_fixed_field(&self.block_hash, &mut head, &tail, Ghost(Self::spec_layout()), Ghost(parts), Ghost(2int));
        encode_fixed_field(&self.prev_randao, &mut head, &tail, Ghost(Self::spec_layout()), Ghost(parts), Ghost(3int));
        encode_fixed_field(&self.fee_recipient, &mut head, &tail, Ghost(Self::spec_layout()), Ghost(parts), Ghost(4int));
        encode_fixed_field(&self.gas_limit, &mut head, &tail, Ghost(Self::spec_layout()), Ghost(parts), Ghost(5int));
        encode_fixed_field(&self.builder_index, &mut head, &tail, Ghost(Self::spec_layout()), Ghost(parts), Ghost(6int));
        encode_fixed_field(&self.slot, &mut head, &tail, Ghost(Self::spec_layout()), Ghost(parts), Ghost(7int));
        encode_fixed_field(&self.value, &mut head, &tail, Ghost(Self::spec_layout()), Ghost(parts), Ghost(8int));
        encode_fixed_field(&self.execution_payment, &mut head, &tail, Ghost(Self::spec_layout()), Ghost(parts), Ghost(9int));
        encode_variable_field(&self.blob_kzg_commitments, &mut head, &mut tail, 224, Ghost(Self::spec_layout()), Ghost(parts), Ghost(10int));
        encode_fixed_field(&self.execution_requests_root, &mut head, &tail, Ghost(Self::spec_layout()), Ghost(parts), Ghost(11int));
        proof {
            reveal(ExecutionPayloadBid::spec_ssz);
            reveal(ExecutionPayloadBid::spec_parts);
            reveal(ExecutionPayloadBid::spec_fields_wf);
            lemma_so_far_done(parts, 224int);
            assert(head@.len() + tail@.len() == self.spec_ssz().len());
        }
        let n = head.len() + tail.len();
        head.append(&mut tail);
        buffer.append(&mut head);
        Ok(n)
    }

    /// Decode from exactly the given bytes.
    #[verifier::spinoff_prover]
    #[verifier::rlimit(100)]
    pub fn deserialize(encoding: &[u8]) -> (r: Result<Self, DeserializeError>)
        ensures
            r matches Ok(v) ==> v.spec_fields_wf() && v.spec_ssz() == encoding@,
            encoding@.len() <= u32::MAX && (exists|v: Self| v.spec_fields_wf() && #[trigger] v.spec_ssz() == encoding@)
                ==> r is Ok,
    {
        let sizes: [usize; 12] = [32usize, 32usize, 32usize, 32usize, 20usize, 8usize, 8usize, 8usize, 8usize, 8usize, 0usize, 32usize];
        proof {
            assert(sizes@ =~= Self::spec_layout());
            lemma_execution_payload_bid_head_len();
        }
        let ghost has_witness = encoding@.len() <= u32::MAX
            && exists|v: Self| v.spec_fields_wf() && #[trigger] v.spec_ssz() == encoding@;
        let ghost w = choose|v: Self| v.spec_fields_wf() && #[trigger] v.spec_ssz() == encoding@;
        proof {
            if has_witness {
                lemma_execution_payload_bid_layout(w);
                reveal(ExecutionPayloadBid::spec_ssz);
            }
        }
        let ranges = match split_container(encoding, &sizes) {
            Ok(r) => r,
            Err(e) => {
                return Err(e);
            },
        };
        proof {
            if has_witness {
                reveal(ExecutionPayloadBid::spec_fields_wf);
                lemma_execution_payload_bid_fields_fit(encoding@, ranges@, w);
            }
        }
        let parent_block_hash = match decode_field::<Hash32>(encoding, &ranges, 0, Ghost(if has_witness { Some(w.parent_block_hash) } else { None })) {
            Ok(x) => x,
            Err(e) => {
                return Err(e);
            },
        };
        let parent_block_root = match decode_field::<Root>(encoding, &ranges, 1, Ghost(if has_witness { Some(w.parent_block_root) } else { None })) {
            Ok(x) => x,
            Err(e) => {
                return Err(e);
            },
        };
        let block_hash = match decode_field::<Hash32>(encoding, &ranges, 2, Ghost(if has_witness { Some(w.block_hash) } else { None })) {
            Ok(x) => x,
            Err(e) => {
                return Err(e);
            },
        };
        let prev_randao = match decode_field::<[u8; 32]>(encoding, &ranges, 3, Ghost(if has_witness { Some(w.prev_randao) } else { None })) {
            Ok(x) => x,
            Err(e) => {
                return Err(e);
            },
        };
        let fee_recipient = match decode_field::<ExecutionAddress>(encoding, &ranges, 4, Ghost(if has_witness { Some(w.fee_recipient) } else { None })) {
            Ok(x) => x,
            Err(e) => {
                return Err(e);
            },
        };
        let gas_limit = match decode_field::<u64>(encoding, &ranges, 5, Ghost(if has_witness { Some(w.gas_limit) } else { None })) {
            Ok(x) => x,
            Err(e) => {
                return Err(e);
            },
        };
        let builder_index = match decode_field::<BuilderIndex>(encoding, &ranges, 6, Ghost(if has_witness { Some(w.builder_index) } else { None })) {
            Ok(x) => x,
            Err(e) => {
                return Err(e);
            },
        };
        let slot = match decode_field::<Slot>(encoding, &ranges, 7, Ghost(if has_witness { Some(w.slot) } else { None })) {
            Ok(x) => x,
            Err(e) => {
                return Err(e);
            },
        };
        let value = match decode_field::<Gwei>(encoding, &ranges, 8, Ghost(if has_witness { Some(w.value) } else { None })) {
            Ok(x) => x,
            Err(e) => {
                return Err(e);
            },
        };
        let execution_payment = match decode_field::<Gwei>(encoding, &ranges, 9, Ghost(if has_witness { Some(w.execution_payment) } else { None })) {
            Ok(x) => x,
            Err(e) => {
                return Err(e);
            },
        };
        let blob_kzg_commitments = match decode_field::<List<KZGCommitment, MAX_BLOB_COMMITMENTS_PER_BLOCK>>(encoding, &ranges, 10, Ghost(if has_witness { Some(w.blob_kzg_commitments) } else { None })) {
            Ok(x) => x,
            Err(e) => {
                return Err(e);
            },
        };
        let execution_requests_root = match decode_field::<Root>(encoding, &ranges, 11, Ghost(if has_witness { Some(w.execution_requests_root) } else { None })) {
            Ok(x) => x,
            Err(e) => {
                return Err(e);
            },
        };
        let v = ExecutionPayloadBid { parent_block_hash, parent_block_root, block_hash, prev_randao, fee_recipient, gas_limit, builder_index, slot, value, execution_payment, blob_kzg_commitments, execution_requests_root };
        proof {
            reveal(ExecutionPayloadBid::spec_ssz);
            reveal(ExecutionPayloadBid::spec_fields_wf);
            assert(v.spec_fields_wf());
            lemma_execution_payload_bid_layout(v);
            lemma_execution_payload_bid_fields_fit(encoding@, ranges@, v);
        }
        Ok(v)
    }

    /// The merkle root of the field roots.
    #[verifier::spinoff_prover]
    #[verifier::rlimit(100)]
    pub fn hash_tree_root(&self) -> (r: Result<Node, MerkleizationError>)
        requires
            self.spec_fields_wf(),
        ensures
            r matches Ok(n) && n.0@ == self.spec_root(),
    {
        proof {
            reveal(ExecutionPayloadBid::spec_fields_wf);
            reveal(ExecutionPayloadBid::spec_field_roots);
        }
        let r0 = self.parent_block_hash.ssz_root();
        let r1 = self.parent_block_root.ssz_root();
        let r2 = self.block_hash.ssz_root();
        let r3 = self.prev_randao.ssz_root();
        let r4 = self.fee_recipient.ssz_root();
        let r5 = self.gas_limit.ssz_root();
        let r6 = self.builder_index.ssz_root();
        let r7 = self.slot.ssz_root();
        let r8 = self.value.ssz_root();
        let r9 = self.execution_payment.ssz_root();
        let r10 = self.blob_kzg_commitments.ssz_root();
        let r11 = self.execution_requests_root.ssz_root();
        let roots = [r0, r1, r2, r3, r4, r5, r6, r7, r8, r9, r10, r11];
        assert(roots_view(roots@) =~= self.spec_field_roots());
        Ok(merkleize_roots(roots.as_slice()))
    }

    /// A container is a composite type.
    pub fn is_composite_type() -> (r: bool)
        ensures
            r,
    {
        true
    }
}

/// The head of a `ExecutionPayloadBid` encoding is 224 bytes.
proof fn lemma_execution_payload_bid_head_len()
    ensures
        spec_layout_head_len(ExecutionPayloadBid::spec_layout()) == 224,
{
    reveal_with_fuel(spec_head_pos, 13);
}

/// The parts of a `ExecutionPayloadBid` fit its field layout.
#[verifier::spinoff_prover]
#[verifier::rlimit(100)]
proof fn lemma_execution_payload_bid_layout(x: ExecutionPayloadBid)
    requires
        x.spec_fields_wf(),
    ensures
        spec_layout_matches(ExecutionPayloadBid::spec_layout(), x.spec_parts()),
{
    reveal(ExecutionPayloadBid::spec_parts);
    reveal(ExecutionPayloadBid::spec_fields_wf);
    SszCodec::lemma_shape(&x.parent_block_hash);
    SszCodec::lemma_shape(&x.parent_block_root);
    SszCodec::lemma_shape(&x.block_hash);
    SszCodec::lemma_shape(&x.prev_randao);
    SszCodec::lemma_shape(&x.fee_recipient);
    SszCodec::lemma_shape(&x.gas_limit);
    SszCodec::lemma_shape(&x.builder_index);
    SszCodec::lemma_shape(&x.slot);
    SszCodec::lemma_shape(&x.value);
    SszCodec::lemma_shape(&x.execution_payment);
    SszCodec::lemma_shape(&x.execution_requests_root);
    let parts = x.spec_parts();
    let layout = ExecutionPayloadBid::spec_layout();
    assert forall|i: int| 0 <= i < parts.len() implies (#[trigger] parts[i].0 <==> layout[i] == 0)
        && (layout[i] > 0 ==> parts[i].1.len() == layout[i]) by {
        if i == 0 { } else if i == 1 { } else if i == 2 { } else if i == 3 { } else if i == 4 { } else if i == 5 { } else if i == 6 { } else if i == 7 { } else if i == 8 { } else if i == 9 { } else if i == 10 { } else if i == 11 { }
    }
}

/// The parts of a `ExecutionPayloadBid` fit byte ranges exactly when each field's
/// encoding is the bytes of its range.
#[verifier::spinoff_prover]
#[verifier::rlimit(100)]
proof fn lemma_execution_payload_bid_fields_fit(encoding: Seq<u8>, ranges: Seq<(usize, usize)>, v: ExecutionPayloadBid)
    requires
        ranges.len() == 12,
    ensures
        spec_ranges_fit(encoding, ExecutionPayloadBid::spec_layout(), ranges, v.spec_parts()) ==> (v.parent_block_hash.spec_encoding() == encoding.subrange(ranges[0].0 as int, ranges[0].1 as int)
            && v.parent_block_root.spec_encoding() == encoding.subrange(ranges[1].0 as int, ranges[1].1 as int)
            && v.block_hash.spec_encoding() == encoding.subrange(ranges[2].0 as int, ranges[2].1 as int)
            && v.prev_randao.spec_encoding() == encoding.subrange(ranges[3].0 as int, ranges[3].1 as int)
            && v.fee_recipient.spec_encoding() == encoding.subrange(ranges[4].0 as int, ranges[4].1 as int)
            && v.gas_limit.spec_encoding() == encoding.subrange(ranges[5].0 as int, ranges[5].1 as int)
            && v.builder_index.spec_encoding() == encoding.subrange(ranges[6].0 as int, ranges[6].1 as int)
            && v.slot.spec_encoding() == encoding.subrange(ranges[7].0 as int, ranges[7].1 as int)
            && v.value.spec_encoding() == encoding.subrange(ranges[8].0 as int, ranges[8].1 as int)
            && v.execution_payment.spec_encoding() == encoding.subrange(ranges[9].0 as int, ranges[9].1 as int)
            && v.blob_kzg_commitments.spec_encoding() == encoding.subrange(ranges[10].0 as int, ranges[10].1 as int)
            && v.execution_requests_root.spec_encoding() == encoding.subrange(ranges[11].0 as int, ranges[11].1 as int)),
        spec_layout_matches(ExecutionPayloadBid::spec_layout(), v.spec_parts()) && (v.parent_block_hash.spec_encoding() == encoding.subrange(ranges[0].0 as int, ranges[0].1 as int)
            && v.parent_block_root.spec_encoding() == encoding.subrange(ranges[1].0 as int, ranges[1].1 as int)
            && v.block_hash.spec_encoding() == encoding.subrange(ranges[2].0 as int, ranges[2].1 as int)
            && v.prev_randao.spec_encoding() == encoding.subrange(ranges[3].0 as int, ranges[3].1 as int)
            && v.fee_recipient.spec_encoding() == encoding.subrange(ranges[4].0 as int, ranges[4].1 as int)
            && v.gas_limit.spec_encoding() == encoding.subrange(ranges[5].0 as int, ranges[5].1 as int)
            && v.builder_index.spec_encoding() == encoding.subrange(ranges[6].0 as int, ranges[6].1 as int)
            && v.slot.spec_encoding() == encoding.subrange(ranges[7].0 as int, ranges[7].1 as int)
            && v.value.spec_encoding() == encoding.subrange(ranges[8].0 as int, ranges[8].1 as int)
            && v.execution_payment.spec_encoding() == encoding.subrange(ranges[9].0 as int, ranges[9].1 as int)
            && v.blob_kzg_commitments.spec_encoding() == encoding.subrange(ranges[10].0 as int, ranges[10].1 as int)
            && v.execution_requests_root.spec_encoding() == encoding.subrange(ranges[11].0 as int, ranges[11].1 as int))
            ==> spec_ranges_fit(encoding, ExecutionPayloadBid::spec_layout(), ranges, v.spec_parts()),
{
    reveal(ExecutionPayloadBid::spec_parts);
    let parts = v.spec_parts();
    if spec_ranges_fit(encoding, ExecutionPayloadBid::spec_layout(), ranges, parts) {
        assert(parts[0].1 == encoding.subrange(ranges[0].0 as int, ranges[0].1 as int));
        assert(parts[1].1 == encoding.subrange(ranges[1].0 as int, ranges[1].1 as int));
        assert(parts[2].1 == encoding.subrange(ranges[2].0 as int, ranges[2].1 as int));
        assert(parts[3].1 == encoding.subrange(ranges[3].0 as int, ranges[3].1 as int));
        assert(parts[4].1 == encoding.subrange(ranges[4].0 as int, ranges[4].1 as int));
        assert(parts[5].1 == encoding.subrange(ranges[5].0 as int, ranges[5].1 as int));
        assert(parts[6].1 == encoding.subrange(ranges[6].0 as int, ranges[6].1 as int));
        assert(parts[7].1 == encoding.subrange(ranges[7].0 as int, ranges[7].1 as int));
        assert(parts[8].1 == encoding.subrange(ranges[8].0 as int, ranges[8].1 as int));
        assert(parts[9].1 == encoding.subrange(ranges[9].0 as int, ranges[9].1 as int));
        assert(parts[10].1 == encoding.subrange(ranges[10].0 as int, ranges[10].1 as int));
        assert(parts[11].1 == encoding.subrange(ranges[11].0 as int, ranges[11].1 as int));
    }
    if spec_layout_matches(ExecutionPayloadBid::spec_layout(), parts) && (v.parent_block_hash.spec_encoding() == encoding.subrange(ranges[0].0 as int, ranges[0].1 as int)
            && v.parent_block_root.spec_encoding() == encoding.subrange(ranges[1].0 as int, ranges[1].1 as int)
            && v.block_hash.spec_encoding() == encoding.subrange(ranges[2].0 as int, ranges[2].1 as int)
            && v.prev_randao.spec_encoding() == encoding.subrange(ranges[3].0 as int, ranges[3].1 as int)
            && v.fee_recipient.spec_encoding() == encoding.subrange(ranges[4].0 as int, ranges[4].1 as int)
            && v.gas_limit.spec_encoding() == encoding.subrange(ranges[5].0 as int, ranges[5].1 as int)
            && v.builder_index.spec_encoding() == encoding.subrange(ranges[6].0 as int, ranges[6].1 as int)
            && v.slot.spec_encoding() == encoding.subrange(ranges[7].0 as int, ranges[7].1 as int)
            && v.value.spec_encoding() == encoding.subrange(ranges[8].0 as int, ranges[8].1 as int)
            && v.execution_payment.spec_encoding() == encoding.subrange(ranges[9].0 as int, ranges[9].1 as int)
            && v.blob_kzg_commitments.spec_encoding() == encoding.subrange(ranges[10].0 as int, ranges[10].1 as int)
            && v.execution_requests_root.spec_encoding() == encoding.subrange(ranges[11].0 as int, ranges[11].1 as int)) {
        assert forall|i: int| 0 <= i < parts.len() implies #[trigger] parts[i].1 == encoding.subrange(ranges[i].0 as int, ranges[i].1 as int) by {
            if i == 0 { assert(parts[0].1 == v.parent_block_hash.spec_encoding()); } else if i == 1 { assert(parts[1].1 == v.parent_block_root.spec_encoding()); } else if i == 2 { assert(parts[2].1 == v.block_hash.spec_encoding()); } else if i == 3 { assert(parts[3].1 == v.prev_randao.spec_encoding()); } else if i == 4 { assert(parts[4].1 == v.fee_recipient.spec_encoding()); } else if i == 5 { assert(parts[5].1 == v.gas_limit.spec_encoding()); } else if i == 6 { assert(parts[6].1 == v.builder_index.spec_encoding()); } else if i == 7 { assert(parts[7].1 == v.slot.spec_encoding()); } else if i == 8 { assert(parts[8].1 == v.value.spec_encoding()); } else if i == 9 { assert(parts[9].1 == v.execution_payment.spec_encoding()); } else if i == 10 { assert(parts[10].1 == v.blob_kzg_commitments.spec_encoding()); } else if i == 11 { assert(parts[11].1 == v.execution_requests_root.spec_encoding()); }
        }
    }
}

impl SszCodec for ExecutionPayloadBid {
    open spec fn spec_fixed_size() -> Option<nat> {
        None
    }

    open spec fn spec_packed() -> bool {
        false
    }

    open spec fn spec_wf(&self) -> bool {
        self.spec_fields_wf()
    }

    open spec fn spec_encoding(&self) -> Seq<u8> {
        self.spec_ssz()
    }

    open spec fn spec_tree_root(&self) -> Seq<u8> {
        self.spec_root()
    }

    proof fn lemma_layout() {
    }

    proof fn lemma_shape(x: &Self) {

    }

    fn ssz_fixed_size() -> (r: Option<usize>) {
        None
    }

    fn ssz_packed() -> (r: bool) {
        false
    }

    fn ssz_encode(&self, buffer: &mut Vec<u8>) {
        let _ = self.serialize(buffer);
    }

    fn ssz_decode(bytes: &[u8]) -> (r: Result<Self, DeserializeError>) {
        Self::deserialize(bytes)
    }

    fn ssz_root(&self) -> (r: Node) {
        match self.hash_tree_root() {
            Ok(n) => n,
            Err(_) => Node([0u8; 32]),
        }
    }
}

impl SignedExecutionPayloadBid {
    /// The fields' places in the encoding: whether each is variable-size,
    /// and its encoding.
    #[verifier::opaque]
    pub open spec fn spec_parts(&self) -> Seq<FieldPart> {
        seq![
            (true, self.message.spec_encoding()),
            (false, self.signature.spec_encoding()),
        ]
    }

    /// Each field's fixed size, or zero for a variable-size field.
    pub open spec fn spec_layout() -> Seq<usize> {
        seq![0usize, 96usize]
    }

    /// The SSZ encoding: fixed-size fields and offsets, then variable-size
    /// fields.
    #[verifier::opaque]
    pub open spec fn spec_ssz(&self) -> Seq<u8> {
        spec_container_encoding(self.spec_parts(), 100)
    }

    /// The hash-tree-roots of the fields in order.
    #[verifier::opaque]
    pub open spec fn spec_field_roots(&self) -> Seq<Seq<u8>> {
        seq![
            self.message.spec_tree_root(),
            self.signature.spec_tree_root(),
        ]
    }

    /// The hash-tree-root: the merkle root of the field roots.
    pub open spec fn spec_root(&self) -> Seq<u8> {
        spec_merkleize(self.spec_field_roots())
    }

    /// Whether every field respects its bounds.
    #[verifier::opaque]
    pub open spec fn spec_fields_wf(&self) -> bool {
        &&& self.message.spec_wf()
        &&& self.signature.spec_wf()
    }

    /// Whether the container has a variable-size encoding.
    pub fn is_variable_size() -> (r: bool)
        ensures
            r == true,
    {
        true
    }

    /// The bytes taken by the fixed-size fields.
    pub fn size_hint() -> (r: usize)
        ensures
            r == 96,
    {
        96
    }

    /// Append the encoding.
    #[verifier::spinoff_prover]
    #[verifier::rlimit(100)]
    pub fn serialize(&self, buffer: &mut Vec<u8>) -> (r: Result<usize, SerializeError>)
        requires
            self.spec_fields_wf(),
            self.spec_ssz().len() <= u32::MAX,
        ensures
            r == Ok::<usize, SerializeError>(self.spec_ssz().len() as usize),
            final(buffer)@ == old(buffer)@ + self.spec_ssz(),
    {
        let ghost parts = self.spec_parts();
        proof {
            reveal(SignedExecutionPayloadBid::spec_ssz);
            reveal(SignedExecutionPayloadBid::spec_parts);
            reveal(SignedExecutionPayloadBid::spec_fields_wf);
            assert(parts.len() == 2);
            SszCodec::lemma_shape(&self.signature);
            assert(spec_layout_matches(Self::spec_layout(), parts));
            assert(spec_layout_head_len(Self::spec_layout()) == 100) by {
                reveal_with_fuel(spec_head_pos, 3);
            }
            assert(spec_head_pieces(parts, 100int).subrange(0, 0) =~= Seq::<Seq<u8>>::empty());
            assert(spec_tail_pieces(parts).subrange(0, 0) =~= Seq::<Seq<u8>>::empty());
        }
        let mut head: Vec<u8> = Vec::new();
        let mut tail: Vec<u8> = Vec::new();
        encode_variable_field(&self.message, &mut head, &mut tail, 100, Ghost(Self::spec_layout()), Ghost(parts), Ghost(0int));
        encode_fixed_field(&self.signature, &mut head, &tail, Ghost(Self::spec_layout()), Ghost(parts), Ghost(1int));
        proof {
            reveal(SignedExecutionPayloadBid::spec_ssz);
            reveal(SignedExecutionPayloadBid::spec_parts);
            reveal(SignedExecutionPayloadBid::spec_fields_wf);
            lemma_so_far_done(parts, 100int);
            assert(head@.len() + tail@.len() == self.spec_ssz().len());
        }
        let n = head.len() + tail.len();
        head.append(&mut tail);
        buffer.append(&mut head);
        Ok(n)
    }

    /// Decode from exactly the given bytes.
    #[verifier::spinoff_prover]
    #[verifier::rlimit(100)]
    pub fn deserialize(encoding: &[u8]) -> (r: Result<Self, DeserializeError>)
        ensures
            r matches Ok(v) ==> v.spec_fields_wf() && v.spec_ssz() == encoding@,
            encoding@.len() <= u32::MAX && (exists|v: Self| v.spec_fields_wf() && #[trigger] v.spec_ssz() == encoding@)
                ==> r is Ok,
    {
        let sizes: [usize; 2] = [0usize, 96usize];
        proof {
            assert(sizes@ =~= Self::spec_layout());
            lemma_signed_execution_payload_bid_head_len();
        }
        let ghost has_witness = encoding@.len() <= u32::MAX
            && exists|v: Self| v.spec_fields_wf() && #[trigger] v.spec_ssz() == encoding@;
        let ghost w = choose|v: Self| v.spec_fields_wf() && #[trigger] v.spec_ssz() == encoding@;
        proof {
            if has_witness {
                lemma_signed_execution_payload_bid_layout(w);
                reveal(SignedExecutionPayloadBid::spec_ssz);
            }
        }
        let ranges = match split_container(encoding, &sizes) {
            Ok(r) => r,
            Err(e) => {
                return Err(e);
            },
        };
        proof {
            if has_witness {
                reveal(SignedExecutionPayloadBid::spec_fields_wf);
                lemma_signed_execution_payload_bid_fields_fit(encoding@, ranges@, w);
            }
        }
        let message = match decode_field::<ExecutionPayloadBid>(encoding, &ranges, 0, Ghost(if has_witness { Some(w.message) } else { None })) {
            Ok(x) => x,
            Err(e) => {
                return Err(e);
            },
        };
        let signature = match decode_field::<BLSSignature>(encoding, &ranges, 1, Ghost(if has_witness { Some(w.signature) } else { None })) {
            Ok(x) => x,
            Err(e) => {
                return Err(e);
            },
        };
        let v = SignedExecutionPayloadBid { message, signature };
        proof {
            reveal(SignedExecutionPayloadBid::spec_ssz);
            reveal(SignedExecutionPayloadBid::spec_fields_wf);
            assert(v.spec_fields_wf());
            lemma_signed_execution_payload_bid_layout(v);
            lemma_signed_execution_payload_bid_fields_fit(encoding@, ranges@, v);
        }
        Ok(v)
    }

    /// The merkle root of the field roots.
    #[verifier::spinoff_prover]
    #[verifier::rlimit(100)]
    pub fn hash_tree_root(&self) -> (r: Result<Node, MerkleizationError>)
        requires
            self.spec_fields_wf(),
        ensures
            r matches Ok(n) && n.0@ == self.spec_root(),
    {
        proof {
            reveal(SignedExecutionPayloadBid::spec_fields_wf);
            reveal(SignedExecutionPayloadBid::spec_field_roots);
        }
        let r0 = self.message.ssz_root();
        let r1 = self.signature.ssz_root();
        let roots = [r0, r1];
        assert(roots_view(roots@) =~= self.spec_field_roots());
        Ok(merkleize_roots(roots.as_slice()))
    }

    /// A container is a composite type.
    pub fn is_composite_type() -> (r: bool)
        ensures
            r,
    {
        true
    }
}

/// The head of a `SignedExecutionPayloadBid` encoding is 100 bytes.
proof fn lemma_signed_execution_payload_bid_head_len()
    ensures
        spec_layout_head_len(SignedExecutionPayloadBid::spec_layout()) == 100,
{
    reveal_with_fuel(spec_head_pos, 3);
}

/// The parts of a `SignedExecutionPayloadBid` fit its field layout.
#[verifier::spinoff_prover]
#[verifier::rlimit(100)]
proof fn lemma_signed_execution_payload_bid_layout(x: SignedExecutionPayloadBid)
    requires
        x.spec_fields_wf(),
    ensures
        spec_layout_matches(SignedExecutionPayloadBid::spec_layout(), x.spec_parts()),
{
    reveal(SignedExecutionPayloadBid::spec_parts);
    reveal(SignedExecutionPayloadBid::spec_fields_wf);
    SszCodec::lemma_shape(&x.signature);
    let parts = x.spec_parts();
    let layout = SignedExecutionPayloadBid::spec_layout();
    assert forall|i: int| 0 <= i < parts.len() implies (#[trigger] parts[i].0 <==> layout[i] == 0)
        && (layout[i] > 0 ==> parts[i].1.len() == layout[i]) by {
        if i == 0 { } else if i == 1 { }
    }
}

/// The parts of a `SignedExecutionPayloadBid` fit byte ranges exactly when each field's
/// encoding is the bytes of its range.
#[verifier::spinoff_prover]
#[verifier::rlimit(100)]
proof fn lemma_signed_execution_payload_bid_fields_fit(encoding: Seq<u8>, ranges: Seq<(usize, usize)>, v: SignedExecutionPayloadBid)
    requires
        ranges.len() == 2,
    ensures
        spec_ranges_fit(encoding, SignedExecutionPayloadBid::spec_layout(), ranges, v.spec_parts()) ==> (v.message.spec_encoding() == encoding.subrange(ranges[0].0 as int, ranges[0].1 as int)
            && v.signature.spec_encoding() == encoding.subrange(ranges[1].0 as int, ranges[1].1 as int)),
        spec_layout_matches(SignedExecutionPayloadBid::spec_layout(), v.spec_parts()) && (v.message.spec_encoding() == encoding.subrange(ranges[0].0 as int, ranges[0].1 as int)
            && v.signature.spec_encoding() == encoding.subrange(ranges[1].0 as int, ranges[1].1 as int))
            ==> spec_ranges_fit(encoding, SignedExecutionPayloadBid::spec_layout(), ranges, v.spec_parts()),
{
    reveal(SignedExecutionPayloadBid::spec_parts);
    let parts = v.spec_parts();
    if spec_ranges_fit(encoding, SignedExecutionPayloadBid::spec_layout(), ranges, parts) {
        assert(parts[0].1 == encoding.subrange(ranges[0].0 as int, ranges[0].1 as int));
        assert(parts[1].1 == encoding.subrange(ranges[1].0 as int, ranges[1].1 as int));
    }
    if spec_layout_matches(SignedExecutionPayloadBid::spec_layout(), parts) && (v.message.spec_encoding() == encoding.subrange(ranges[0].0 as int, ranges[0].1 as int)
            && v.signature.spec_encoding() == encoding.subrange(ranges[1].0 as int, ranges[1].1 as int)) {
        assert forall|i: int| 0 <= i < parts.len() implies #[trigger] parts[i].1 == encoding.subrange(ranges[i].0 as int, ranges[i].1 as int) by {
            if i == 0 { assert(parts[0].1 == v.message.spec_encoding()); } else if i == 1 { assert(parts[1].1 == v.signature.spec_encoding()); }
        }
    }
}

impl SszCodec for SignedExecutionPayloadBid {
    open spec fn spec_fixed_size() -> Option<nat> {
        None
    }

    open spec fn spec_packed() -> bool {
        false
    }

    open spec fn spec_wf(&self) -> bool {
        self.spec_fields_wf()
    }

    open spec fn spec_encoding(&self) -> Seq<u8> {
        self.spec_ssz()
    }

    open spec fn spec_tree_root(&self) -> Seq<u8> {
        self.spec_root()
    }

    proof fn lemma_layout() {
    }

    proof fn lemma_shape(x: &Self) {

    }

    fn ssz_fixed_size() -> (r: Option<usize>) {
        None
    }

    fn ssz_packed() -> (r: bool) {
        false
    }

    fn ssz_encode(&self, buffer: &mut Vec<u8>) {
        let _ = self.serialize(buffer);
    }

    fn ssz_decode(bytes: &[u8]) -> (r: Result<Self, DeserializeError>) {
        Self::deserialize(bytes)
    }

    fn ssz_root(&self) -> (r: Node) {
        match self.hash_tree_root() {
            Ok(n) => n,
            Err(_) => Node([0u8; 32]),
        }
    }
}

impl ExecutionPayload {
    /// The fields' places in the encoding: whether each is variable-size,
    /// and its encoding.
    #[verifier::opaque]
    pub open spec fn spec_parts(&self) -> Seq<FieldPart> {
        seq![
            (false, self.parent_hash.spec_encoding()),
            (false, self.fee_recipient.spec_encoding()),
            (false, self.state_root.spec_encoding()),
            (false, self.receipts_root.spec_encoding()),
            (false, self.logs_bloom.spec_encoding()),
            (false, self.prev_randao.spec_encoding()),
            (false, self.block_number.spec_encoding()),
            (false, self.gas_limit.spec_encoding()),
            (false, self.gas_used.spec_encoding()),
            (false, self.timestamp.spec_encoding()),
            (true, self.extra_data.spec_encoding()),
            (false, self.base_fee_per_gas.spec_encoding()),
            (false, self.block_hash.spec_encoding()),
            (true, self.transactions.spec_encoding()),
            (true, self.withdrawals.spec_encoding()),
            (false, self.blob_gas_used.spec_encoding()),
            (false, self.excess_blob_gas.spec_encoding()),
            (true, self.block_access_list.spec_encoding()),
            (false, self.slot_number.spec_encoding()),
        ]
    }

    /// Each field's fixed size, or zero for a variable-size field.
    pub open spec fn spec_layout() -> Seq<usize> {
        seq![32usize, 20usize, 32usize, 32usize, 256usize, 32usize, 8usize, 8usize, 8usize, 8usize, 0usize, 32usize, 32usize, 0usize, 0usize, 8usize, 8usize, 0usize, 8usize]
    }

    /// The SSZ encoding: fixed-size fields and offsets, then variable-size
    /// fields.
    #[verifier::opaque]
    pub open spec fn spec_ssz(&self) -> Seq<u8> {
        spec_container_encoding(self.spec_parts(), 540)
    }

    /// The hash-tree-roots of the fields in order.
    #[verifier::opaque]
    pub open spec fn spec_field_roots(&self) -> Seq<Seq<u8>> {
        seq![
            self.parent_hash.spec_tree_root(),
            self.fee_recipient.spec_tree_root(),
            self.state_root.spec_tree_root(),
            self.receipts_root.spec_tree_root(),
            self.logs_bloom.spec_tree_root(),
            self.prev_randao.spec_tree_root(),
            self.block_number.spec_tree_root(),
            self.gas_limit.spec_tree_root(),
            self.gas_used.spec_tree_root(),
            self.timestamp.spec_tree_root(),
            self.extra_data.spec_tree_root(),
            self.base_fee_per_gas.spec_tree_root(),
            self.block_hash.spec_tree_root(),
            self.transactions.spec_tree_root(),
            self.withdrawals.spec_tree_root(),
            self.blob_gas_used.spec_tree_root(),
            self.excess_blob_gas.spec_tree_root(),
            self.block_access_list.spec_tree_root(),
            self.slot_number.spec_tree_root(),
        ]
    }

    /// The hash-tree-root: the merkle root of the field roots.
    pub open spec fn spec_root(&self) -> Seq<u8> {
        spec_merkleize(self.spec_field_roots())
    }

    /// Whether every field respects its bounds.
    #[verifier::opaque]
    pub open spec fn spec_fields_wf(&self) -> bool {
        &&& self.parent_hash.spec_wf()
        &&& self.fee_recipient.spec_wf()
        &&& self.state_root.spec_wf()
        &&& self.receipts_root.spec_wf()
        &&& self.logs_bloom.spec_wf()
        &&& self.prev_randao.spec_wf()
        &&& self.block_number.spec_wf()
        &&& self.gas_limit.spec_wf()
        &&& self.gas_used.spec_wf()
        &&& self.timestamp.spec_wf()
        &&& self.extra_data.spec_wf()
        &&& self.base_fee_per_gas.spec_wf()
        &&& self.block_hash.spec_wf()
        &&& self.transactions.spec_wf()
        &&& self.withdrawals.spec_wf()
        &&& self.blob_gas_used.spec_wf()
        &&& self.excess_blob_gas.spec_wf()
        &&& self.block_access_list.spec_wf()
        &&& self.slot_number.spec_wf()
    }

    /// Whether the container has a variable-size encoding.
    pub fn is_variable_size() -> (r: bool)
        ensures
            r == true,
    {
        true
    }

    /// The bytes taken by the fixed-size fields.
    pub fn size_hint() -> (r: usize)
        ensures
            r == 524,
    {
        524
    }

    /// Append the encoding.
    #[verifier::spinoff_prover]
    #[verifier::rlimit(100)]
    pub fn serialize(&self, buffer: &mut Vec<u8>) -> (r: Result<usize, SerializeError>)
        requires
            self.spec_fields_wf(),
            self.spec_ssz().len() <= u32::MAX,
        ensures
            r == Ok::<usize, SerializeError>(self.spec_ssz().len() as usize),
            final(buffer)@ == old(buffer)@ + self.spec_ssz(),
    {
        let ghost parts = self.spec_parts();
        proof {
            reveal(ExecutionPayload::spec_ssz);
            reveal(ExecutionPayload::spec_parts);
            reveal(ExecutionPayload::spec_fields_wf);
            assert(parts.len() == 19);
            SszCodec::lemma_shape(&self.parent_hash);
            SszCodec::lemma_shape(&self.fee_recipient);
            SszCodec::lemma_shape(&self.state_root);
            SszCodec::lemma_shape(&self.receipts_root);
            SszCodec::lemma_shape(&self.logs_bloom);
            SszCodec::lemma_shape(&self.prev_randao);
            SszCodec::lemma_shape(&self.block_number);
            SszCodec::lemma_shape(&self.gas_limit);
            SszCodec::lemma_shape(&self.gas_used);
            SszCodec::lemma_shape(&self.timestamp);
            SszCodec::lemma_shape(&self.base_fee_per_gas);
            SszCodec::lemma_shape(&self.block_hash);
            SszCodec::lemma_shape(&self.blob_gas_used);
            SszCodec::lemma_shape(&self.excess_blob_gas);
            SszCodec::lemma_shape(&self.slot_number);
            assert(spec_layout_matches(Self::spec_layout(), parts));
            assert(spec_layout_head_len(Self::spec_layout()) == 540) by {
                reveal_with_fuel(spec_head_pos, 20);
            }
            assert(spec_head_pieces(parts, 540int).subrange(0, 0) =~= Seq::<Seq<u8>>::empty());
            assert(spec_tail_pieces(parts).subrange(0, 0) =~= Seq::<Seq<u8>>::empty());
        }
        let mut head: Vec<u8> = Vec::new();
        let mut tail: Vec<u8> = Vec::new();
        encode_fixed_field(&self.parent_hash, &mut head, &tail, Ghost(Self::spec_layout()), Ghost(parts), Ghost(0int));
        encode_fixed_field(&self.fee_recipient, &mut head, &tail, Ghost(Self::spec_layout()), Ghost(parts), Ghost(1int));
        encode_fixed_field(&self.state_root, &mut head, &tail, Ghost(Self::spec_layout()), Ghost(parts), Ghost(2int));
        encode_fixed_field(&self.receipts_root, &mut head, &tail, Ghost(Self::spec_layout()), Ghost(parts), Ghost(3int));
        encode_fixed_field(&self.logs_bloom, &mut head, &tail, Ghost(Self::spec_layout()), Ghost(parts), Ghost(4int));
        encode_fixed_field(&self.prev_randao, &mut head, &tail, Ghost(Self::spec_layout()), Ghost(parts), Ghost(5int));
        encode_fixed_field(&self.block_number, &mut head, &tail, Ghost(Self::spec_layout()), Ghost(parts), Ghost(6int));
        encode_fixed_field(&self.gas_limit, &mut head, &tail, Ghost(Self::spec_layout()), Ghost(parts), Ghost(7int));
        encode_fixed_field(&self.gas_used, &mut head, &tail, Ghost(Self::spec_layout()), Ghost(parts), Ghost(8int));
        encode_fixed_field(&self.timestamp, &mut head, &tail, Ghost(Self::spec_layout()), Ghost(parts), Ghost(9int));
        encode_variable_field(&self.extra_data, &mut head, &mut tail, 540, Ghost(Self::spec_layout()), Ghost(parts), Ghost(10int));
        encode_fixed_field(&self.base_fee_per_gas, &mut head, &tail, Ghost(Self::spec_layout()), Ghost(parts), Ghost(11int));
        encode_fixed_field(&self.block_hash, &mut head, &tail, Ghost(Self::spec_layout()), Ghost(parts), Ghost(12int));
        encode_variable_field(&self.transactions, &mut head, &mut tail, 540, Ghost(Self::spec_layout()), Ghost(parts), Ghost(13int));
        encode_variable_field(&self.withdrawals, &mut head, &mut tail, 540, Ghost(Self::spec_layout()), Ghost(parts), Ghost(14int));
        encode_fixed_field(&self.blob_gas_used, &mut head, &tail, Ghost(Self::spec_layout()), Ghost(parts), Ghost(15int));
        encode_fixed_field(&self.excess_blob_gas, &mut head, &tail, Ghost(Self::spec_layout()), Ghost(parts), Ghost(16int));
        encode_variable_field(&self.block_access_list, &mut head, &mut tail, 540, Ghost(Self::spec_layout()), Ghost(parts), Ghost(17int));
        encode_fixed_field(&self.slot_number, &mut head, &tail, Ghost(Self::spec_layout()), Ghost(parts), Ghost(18int));
        proof {
            reveal(ExecutionPayload::spec_ssz);
            reveal(ExecutionPayload::spec_parts);
            reveal(ExecutionPayload::spec_fields_wf);
            lemma_so_far_done(parts, 540int);
            assert(head@.len() + tail@.len() == self.spec_ssz().len());
        }
        let n = head.len() + tail.len();
        head.append(&mut tail);
        buffer.append(&mut head);
        Ok(n)
    }

    /// Decode from exactly the given bytes.
    #[verifier::spinoff_prover]
    #[verifier::rlimit(100)]
    pub fn deserialize(encoding: &[u8]) -> (r: Result<Self, DeserializeError>)
        ensures
            r matches Ok(v) ==> v.spec_fields_wf() && v.spec_ssz() == encoding@,
            encoding@.len() <= u32::MAX && (exists|v: Self| v.spec_fields_wf() && #[trigger] v.spec_ssz() == encoding@)
                ==> r is Ok,
    {
        let sizes: [usize; 19] = [32usize, 20usize, 32usize, 32usize, 256usize, 32usize, 8usize, 8usize, 8usize, 8usize, 0usize, 32usize, 32usize, 0usize, 0usize, 8usize, 8usize, 0usize, 8usize];
        proof {
            assert(sizes@ =~= Self::spec_layout());
            lemma_execution_payload_head_len();
        }
        let ghost has_witness = encoding@.len() <= u32::MAX
            && exists|v: Self| v.spec_fields_wf() && #[trigger] v.spec_ssz() == encoding@;
        let ghost w = choose|v: Self| v.spec_fields_wf() && #[trigger] v.spec_ssz() == encoding@;
        proof {
            if has_witness {
                lemma_execution_payload_layout(w);
                reveal(ExecutionPayload::spec_ssz);
            }
        }
        let ranges = match split_container(encoding, &sizes) {
            Ok(r) => r,
            Err(e) => {
                return Err(e);
            },
        };
        proof {
            if has_witness {
                reveal(ExecutionPayload::spec_fields_wf);
                lemma_execution_payload_fields_fit(encoding@, ranges@, w);
            }
        }
        let (parent_hash, fee_recipient, state_root, receipts_root, logs_bloom, prev_randao, block_number, gas_limit) = match decode_signed_execution_payload_bid_group_0(encoding, &ranges, Ghost(if has_witness { Some(w) } else { None })) {
            Ok(t) => t,
            Err(e) => {
                return Err(e);
            },
        };
        let (gas_used, timestamp, extra_data, base_fee_per_gas, block_hash, transactions, withdrawals, blob_gas_used) = match decode_signed_execution_payload_bid_group_1(encoding, &ranges, Ghost(if has_witness { Some(w) } else { None })) {
            Ok(t) => t,
            Err(e) => {
                return Err(e);
            },
        };
        let (excess_blob_gas, block_access_list, slot_number) = match decode_signed_execution_payload_bid_group_2(encoding, &ranges, Ghost(if has_witness { Some(w) } else { None })) {
            Ok(t) => t,
            Err(e) => {
                return Err(e);
            },
        };
        let v = ExecutionPayload { parent_hash, fee_recipient, state_root, receipts_root, logs_bloom, prev_randao, block_number, gas_limit, gas_used, timestamp, extra_data, base_fee_per_gas, block_hash, transactions, withdrawals, blob_gas_used, excess_blob_gas, block_access_list, slot_number };
        proof {
            reveal(ExecutionPayload::spec_ssz);
            reveal(ExecutionPayload::spec_fields_wf);
            assert(v.spec_fields_wf());
            lemma_execution_payload_layout(v);
            lemma_execution_payload_fields_fit(encoding@, ranges@, v);
        }
        Ok(v)
    }

    /// The merkle root of the field roots.
    #[verifier::spinoff_prover]
    #[verifier::rlimit(100)]
    pub fn hash_tree_root(&self) -> (r: Result<Node, MerkleizationError>)
        requires
            self.spec_fields_wf(),
        ensures
            r matches Ok(n) && n.0@ == self.spec_root(),
    {
        proof {
            reveal(ExecutionPayload::spec_fields_wf);
            reveal(ExecutionPayload::spec_field_roots);
        }
        let r0 = self.parent_hash.ssz_root();
        let r1 = self.fee_recipient.ssz_root();
        let r2 = self.state_root.ssz_root();
        let r3 = self.receipts_root.ssz_root();
        let r4 = self.logs_bloom.ssz_root();
        let r5 = self.prev_randao.ssz_root();
        let r6 = self.block_number.ssz_root();
        let r7 = self.gas_limit.ssz_root();
        let r8 = self.gas_used.ssz_root();
        let r9 = self.timestamp.ssz_root();
        let r10 = self.extra_data.ssz_root();
        let r11 = self.base_fee_per_gas.ssz_root();
        let r12 = self.block_hash.ssz_root();
        let r13 = self.transactions.ssz_root();
        let r14 = self.withdrawals.ssz_root();
        let r15 = self.blob_gas_used.ssz_root();
        let r16 = self.excess_blob_gas.ssz_root();
        let r17 = self.block_access_list.ssz_root();
        let r18 = self.slot_number.ssz_root();
        let roots = [r0, r1, r2, r3, r4, r5, r6, r7, r8, r9, r10, r11, r12, r13, r14, r15, r16, r17, r18];
        assert(roots_view(roots@) =~= self.spec_field_roots());
        Ok(merkleize_roots(roots.as_slice()))
    }

    /// A container is a composite type.
    pub fn is_composite_type() -> (r: bool)
        ensures
            r,
    {
        true
    }
}

/// Decode fields 0 to 7 of a `ExecutionPayload`.
#[verifier::spinoff_prover]
fn decode_signed_execution_payload_bid_group_0(encoding: &[u8], ranges: &Vec<(usize, usize)>, Ghost(expected): Ghost<Option<ExecutionPayload>>) -> (r: Result<(Hash32, ExecutionAddress, [u8; 32], [u8; 32], Vector<u8, BYTES_PER_LOGS_BLOOM>, [u8; 32], u64, u64), DeserializeError>)
    requires
        ranges@.len() == 19,
        forall|q: int| 0 <= q < ranges@.len() ==> #[trigger] ranges@[q].0 <= ranges@[q].1 <= encoding@.len(),
        expected matches Some(x) ==> encoding@.len() <= u32::MAX
            && x.parent_hash.spec_wf() && x.parent_hash.spec_encoding() == encoding@.subrange(ranges@[0].0 as int, ranges@[0].1 as int)
            && x.fee_recipient.spec_wf() && x.fee_recipient.spec_encoding() == encoding@.subrange(ranges@[1].0 as int, ranges@[1].1 as int)
            && x.state_root.spec_wf() && x.state_root.spec_encoding() == encoding@.subrange(ranges@[2].0 as int, ranges@[2].1 as int)
            && x.receipts_root.spec_wf() && x.receipts_root.spec_encoding() == encoding@.subrange(ranges@[3].0 as int, ranges@[3].1 as int)
            && x.logs_bloom.spec_wf() && x.logs_bloom.spec_encoding() == encoding@.subrange(ranges@[4].0 as int, ranges@[4].1 as int)
            && x.prev_randao.spec_wf() && x.prev_randao.spec_encoding() == encoding@.subrange(ranges@[5].0 as int, ranges@[5].1 as int)
            && x.block_number.spec_wf() && x.block_number.spec_encoding() == encoding@.subrange(ranges@[6].0 as int, ranges@[6].1 as int)
            && x.gas_limit.spec_wf() && x.gas_limit.spec_encoding() == encoding@.subrange(ranges@[7].0 as int, ranges@[7].1 as int),
    ensures
        r matches Ok(t) ==> t.0.spec_wf() && t.0.spec_encoding() == encoding@.subrange(ranges@[0].0 as int, ranges@[0].1 as int)
            && t.1.spec_wf() && t.1.spec_encoding() == encoding@.subrange(ranges@[1].0 as int, ranges@[1].1 as int)
            && t.2.spec_wf() && t.2.spec_encoding() == encoding@.subrange(ranges@[2].0 as int, ranges@[2].1 as int)
            && t.3.spec_wf() && t.3.spec_encoding() == encoding@.subrange(ranges@[3].0 as int, ranges@[3].1 as int)
            && t.4.spec_wf() && t.4.spec_encoding() == encoding@.subrange(ranges@[4].0 as int, ranges@[4].1 as int)
            && t.5.spec_wf() && t.5.spec_encoding() == encoding@.subrange(ranges@[5].0 as int, ranges@[5].1 as int)
            && t.6.spec_wf() && t.6.spec_encoding() == encoding@.subrange(ranges@[6].0 as int, ranges@[6].1 as int)
            && t.7.spec_wf() && t.7.spec_encoding() == encoding@.subrange(ranges@[7].0 as int, ranges@[7].1 as int),
        expected is Some ==> r is Ok,
{
    proof {
        if expected is Some {
            let x = expected->Some_0;
            assert(x.parent_hash.spec_wf());
            assert(x.parent_hash.spec_encoding() == encoding@.subrange(ranges@[0].0 as int, ranges@[0].1 as int));
        }
    }
    let parent_hash = match decode_field::<Hash32>(encoding, ranges, 0, Ghost(match expected { Some(x) => Some(x.parent_hash), None => None })) {
        Ok(x) => x,
        Err(e) => {
            return Err(e);
        },
    };
    proof {
        if expected is Some {
            let x = expected->Some_0;
            assert(x.fee_recipient.spec_wf());
            assert(x.fee_recipient.spec_encoding() == encoding@.subrange(ranges@[1].0 as int, ranges@[1].1 as int));
        }
    }
    let fee_recipient = match decode_field::<ExecutionAddress>(encoding, ranges, 1, Ghost(match expected { Some(x) => Some(x.fee_recipient), None => None })) {
        Ok(x) => x,
        Err(e) => {
            return Err(e);
        },
    };
    proof {
        if expected is Some {
            let x = expected->Some_0;
            assert(x.state_root.spec_wf());
            assert(x.state_root.spec_encoding() == encoding@.subrange(ranges@[2].0 as int, ranges@[2].1 as int));
        }
    }
    let state_root = match decode_field::<[u8; 32]>(encoding, ranges, 2, Ghost(match expected { Some(x) => Some(x.state_root), None => None })) {
        Ok(x) => x,
        Err(e) => {
            return Err(e);
        },
    };
    proof {
        if expected is Some {
            let x = expected->Some_0;
            assert(x.receipts_root.spec_wf());
            assert(x.receipts_root.spec_encoding() == encoding@.subrange(ranges@[3].0 as int, ranges@[3].1 as int));
        }
    }
    let receipts_root = match decode_field::<[u8; 32]>(encoding, ranges, 3, Ghost(match expected { Some(x) => Some(x.receipts_root), None => None })) {
        Ok(x) => x,
        Err(e) => {
            return Err(e);
        },
    };
    proof {
        if expected is Some {
            let x = expected->Some_0;
            assert(x.logs_bloom.spec_wf());
            assert(x.logs_bloom.spec_encoding() == encoding@.subrange(ranges@[4].0 as int, ranges@[4].1 as int));
        }
    }
    let logs_bloom = match decode_field::<Vector<u8, BYTES_PER_LOGS_BLOOM>>(encoding, ranges, 4, Ghost(match expected { Some(x) => Some(x.logs_bloom), None => None })) {
        Ok(x) => x,
        Err(e) => {
            return Err(e);
        },
    };
    proof {
        if expected is Some {
            let x = expected->Some_0;
            assert(x.prev_randao.spec_wf());
            assert(x.prev_randao.spec_encoding() == encoding@.subrange(ranges@[5].0 as int, ranges@[5].1 as int));
        }
    }
    let prev_randao = match decode_field::<[u8; 32]>(encoding, ranges, 5, Ghost(match expected { Some(x) => Some(x.prev_randao), None => None })) {
        Ok(x) => x,
        Err(e) => {
            return Err(e);
        },
    };
    proof {
        if expected is Some {
            let x = expected->Some_0;
            assert(x.block_number.spec_wf());
            assert(x.block_number.spec_encoding() == encoding@.subrange(ranges@[6].0 as int, ranges@[6].1 as int));
        }
    }
    let block_number = match decode_field::<u64>(encoding, ranges, 6, Ghost(match expected { Some(x) => Some(x.block_number), None => None })) {
        Ok(x) => x,
        Err(e) => {
            return Err(e);
        },
    };
    proof {
        if expected is Some {
            let x = expected->Some_0;
            assert(x.gas_limit.spec_wf());
            assert(x.gas_limit.spec_encoding() == encoding@.subrange(ranges@[7].0 as int, ranges@[7].1 as int));
        }
    }
    let gas_limit = match decode_field::<u64>(encoding, ranges, 7, Ghost(match expected { Some(x) => Some(x.gas_limit), None => None })) {
        Ok(x) => x,
        Err(e) => {
            return Err(e);
        },
    };
    Ok((parent_hash, fee_recipient, state_root, receipts_root, logs_bloom, prev_randao, block_number, gas_limit))
}

/// Decode fields 8 to 15 of a `ExecutionPayload`.
#[verifier::spinoff_prover]
fn decode_signed_execution_payload_bid_group_1(encoding: &[u8], ranges: &Vec<(usize, usize)>, Ghost(expected): Ghost<Option<ExecutionPayload>>) -> (r: Result<(u64, u64, List<u8, MAX_EXTRA_DATA_BYTES>, Uint256, Hash32, List<List<u8, MAX_BYTES_PER_TRANSACTION>, MAX_TRANSACTIONS_PER_PAYLOAD>, List<Withdrawal, MAX_WITHDRAWALS_PER_PAYLOAD>, u64), DeserializeError>)
    requires
        ranges@.len() == 19,
        forall|q: int| 0 <= q < ranges@.len() ==> #[trigger] ranges@[q].0 <= ranges@[q].1 <= encoding@.len(),
        expected matches Some(x) ==> encoding@.len() <= u32::MAX
            && x.gas_used.spec_wf() && x.gas_used.spec_encoding() == encoding@.subrange(ranges@[8].0 as int, ranges@[8].1 as int)
            && x.timestamp.spec_wf() && x.timestamp.spec_encoding() == encoding@.subrange(ranges@[9].0 as int, ranges@[9].1 as int)
            && x.extra_data.spec_wf() && x.extra_data.spec_encoding() == encoding@.subrange(ranges@[10].0 as int, ranges@[10].1 as int)
            && x.base_fee_per_gas.spec_wf() && x.base_fee_per_gas.spec_encoding() == encoding@.subrange(ranges@[11].0 as int, ranges@[11].1 as int)
            && x.block_hash.spec_wf() && x.block_hash.spec_encoding() == encoding@.subrange(ranges@[12].0 as int, ranges@[12].1 as int)
            && x.transactions.spec_wf() && x.transactions.spec_encoding() == encoding@.subrange(ranges@[13].0 as int, ranges@[13].1 as int)
            && x.withdrawals.spec_wf() && x.withdrawals.spec_encoding() == encoding@.subrange(ranges@[14].0 as int, ranges@[14].1 as int)
            && x.blob_gas_used.spec_wf() && x.blob_gas_used.spec_encoding() == encoding@.subrange(ranges@[15].0 as int, ranges@[15].1 as int),
    ensures
        r matches Ok(t) ==> t.0.spec_wf() && t.0.spec_encoding() == encoding@.subrange(ranges@[8].0 as int, ranges@[8].1 as int)
            && t.1.spec_wf() && t.1.spec_encoding() == encoding@.subrange(ranges@[9].0 as int, ranges@[9].1 as int)
            && t.2.spec_wf() && t.2.spec_encoding() == encoding@.subrange(ranges@[10].0 as int, ranges@[10].1 as int)
            && t.3.spec_wf() && t.3.spec_encoding() == encoding@.subrange(ranges@[11].0 as int, ranges@[11].1 as int)
            && t.4.spec_wf() && t.4.spec_encoding() == encoding@.subrange(ranges@[12].0 as int, ranges@[12].1 as int)
            && t.5.spec_wf() && t.5.spec_encoding() == encoding@.subrange(ranges@[13].0 as int, ranges@[13].1 as int)
            && t.6.spec_wf() && t.6.spec_encoding() == encoding@.subrange(ranges@[14].0 as int, ranges@[14].1 as int)
            && t.7.spec_wf() && t.7.spec_encoding() == encoding@.subrange(ranges@[15].0 as int, ranges@[15].1 as int),
        expected is Some ==> r is Ok,
{
    proof {
        if expected is Some {
            let x = expected->Some_0;
            assert(x.gas_used.spec_wf());
            assert(x.gas_used.spec_encoding() == encoding@.subrange(ranges@[8].0 as int, ranges@[8].1 as int));
        }
    }
    let gas_used = match decode_field::<u64>(encoding, ranges, 8, Ghost(match expected { Some(x) => Some(x.gas_used), None => None })) {
        Ok(x) => x,
        Err(e) => {
            return Err(e);
        },
    };
    proof {
        if expected is Some {
            let x = expected->Some_0;
            assert(x.timestamp.spec_wf());
            assert(x.timestamp.spec_encoding() == encoding@.subrange(ranges@[9].0 as int, ranges@[9].1 as int));
        }
    }
    let timestamp = match decode_field::<u64>(encoding, ranges, 9, Ghost(match expected { Some(x) => Some(x.timestamp), None => None })) {
        Ok(x) => x,
        Err(e) => {
            return Err(e);
        },
    };
    proof {
        if expected is Some {
            let x = expected->Some_0;
            assert(x.extra_data.spec_wf());
            assert(x.extra_data.spec_encoding() == encoding@.subrange(ranges@[10].0 as int, ranges@[10].1 as int));
        }
    }
    let extra_data = match decode_field::<List<u8, MAX_EXTRA_DATA_BYTES>>(encoding, ranges, 10, Ghost(match expected { Some(x) => Some(x.extra_data), None => None })) {
        Ok(x) => x,
        Err(e) => {
            return Err(e);
        },
    };
    proof {
        if expected is Some {
            let x = expected->Some_0;
            assert(x.base_fee_per_gas.spec_wf());
            assert(x.base_fee_per_gas.spec_encoding() == encoding@.subrange(ranges@[11].0 as int, ranges@[11].1 as int));
        }
    }
    let base_fee_per_gas = match decode_field::<Uint256>(encoding, ranges, 11, Ghost(match expected { Some(x) => Some(x.base_fee_per_gas), None => None })) {
        Ok(x) => x,
        Err(e) => {
            return Err(e);
        },
    };
    proof {
        if expected is Some {
            let x = expected->Some_0;
            assert(x.block_hash.spec_wf());
            assert(x.block_hash.spec_encoding() == encoding@.subrange(ranges@[12].0 as int, ranges@[12].1 as int));
        }
    }
    let block_hash = match decode_field::<Hash32>(encoding, ranges, 12, Ghost(match expected { Some(x) => Some(x.block_hash), None => None })) {
        Ok(x) => x,
        Err(e) => {
            return Err(e);
        },
    };
    proof {
        if expected is Some {
            let x = expected->Some_0;
            assert(x.transactions.spec_wf());
            assert(x.transactions.spec_encoding() == encoding@.subrange(ranges@[13].0 as int, ranges@[13].1 as int));
        }
    }
    let transactions = match decode_field::<List<List<u8, MAX_BYTES_PER_TRANSACTION>, MAX_TRANSACTIONS_PER_PAYLOAD>>(encoding, ranges, 13, Ghost(match expected { Some(x) => Some(x.transactions), None => None })) {
        Ok(x) => x,
        Err(e) => {
            return Err(e);
        },
    };
    proof {
        if expected is Some {
            let x = expected->Some_0;
            assert(x.withdrawals.spec_wf());
            assert(x.withdrawals.spec_encoding() == encoding@.subrange(ranges@[14].0 as int, ranges@[14].1 as int));
        }
    }
    let withdrawals = match decode_field::<List<Withdrawal, MAX_WITHDRAWALS_PER_PAYLOAD>>(encoding, ranges, 14, Ghost(match expected { Some(x) => Some(x.withdrawals), None => None })) {
        Ok(x) => x,
        Err(e) => {
            return Err(e);
        },
    };
    proof {
        if expected is Some {
            let x = expected->Some_0;
            assert(x.blob_gas_used.spec_wf());
            assert(x.blob_gas_used.spec_encoding() == encoding@.subrange(ranges@[15].0 as int, ranges@[15].1 as int));
        }
    }
    let blob_gas_used = match decode_field::<u64>(encoding, ranges, 15, Ghost(match expected { Some(x) => Some(x.blob_gas_used), None => None })) {
        Ok(x) => x,
        Err(e) => {
            return Err(e);
        },
    };
    Ok((gas_used, timestamp, extra_data, base_fee_per_gas, block_hash, transactions, withdrawals, blob_gas_used))
}

/// Decode fields 16 to 18 of a `ExecutionPayload`.
#[verifier::spinoff_prover]
fn decode_signed_execution_payload_bid_group_2(encoding: &[u8], ranges: &Vec<(usize, usize)>, Ghost(expected): Ghost<Option<ExecutionPayload>>) -> (r: Result<(u64, List<u8, MAX_BYTES_PER_TRANSACTION>, u64), DeserializeError>)
    requires
        ranges@.len() == 19,
        forall|q: int| 0 <= q < ranges@.len() ==> #[trigger] ranges@[q].0 <= ranges@[q].1 <= encoding@.len(),
        expected matches Some(x) ==> encoding@.len() <= u32::MAX
            && x.excess_blob_gas.spec_wf() && x.excess_blob_gas.spec_encoding() == encoding@.subrange(ranges@[16].0 as int, ranges@[16].1 as int)
            && x.block_access_list.spec_wf() && x.block_access_list.spec_encoding() == encoding@.subrange(ranges@[17].0 as int, ranges@[17].1 as int)
            && x.slot_number.spec_wf() && x.slot_number.spec_encoding() == encoding@.subrange(ranges@[18].0 as int, ranges@[18].1 as int),
    ensures
        r matches Ok(t) ==> t.0.spec_wf() && t.0.spec_encoding() == encoding@.subrange(ranges@[16].0 as int, ranges@[16].1 as int)
            && t.1.spec_wf() && t.1.spec_encoding() == encoding@.subrange(ranges@[17].0 as int, ranges@[17].1 as int)
            && t.2.spec_wf() && t.2.spec_encoding() == encoding@.subrange(ranges@[18].0 as int, ranges@[18].1 as int),
        expected is Some ==> r is Ok,
{
    proof {
        if expected is Some {
            let x = expected->Some_0;
            assert(x.excess_blob_gas.spec_wf());
            assert(x.excess_blob_gas.spec_encoding() == encoding@.subrange(ranges@[16].0 as int, ranges@[16].1 as int));
        }
    }
    let excess_blob_gas = match decode_field::<u64>(encoding, ranges, 16, Ghost(match expected { Some(x) => Some(x.excess_blob_gas), None => None })) {
        Ok(x) => x,
        Err(e) => {
            return Err(e);
        },
    };
    proof {
        if expected is Some {
            let x = expected->Some_0;
            assert(x.block_access_list.spec_wf());
            assert(x.block_access_list.spec_encoding() == encoding@.subrange(ranges@[17].0 as int, ranges@[17].1 as int));
        }
    }
    let block_access_list = match decode_field::<List<u8, MAX_BYTES_PER_TRANSACTION>>(encoding, ranges, 17, Ghost(match expected { Some(x) => Some(x.block_access_list), None => None })) {
        Ok(x) => x,
        Err(e) => {
            return Err(e);
        },
    };
    proof {
        if expected is Some {
            let x = expected->Some_0;
            assert(x.slot_number.spec_wf());
            assert(x.slot_number.spec_encoding() == encoding@.subrange(ranges@[18].0 as int, ranges@[18].1 as int));
        }
    }
    let slot_number = match decode_field::<u64>(encoding, ranges, 18, Ghost(match expected { Some(x) => Some(x.slot_number), None => None })) {
        Ok(x) => x,
        Err(e) => {
            return Err(e);
        },
    };
    Ok((excess_blob_gas, block_access_list, slot_number))
}

/// The head of a `ExecutionPayload` encoding is 540 bytes.
proof fn lemma_execution_payload_head_len()
    ensures
        spec_layout_head_len(ExecutionPayload::spec_layout()) == 540,
{
    reveal_with_fuel(spec_head_pos, 20);
}

/// The parts of a `ExecutionPayload` fit its field layout.
#[verifier::spinoff_prover]
#[verifier::rlimit(100)]
proof fn lemma_execution_payload_layout(x: ExecutionPayload)
    requires
        x.spec_fields_wf(),
    ensures
        spec_layout_matches(ExecutionPayload::spec_layout(), x.spec_parts()),
{
    reveal(ExecutionPayload::spec_parts);
    reveal(ExecutionPayload::spec_fields_wf);
    SszCodec::lemma_shape(&x.parent_hash);
    SszCodec::lemma_shape(&x.fee_recipient);
    SszCodec::lemma_shape(&x.state_root);
    SszCodec::lemma_shape(&x.receipts_root);
    SszCodec::lemma_shape(&x.logs_bloom);
    SszCodec::lemma_shape(&x.prev_randao);
    SszCodec::lemma_shape(&x.block_number);
    SszCodec::lemma_shape(&x.gas_limit);
    SszCodec::lemma_shape(&x.gas_used);
    SszCodec::lemma_shape(&x.timestamp);
    SszCodec::lemma_shape(&x.base_fee_per_gas);
    SszCodec::lemma_shape(&x.block_hash);
    SszCodec::lemma_shape(&x.blob_gas_used);
    SszCodec::lemma_shape(&x.excess_blob_gas);
    SszCodec::lemma_shape(&x.slot_number);
    let parts = x.spec_parts();
    let layout = ExecutionPayload::spec_layout();
    assert forall|i: int| 0 <= i < parts.len() implies (#[trigger] parts[i].0 <==> layout[i] == 0)
        && (layout[i] > 0 ==> parts[i].1.len() == layout[i]) by {
        if i == 0 { } else if i == 1 { } else if i == 2 { } else if i == 3 { } else if i == 4 { } else if i == 5 { } else if i == 6 { } else if i == 7 { } else if i == 8 { } else if i == 9 { } else if i == 10 { } else if i == 11 { } else if i == 12 { } else if i == 13 { } else if i == 14 { } else if i == 15 { } else if i == 16 { } else if i == 17 { } else if i == 18 { }
    }
}

/// The parts of a `ExecutionPayload` fit byte ranges exactly when each field's
/// encoding is the bytes of its range.
#[verifier::spinoff_prover]
#[verifier::rlimit(100)]
proof fn lemma_execution_payload_fields_fit(encoding: Seq<u8>, ranges: Seq<(usize, usize)>, v: ExecutionPayload)
    requires
        ranges.len() == 19,
    ensures
        spec_ranges_fit(encoding, ExecutionPayload::spec_layout(), ranges, v.spec_parts()) ==> (v.parent_hash.spec_encoding() == encoding.subrange(ranges[0].0 as int, ranges[0].1 as int)
            && v.fee_recipient.spec_encoding() == encoding.subrange(ranges[1].0 as int, ranges[1].1 as int)
            && v.state_root.spec_encoding() == encoding.subrange(ranges[2].0 as int, ranges[2].1 as int)
            && v.receipts_root.spec_encoding() == encoding.subrange(ranges[3].0 as int, ranges[3].1 as int)
            && v.logs_bloom.spec_encoding() == encoding.subrange(ranges[4].0 as int, ranges[4].1 as int)
            && v.prev_randao.spec_encoding() == encoding.subrange(ranges[5].0 as int, ranges[5].1 as int)
            && v.block_number.spec_encoding() == encoding.subrange(ranges[6].0 as int, ranges[6].1 as int)
            && v.gas_limit.spec_encoding() == encoding.subrange(ranges[7].0 as int, ranges[7].1 as int)
            && v.gas_used.spec_encoding() == encoding.subrange(ranges[8].0 as int, ranges[8].1 as int)
            && v.timestamp.spec_encoding() == encoding.subrange(ranges[9].0 as int, ranges[9].1 as int)
            && v.extra_data.spec_encoding() == encoding.subrange(ranges[10].0 as int, ranges[10].1 as int)
            && v.base_fee_per_gas.spec_encoding() == encoding.subrange(ranges[11].0 as int, ranges[11].1 as int)
            && v.block_hash.spec_encoding() == encoding.subrange(ranges[12].0 as int, ranges[12].1 as int)
            && v.transactions.spec_encoding() == encoding.subrange(ranges[13].0 as int, ranges[13].1 as int)
            && v.withdrawals.spec_encoding() == encoding.subrange(ranges[14].0 as int, ranges[14].1 as int)
            && v.blob_gas_used.spec_encoding() == encoding.subrange(ranges[15].0 as int, ranges[15].1 as int)
            && v.excess_blob_gas.spec_encoding() == encoding.subrange(ranges[16].0 as int, ranges[16].1 as int)
            && v.block_access_list.spec_encoding() == encoding.subrange(ranges[17].0 as int, ranges[17].1 as int)
            && v.slot_number.spec_encoding() == encoding.subrange(ranges[18].0 as int, ranges[18].1 as int)),
        spec_layout_matches(ExecutionPayload::spec_layout(), v.spec_parts()) && (v.parent_hash.spec_encoding() == encoding.subrange(ranges[0].0 as int, ranges[0].1 as int)
            && v.fee_recipient.spec_encoding() == encoding.subrange(ranges[1].0 as int, ranges[1].1 as int)
            && v.state_root.spec_encoding() == encoding.subrange(ranges[2].0 as int, ranges[2].1 as int)
            && v.receipts_root.spec_encoding() == encoding.subrange(ranges[3].0 as int, ranges[3].1 as int)
            && v.logs_bloom.spec_encoding() == encoding.subrange(ranges[4].0 as int, ranges[4].1 as int)
            && v.prev_randao.spec_encoding() == encoding.subrange(ranges[5].0 as int, ranges[5].1 as int)
            && v.block_number.spec_encoding() == encoding.subrange(ranges[6].0 as int, ranges[6].1 as int)
            && v.gas_limit.spec_encoding() == encoding.subrange(ranges[7].0 as int, ranges[7].1 as int)
            && v.gas_used.spec_encoding() == encoding.subrange(ranges[8].0 as int, ranges[8].1 as int)
            && v.timestamp.spec_encoding() == encoding.subrange(ranges[9].0 as int, ranges[9].1 as int)
            && v.extra_data.spec_encoding() == encoding.subrange(ranges[10].0 as int, ranges[10].1 as int)
            && v.base_fee_per_gas.spec_encoding() == encoding.subrange(ranges[11].0 as int, ranges[11].1 as int)
            && v.block_hash.spec_encoding() == encoding.subrange(ranges[12].0 as int, ranges[12].1 as int)
            && v.transactions.spec_encoding() == encoding.subrange(ranges[13].0 as int, ranges[13].1 as int)
            && v.withdrawals.spec_encoding() == encoding.subrange(ranges[14].0 as int, ranges[14].1 as int)
            && v.blob_gas_used.spec_encoding() == encoding.subrange(ranges[15].0 as int, ranges[15].1 as int)
            && v.excess_blob_gas.spec_encoding() == encoding.subrange(ranges[16].0 as int, ranges[16].1 as int)
            && v.block_access_list.spec_encoding() == encoding.subrange(ranges[17].0 as int, ranges[17].1 as int)
            && v.slot_number.spec_encoding() == encoding.subrange(ranges[18].0 as int, ranges[18].1 as int))
            ==> spec_ranges_fit(encoding, ExecutionPayload::spec_layout(), ranges, v.spec_parts()),
{
    reveal(ExecutionPayload::spec_parts);
    let parts = v.spec_parts();
    if spec_ranges_fit(encoding, ExecutionPayload::spec_layout(), ranges, parts) {
        assert(parts[0].1 == encoding.subrange(ranges[0].0 as int, ranges[0].1 as int));
        assert(parts[1].1 == encoding.subrange(ranges[1].0 as int, ranges[1].1 as int));
        assert(parts[2].1 == encoding.subrange(ranges[2].0 as int, ranges[2].1 as int));
        assert(parts[3].1 == encoding.subrange(ranges[3].0 as int, ranges[3].1 as int));
        assert(parts[4].1 == encoding.subrange(ranges[4].0 as int, ranges[4].1 as int));
        assert(parts[5].1 == encoding.subrange(ranges[5].0 as int, ranges[5].1 as int));
        assert(parts[6].1 == encoding.subrange(ranges[6].0 as int, ranges[6].1 as int));
        assert(parts[7].1 == encoding.subrange(ranges[7].0 as int, ranges[7].1 as int));
        assert(parts[8].1 == encoding.subrange(ranges[8].0 as int, ranges[8].1 as int));
        assert(parts[9].1 == encoding.subrange(ranges[9].0 as int, ranges[9].1 as int));
        assert(parts[10].1 == encoding.subrange(ranges[10].0 as int, ranges[10].1 as int));
        assert(parts[11].1 == encoding.subrange(ranges[11].0 as int, ranges[11].1 as int));
        assert(parts[12].1 == encoding.subrange(ranges[12].0 as int, ranges[12].1 as int));
        assert(parts[13].1 == encoding.subrange(ranges[13].0 as int, ranges[13].1 as int));
        assert(parts[14].1 == encoding.subrange(ranges[14].0 as int, ranges[14].1 as int));
        assert(parts[15].1 == encoding.subrange(ranges[15].0 as int, ranges[15].1 as int));
        assert(parts[16].1 == encoding.subrange(ranges[16].0 as int, ranges[16].1 as int));
        assert(parts[17].1 == encoding.subrange(ranges[17].0 as int, ranges[17].1 as int));
        assert(parts[18].1 == encoding.subrange(ranges[18].0 as int, ranges[18].1 as int));
    }
    if spec_layout_matches(ExecutionPayload::spec_layout(), parts) && (v.parent_hash.spec_encoding() == encoding.subrange(ranges[0].0 as int, ranges[0].1 as int)
            && v.fee_recipient.spec_encoding() == encoding.subrange(ranges[1].0 as int, ranges[1].1 as int)
            && v.state_root.spec_encoding() == encoding.subrange(ranges[2].0 as int, ranges[2].1 as int)
            && v.receipts_root.spec_encoding() == encoding.subrange(ranges[3].0 as int, ranges[3].1 as int)
            && v.logs_bloom.spec_encoding() == encoding.subrange(ranges[4].0 as int, ranges[4].1 as int)
            && v.prev_randao.spec_encoding() == encoding.subrange(ranges[5].0 as int, ranges[5].1 as int)
            && v.block_number.spec_encoding() == encoding.subrange(ranges[6].0 as int, ranges[6].1 as int)
            && v.gas_limit.spec_encoding() == encoding.subrange(ranges[7].0 as int, ranges[7].1 as int)
            && v.gas_used.spec_encoding() == encoding.subrange(ranges[8].0 as int, ranges[8].1 as int)
            && v.timestamp.spec_encoding() == encoding.subrange(ranges[9].0 as int, ranges[9].1 as int)
            && v.extra_data.spec_encoding() == encoding.subrange(ranges[10].0 as int, ranges[10].1 as int)
            && v.base_fee_per_gas.spec_encoding() == encoding.subrange(ranges[11].0 as int, ranges[11].1 as int)
            && v.block_hash.spec_encoding() == encoding.subrange(ranges[12].0 as int, ranges[12].1 as int)
            && v.transactions.spec_encoding() == encoding.subrange(ranges[13].0 as int, ranges[13].1 as int)
            && v.withdrawals.spec_encoding() == encoding.subrange(ranges[14].0 as int, ranges[14].1 as int)
            && v.blob_gas_used.spec_encoding() == encoding.subrange(ranges[15].0 as int, ranges[15].1 as int)
            && v.excess_blob_gas.spec_encoding() == encoding.subrange(ranges[16].0 as int, ranges[16].1 as int)
            && v.block_access_list.spec_encoding() == encoding.subrange(ranges[17].0 as int, ranges[17].1 as int)
            && v.slot_number.spec_encoding() == encoding.subrange(ranges[18].0 as int, ranges[18].1 as int)) {
        assert forall|i: int| 0 <= i < parts.len() implies #[trigger] parts[i].1 == encoding.subrange(ranges[i].0 as int, ranges[i].1 as int) by {
            if i == 0 { assert(parts[0].1 == v.parent_hash.spec_encoding()); } else if i == 1 { assert(parts[1].1 == v.fee_recipient.spec_encoding()); } else if i == 2 { assert(parts[2].1 == v.state_root.spec_encoding()); } else if i == 3 { assert(parts[3].1 == v.receipts_root.spec_encoding()); } else if i == 4 { assert(parts[4].1 == v.logs_bloom.spec_encoding()); } else if i == 5 { assert(parts[5].1 == v.prev_randao.spec_encoding()); } else if i == 6 { assert(parts[6].1 == v.block_number.spec_encoding()); } else if i == 7 { assert(parts[7].1 == v.gas_limit.spec_encoding()); } else if i == 8 { assert(parts[8].1 == v.gas_used.spec_encoding()); } else if i == 9 { assert(parts[9].1 == v.timestamp.spec_encoding()); } else if i == 10 { assert(parts[10].1 == v.extra_data.spec_encoding()); } else if i == 11 { assert(parts[11].1 == v.base_fee_per_gas.spec_encoding()); } else if i == 12 { assert(parts[12].1 == v.block_hash.spec_encoding()); } else if i == 13 { assert(parts[13].1 == v.transactions.spec_encoding()); } else if i == 14 { assert(parts[14].1 == v.withdrawals.spec_encoding()); } else if i == 15 { assert(parts[15].1 == v.blob_gas_used.spec_encoding()); } else if i == 16 { assert(parts[16].1 == v.excess_blob_gas.spec_encoding()); } else if i == 17 { assert(parts[17].1 == v.block_access_list.spec_encoding()); } else if i == 18 { assert(parts[18].1 == v.slot_number.spec_encoding()); }
        }
    }
}

impl SszCodec for ExecutionPayload {
    open spec fn spec_fixed_size() -> Option<nat> {
        None
    }

    open spec fn spec_packed() -> bool {
        false
    }

    open spec fn spec_wf(&self) -> bool {
        self.spec_fields_wf()
    }

    open spec fn spec_encoding(&self) -> Seq<u8> {
        self.spec_ssz()
    }

    open spec fn spec_tree_root(&self) -> Seq<u8> {
        self.spec_root()
    }

    proof fn lemma_layout() {
    }

    proof fn lemma_shape(x: &Self) {

    }

    fn ssz_fixed_size() -> (r: Option<usize>) {
        None
    }

    fn ssz_packed() -> (r: bool) {
        false
    }

    fn ssz_encode(&self, buffer: &mut Vec<u8>) {
        let _ = self.serialize(buffer);
    }

    fn ssz_decode(bytes: &[u8]) -> (r: Result<Self, DeserializeError>) {
        Self::deserialize(bytes)
    }

    fn ssz_root(&self) -> (r: Node) {
        match self.hash_tree_root() {
            Ok(n) => n,
            Err(_) => Node([0u8; 32]),
        }
    }
}

impl ExecutionPayloadEnvelope {
    /// The fields' places in the encoding: whether each is variable-size,
    /// and its encoding.
    #[verifier::opaque]
    pub open spec fn spec_parts(&self) -> Seq<FieldPart> {
        seq![
            (true, self.payload.spec_encoding()),
            (true, self.execution_requests.spec_encoding()),
            (false, self.builder_index.spec_encoding()),
            (false, self.beacon_block_root.spec_encoding()),
            (false, self.parent_beacon_block_root.spec_encoding()),
        ]
    }

    /// Each field's fixed size, or zero for a variable-size field.
    pub open spec fn spec_layout() -> Seq<usize> {
        seq![0usize, 0usize, 8usize, 32usize, 32usize]
    }

    /// The SSZ encoding: fixed-size fields and offsets, then variable-size
    /// fields.
    #[verifier::opaque]
    pub open spec fn spec_ssz(&self) -> Seq<u8> {
        spec_container_encoding(self.spec_parts(), 80)
    }

    /// The hash-tree-roots of the fields in order.
    #[verifier::opaque]
    pub open spec fn spec_field_roots(&self) -> Seq<Seq<u8>> {
        seq![
            self.payload.spec_tree_root(),
            self.execution_requests.spec_tree_root(),
            self.builder_index.spec_tree_root(),
            self.beacon_block_root.spec_tree_root(),
            self.parent_beacon_block_root.spec_tree_root(),
        ]
    }

    /// The hash-tree-root: the merkle root of the field roots.
    pub open spec fn spec_root(&self) -> Seq<u8> {
        spec_merkleize(self.spec_field_roots())
    }

    /// Whether every field respects its bounds.
    #[verifier::opaque]
    pub open spec fn spec_fields_wf(&self) -> bool {
        &&& self.payload.spec_wf()
        &&& self.execution_requests.spec_wf()
        &&& self.builder_index.spec_wf()
        &&& self.beacon_block_root.spec_wf()
        &&& self.parent_beacon_block_root.spec_wf()
    }

    /// Whether the container has a variable-size encoding.
    pub fn is_variable_size() -> (r: bool)
        ensures
            r == true,
    {
        true
    }

    /// The bytes taken by the fixed-size fields.
    pub fn size_hint() -> (r: usize)
        ensures
            r == 72,
    {
        72
    }

    /// Append the encoding.
    #[verifier::spinoff_prover]
    #[verifier::rlimit(100)]
    pub fn serialize(&self, buffer: &mut Vec<u8>) -> (r: Result<usize, SerializeError>)
        requires
            self.spec_fields_wf(),
            self.spec_ssz().len() <= u32::MAX,
        ensures
            r == Ok::<usize, SerializeError>(self.spec_ssz().len() as usize),
            final(buffer)@ == old(buffer)@ + self.spec_ssz(),
    {
        let ghost parts = self.spec_parts();
        proof {
            reveal(ExecutionPayloadEnvelope::spec_ssz);
            reveal(ExecutionPayloadEnvelope::spec_parts);
            reveal(ExecutionPayloadEnvelope::spec_fields_wf);
            assert(parts.len() == 5);
            SszCodec::lemma_shape(&self.builder_index);
            SszCodec::lemma_shape(&self.beacon_block_root);
            SszCodec::lemma_shape(&self.parent_beacon_block_root);
            assert(spec_layout_matches(Self::spec_layout(), parts));
            assert(spec_layout_head_len(Self::spec_layout()) == 80) by {
                reveal_with_fuel(spec_head_pos, 6);
            }
            assert(spec_head_pieces(parts, 80int).subrange(0, 0) =~= Seq::<Seq<u8>>::empty());
            assert(spec_tail_pieces(parts).subrange(0, 0) =~= Seq::<Seq<u8>>::empty());
        }
        let mut head: Vec<u8> = Vec::new();
        let mut tail: Vec<u8> = Vec::new();
        encode_variable_field(&self.payload, &mut head, &mut tail, 80, Ghost(Self::spec_layout()), Ghost(parts), Ghost(0int));
        encode_variable_field(&self.execution_requests, &mut head, &mut tail, 80, Ghost(Self::spec_layout()), Ghost(parts), Ghost(1int));
        encode_fixed_field(&self.builder_index, &mut head, &tail, Ghost(Self::spec_layout()), Ghost(parts), Ghost(2int));
        encode_fixed_field(&self.beacon_block_root, &mut head, &tail, Ghost(Self::spec_layout()), Ghost(parts), Ghost(3int));
        encode_fixed_field(&self.parent_beacon_block_root, &mut head, &tail, Ghost(Self::spec_layout()), Ghost(parts), Ghost(4int));
        proof {
            reveal(ExecutionPayloadEnvelope::spec_ssz);
            reveal(ExecutionPayloadEnvelope::spec_parts);
            reveal(ExecutionPayloadEnvelope::spec_fields_wf);
            lemma_so_far_done(parts, 80int);
            assert(head@.len() + tail@.len() == self.spec_ssz().len());
        }
        let n = head.len() + tail.len();
        head.append(&mut tail);
        buffer.append(&mut head);
        Ok(n)
    }

    /// Decode from exactly the given bytes.
    #[verifier::spinoff_prover]
    #[verifier::rlimit(100)]
    pub fn deserialize(encoding: &[u8]) -> (r: Result<Self, DeserializeError>)
        ensures
            r matches Ok(v) ==> v.spec_fields_wf() && v.spec_ssz() == encoding@,
            encoding@.len() <= u32::MAX && (exists|v: Self| v.spec_fields_wf() && #[trigger] v.spec_ssz() == encoding@)
                ==> r is Ok,
    {
        let sizes: [usize; 5] = [0usize, 0usize, 8usize, 32usize, 32usize];
        proof {
            assert(sizes@ =~= Self::spec_layout());
            lemma_execution_payload_envelope_head_len();
        }
        let ghost has_witness = encoding@.len() <= u32::MAX
            && exists|v: Self| v.spec_fields_wf() && #[trigger] v.spec_ssz() == encoding@;
        let ghost w = choose|v: Self| v.spec_fields_wf() && #[trigger] v.spec_ssz() == encoding@;
        proof {
            if has_witness {
                lemma_execution_payload_envelope_layout(w);
                reveal(ExecutionPayloadEnvelope::spec_ssz);
            }
        }
        let ranges = match split_container(encoding, &sizes) {
            Ok(r) => r,
            Err(e) => {
                return Err(e);
            },
        };
        proof {
            if has_witness {
                reveal(ExecutionPayloadEnvelope::spec_fields_wf);
                lemma_execution_payload_envelope_fields_fit(encoding@, ranges@, w);
            }
        }
        let payload = match decode_field::<ExecutionPayload>(encoding, &ranges, 0, Ghost(if has_witness { Some(w.payload) } else { None })) {
            Ok(x) => x,
            Err(e) => {
                return Err(e);
            },
        };
        let execution_requests = match decode_field::<ExecutionRequests>(encoding, &ranges, 1, Ghost(if has_witness { Some(w.execution_requests) } else { None })) {
            Ok(x) => x,
            Err(e) => {
                return Err(e);
            },
        };
        let builder_index = match decode_field::<BuilderIndex>(encoding, &ranges, 2, Ghost(if has_witness { Some(w.builder_index) } else { None })) {
            Ok(x) => x,
            Err(e) => {
                return Err(e);
            },
        };
        let beacon_block_root = match decode_field::<Root>(encoding, &ranges, 3, Ghost(if has_witness { Some(w.beacon_block_root) } else { None })) {
            Ok(x) => x,
            Err(e) => {
                return Err(e);
            },
        };
        let parent_beacon_block_root = match decode_field::<Root>(encoding, &ranges, 4, Ghost(if has_witness { Some(w.parent_beacon_block_root) } else { None })) {
            Ok(x) => x,
            Err(e) => {
                return Err(e);
            },
        };
        let v = ExecutionPayloadEnvelope { payload, execution_requests, builder_index, beacon_block_root, parent_beacon_block_root };
        proof {
            reveal(ExecutionPayloadEnvelope::spec_ssz);
            reveal(ExecutionPayloadEnvelope::spec_fields_wf);
            assert(v.spec_fields_wf());
            lemma_execution_payload_envelope_layout(v);
            lemma_execution_payload_envelope_fields_fit(encoding@, ranges@, v);
        }
        Ok(v)
    }

    /// The merkle root of the field roots.
    #[verifier::spinoff_prover]
    #[verifier::rlimit(100)]
    pub fn hash_tree_root(&self) -> (r: Result<Node, MerkleizationError>)
        requires
            self.spec_fields_wf(),
        ensures
            r matches Ok(n) && n.0@ == self.spec_root(),
    {
        proof {
            reveal(ExecutionPayloadEnvelope::spec_fields_wf);
            reveal(ExecutionPayloadEnvelope::spec_field_roots);
        }
        let r0 = self.payload.ssz_root();
        let r1 = self.execution_requests.ssz_root();
        let r2 = self.builder_index.ssz_root();
        let r3 = self.beacon_block_root.ssz_root();
        let r4 = self.parent_beacon_block_root.ssz_root();
        let roots = [r0, r1, r2, r3, r4];
        assert(roots_view(roots@) =~= self.spec_field_roots());
        Ok(merkleize_roots(roots.as_slice()))
    }

    /// A container is a composite type.
    pub fn is_composite_type() -> (r: bool)
        ensures
            r,
    {
        true
    }
}

/// The head of a `ExecutionPayloadEnvelope` encoding is 80 bytes.
proof fn lemma_execution_payload_envelope_head_len()
    ensures
        spec_layout_head_len(ExecutionPayloadEnvelope::spec_layout()) == 80,
{
    reveal_with_fuel(spec_head_pos, 6);
}

/// The parts of a `ExecutionPayloadEnvelope` fit its field layout.
#[verifier::spinoff_prover]
#[verifier::rlimit(100)]
proof fn lemma_execution_payload_envelope_layout(x: ExecutionPayloadEnvelope)
    requires
        x.spec_fields_wf(),
    ensures
        spec_layout_matches(ExecutionPayloadEnvelope::spec_layout(), x.spec_parts()),
{
    reveal(ExecutionPayloadEnvelope::spec_parts);
    reveal(ExecutionPayloadEnvelope::spec_fields_wf);
    SszCodec::lemma_shape(&x.builder_index);
    SszCodec::lemma_shape(&x.beacon_block_root);
    SszCodec::lemma_shape(&x.parent_beacon_block_root);
    let parts = x.spec_parts();
    let layout = ExecutionPayloadEnvelope::spec_layout();
    assert forall|i: int| 0 <= i < parts.len() implies (#[trigger] parts[i].0 <==> layout[i] == 0)
        && (layout[i] > 0 ==> parts[i].1.len() == layout[i]) by {
        if i == 0 { } else if i == 1 { } else if i == 2 { } else if i == 3 { } else if i == 4 { }
    }
}

/// The parts of a `ExecutionPayloadEnvelope` fit byte ranges exactly when each field's
/// encoding is the bytes of its range.
#[verifier::spinoff_prover]
#[verifier::rlimit(100)]
proof fn lemma_execution_payload_envelope_fields_fit(encoding: Seq<u8>, ranges: Seq<(usize, usize)>, v: ExecutionPayloadEnvelope)
    requires
        ranges.len() == 5,
    ensures
        spec_ranges_fit(encoding, ExecutionPayloadEnvelope::spec_layout(), ranges, v.spec_parts()) ==> (v.payload.spec_encoding() == encoding.subrange(ranges[0].0 as int, ranges[0].1 as int)
            && v.execution_requests.spec_encoding() == encoding.subrange(ranges[1].0 as int, ranges[1].1 as int)
            && v.builder_index.spec_encoding() == encoding.subrange(ranges[2].0 as int, ranges[2].1 as int)
            && v.beacon_block_root.spec_encoding() == encoding.subrange(ranges[3].0 as int, ranges[3].1 as int)
            && v.parent_beacon_block_root.spec_encoding() == encoding.subrange(ranges[4].0 as int, ranges[4].1 as int)),
        spec_layout_matches(ExecutionPayloadEnvelope::spec_layout(), v.spec_parts()) && (v.payload.spec_encoding() == encoding.subrange(ranges[0].0 as int, ranges[0].1 as int)
            && v.execution_requests.spec_encoding() == encoding.subrange(ranges[1].0 as int, ranges[1].1 as int)
            && v.builder_index.spec_encoding() == encoding.subrange(ranges[2].0 as int, ranges[2].1 as int)
            && v.beacon_block_root.spec_encoding() == encoding.subrange(ranges[3].0 as int, ranges[3].1 as int)
            && v.parent_beacon_block_root.spec_encoding() == encoding.subrange(ranges[4].0 as int, ranges[4].1 as int))
            ==> spec_ranges_fit(encoding, ExecutionPayloadEnvelope::spec_layout(), ranges, v.spec_parts()),
{
    reveal(ExecutionPayloadEnvelope::spec_parts);
    let parts = v.spec_parts();
    if spec_ranges_fit(encoding, ExecutionPayloadEnvelope::spec_layout(), ranges, parts) {
        assert(parts[0].1 == encoding.subrange(ranges[0].0 as int, ranges[0].1 as int));
        assert(parts[1].1 == encoding.subrange(ranges[1].0 as int, ranges[1].1 as int));
        assert(parts[2].1 == encoding.subrange(ranges[2].0 as int, ranges[2].1 as int));
        assert(parts[3].1 == encoding.subrange(ranges[3].0 as int, ranges[3].1 as int));
        assert(parts[4].1 == encoding.subrange(ranges[4].0 as int, ranges[4].1 as int));
    }
    if spec_layout_matches(ExecutionPayloadEnvelope::spec_layout(), parts) && (v.payload.spec_encoding() == encoding.subrange(ranges[0].0 as int, ranges[0].1 as int)
            && v.execution_requests.spec_encoding() == encoding.subrange(ranges[1].0 as int, ranges[1].1 as int)
            && v.builder_index.spec_encoding() == encoding.subrange(ranges[2].0 as int, ranges[2].1 as int)
            && v.beacon_block_root.spec_encoding() == encoding.subrange(ranges[3].0 as int, ranges[3].1 as int)
            && v.parent_beacon_block_root.spec_encoding() == encoding.subrange(ranges[4].0 as int, ranges[4].1 as int)) {
        assert forall|i: int| 0 <= i < parts.len() implies #[trigger] parts[i].1 == encoding.subrange(ranges[i].0 as int, ranges[i].1 as int) by {
            if i == 0 { assert(parts[0].1 == v.payload.spec_encoding()); } else if i == 1 { assert(parts[1].1 == v.execution_requests.spec_encoding()); } else if i == 2 { assert(parts[2].1 == v.builder_index.spec_encoding()); } else if i == 3 { assert(parts[3].1 == v.beacon_block_root.spec_encoding()); } else if i == 4 { assert(parts[4].1 == v.parent_beacon_block_root.spec_encoding()); }
        }
    }
}

impl SszCodec for ExecutionPayloadEnvelope {
    open spec fn spec_fixed_size() -> Option<nat> {
        None
    }

    open spec fn spec_packed() -> bool {
        false
    }

    open spec fn spec_wf(&self) -> bool {
        self.spec_fields_wf()
    }

    open spec fn spec_encoding(&self) -> Seq<u8> {
        self.spec_ssz()
    }

    open spec fn spec_tree_root(&self) -> Seq<u8> {
        self.spec_root()
    }

    proof fn lemma_layout() {
    }

    proof fn lemma_shape(x: &Self) {

    }

    fn ssz_fixed_size() -> (r: Option<usize>) {
        None
    }

    fn ssz_packed() -> (r: bool) {
        false
    }

    fn ssz_encode(&self, buffer: &mut Vec<u8>) {
        let _ = self.serialize(buffer);
    }

    fn ssz_decode(bytes: &[u8]) -> (r: Result<Self, DeserializeError>) {
        Self::deserialize(bytes)
    }

    fn ssz_root(&self) -> (r: Node) {
        match self.hash_tree_root() {
            Ok(n) => n,
            Err(_) => Node([0u8; 32]),
        }
    }
}

impl SignedExecutionPayloadEnvelope {
    /// The fields' places in the encoding: whether each is variable-size,
    /// and its encoding.
    #[verifier::opaque]
    pub open spec fn spec_parts(&self) -> Seq<FieldPart> {
        seq![
            (true, self.message.spec_encoding()),
            (false, self.signature.spec_encoding()),
        ]
    }

    /// Each field's fixed size, or zero for a variable-size field.
    pub open spec fn spec_layout() -> Seq<usize> {
        seq![0usize, 96usize]
    }

    /// The SSZ encoding: fixed-size fields and offsets, then variable-size
    /// fields.
    #[verifier::opaque]
    pub open spec fn spec_ssz(&self) -> Seq<u8> {
        spec_container_encoding(self.spec_parts(), 100)
    }

    /// The hash-tree-roots of the fields in order.
    #[verifier::opaque]
    pub open spec fn spec_field_roots(&self) -> Seq<Seq<u8>> {
        seq![
            self.message.spec_tree_root(),
            self.signature.spec_tree_root(),
        ]
    }

    /// The hash-tree-root: the merkle root of the field roots.
    pub open spec fn spec_root(&self) -> Seq<u8> {
        spec_merkleize(self.spec_field_roots())
    }

    /// Whether every field respects its bounds.
    #[verifier::opaque]
    pub open spec fn spec_fields_wf(&self) -> bool {
        &&& self.message.spec_wf()
        &&& self.signature.spec_wf()
    }

    /// Whether the container has a variable-size encoding.
    pub fn is_variable_size() -> (r: bool)
        ensures
            r == true,
    {
        true
    }

    /// The bytes taken by the fixed-size fields.
    pub fn size_hint() -> (r: usize)
        ensures
            r == 96,
    {
        96
    }

    /// Append the encoding.
    #[verifier::spinoff_prover]
    #[verifier::rlimit(100)]
    pub fn serialize(&self, buffer: &mut Vec<u8>) -> (r: Result<usize, SerializeError>)
        requires
            self.spec_fields_wf(),
            self.spec_ssz().len() <= u32::MAX,
        ensures
            r == Ok::<usize, SerializeError>(self.spec_ssz().len() as usize),
            final(buffer)@ == old(buffer)@ + self.spec_ssz(),
    {
        let ghost parts = self.spec_parts();
        proof {
            reveal(SignedExecutionPayloadEnvelope::spec_ssz);
            reveal(SignedExecutionPayloadEnvelope::spec_parts);
            reveal(SignedExecutionPayloadEnvelope::spec_fields_wf);
            assert(parts.len() == 2);
            SszCodec::lemma_shape(&self.signature);
            assert(spec_layout_matches(Self::spec_layout(), parts));
            assert(spec_layout_head_len(Self::spec_layout()) == 100) by {
                reveal_with_fuel(spec_head_pos, 3);
            }
            assert(spec_head_pieces(parts, 100int).subrange(0, 0) =~= Seq::<Seq<u8>>::empty());
            assert(spec_tail_pieces(parts).subrange(0, 0) =~= Seq::<Seq<u8>>::empty());
        }
        let mut head: Vec<u8> = Vec::new();
        let mut tail: Vec<u8> = Vec::new();
        encode_variable_field(&self.message, &mut head, &mut tail, 100, Ghost(Self::spec_layout()), Ghost(parts), Ghost(0int));
        encode_fixed_field(&self.signature, &mut head, &tail, Ghost(Self::spec_layout()), Ghost(parts), Ghost(1int));
        proof {
            reveal(SignedExecutionPayloadEnvelope::spec_ssz);
            reveal(SignedExecutionPayloadEnvelope::spec_parts);
            reveal(SignedExecutionPayloadEnvelope::spec_fields_wf);
            lemma_so_far_done(parts, 100int);
            assert(head@.len() + tail@.len() == self.spec_ssz().len());
        }
        let n = head.len() + tail.len();
        head.append(&mut tail);
        buffer.append(&mut head);
        Ok(n)
    }

    /// Decode from exactly the given bytes.
    #[verifier::spinoff_prover]
    #[verifier::rlimit(100)]
    pub fn deserialize(encoding: &[u8]) -> (r: Result<Self, DeserializeError>)
        ensures
            r matches Ok(v) ==> v.spec_fields_wf() && v.spec_ssz() == encoding@,
            encoding@.len() <= u32::MAX && (exists|v: Self| v.spec_fields_wf() && #[trigger] v.spec_ssz() == encoding@)
                ==> r is Ok,
    {
        let sizes: [usize; 2] = [0usize, 96usize];
        proof {
            assert(sizes@ =~= Self::spec_layout());
            lemma_signed_execution_payload_envelope_head_len();
        }
        let ghost has_witness = encoding@.len() <= u32::MAX
            && exists|v: Self| v.spec_fields_wf() && #[trigger] v.spec_ssz() == encoding@;
        let ghost w = choose|v: Self| v.spec_fields_wf() && #[trigger] v.spec_ssz() == encoding@;
        proof {
            if has_witness {
                lemma_signed_execution_payload_envelope_layout(w);
                reveal(SignedExecutionPayloadEnvelope::spec_ssz);
            }
        }
        let ranges = match split_container(encoding, &sizes) {
            Ok(r) => r,
            Err(e) => {
                return Err(e);
            },
        };
        proof {
            if has_witness {
                reveal(SignedExecutionPayloadEnvelope::spec_fields_wf);
                lemma_signed_execution_payload_envelope_fields_fit(encoding@, ranges@, w);
            }
        }
        let message = match decode_field::<ExecutionPayloadEnvelope>(encoding, &ranges, 0, Ghost(if has_witness { Some(w.message) } else { None })) {
            Ok(x) => x,
            Err(e) => {
                return Err(e);
            },
        };
        let signature = match decode_field::<BLSSignature>(encoding, &ranges, 1, Ghost(if has_witness { Some(w.signature) } else { None })) {
            Ok(x) => x,
            Err(e) => {
                return Err(e);
            },
        };
        let v = SignedExecutionPayloadEnvelope { message, signature };
        proof {
            reveal(SignedExecutionPayloadEnvelope::spec_ssz);
            reveal(SignedExecutionPayloadEnvelope::spec_fields_wf);
            assert(v.spec_fields_wf());
            lemma_signed_execution_payload_envelope_layout(v);
            lemma_signed_execution_payload_envelope_fields_fit(encoding@, ranges@, v);
        }
        Ok(v)
    }

    /// The merkle root of the field roots.
    #[verifier::spinoff_prover]
    #[verifier::rlimit(100)]
    pub fn hash_tree_root(&self) -> (r: Result<Node, MerkleizationError>)
        requires
            self.spec_fields_wf(),
        ensures
            r matches Ok(n) && n.0@ == self.spec_root(),
    {
        proof {
            reveal(SignedExecutionPayloadEnvelope::spec_fields_wf);
            reveal(SignedExecutionPayloadEnvelope::spec_field_roots);
        }
        let r0 = self.message.ssz_root();
        let r1 = self.signature.ssz_root();
        let roots = [r0, r1];
        assert(roots_view(roots@) =~= self.spec_field_roots());
        Ok(merkleize_roots(roots.as_slice()))
    }

    /// A container is a composite type.
    pub fn is_composite_type() -> (r: bool)
        ensures
            r,
    {
        true
    }
}

/// The head of a `SignedExecutionPayloadEnvelope` encoding is 100 bytes.
proof fn lemma_signed_execution_payload_envelope_head_len()
    ensures
        spec_layout_head_len(SignedExecutionPayloadEnvelope::spec_layout()) == 100,
{
    reveal_with_fuel(spec_head_pos, 3);
}

/// The parts of a `SignedExecutionPayloadEnvelope` fit its field layout.
#[verifier::spinoff_prover]
#[verifier::rlimit(100)]
proof fn lemma_signed_execution_payload_envelope_layout(x: SignedExecutionPayloadEnvelope)
    requires
        x.spec_fields_wf(),
    ensures
        spec_layout_matches(SignedExecutionPayloadEnvelope::spec_layout(), x.spec_parts()),
{
    reveal(SignedExecutionPayloadEnvelope::spec_parts);
    reveal(SignedExecutionPayloadEnvelope::spec_fields_wf);
    SszCodec::lemma_shape(&x.signature);
    let parts = x.spec_parts();
    let layout = SignedExecutionPayloadEnvelope::spec_layout();
    assert forall|i: int| 0 <= i < parts.len() implies (#[trigger] parts[i].0 <==> layout[i] == 0)
        && (layout[i] > 0 ==> parts[i].1.len() == layout[i]) by {
        if i == 0 { } else if i == 1 { }
    }
}

/// The parts of a `SignedExecutionPayloadEnvelope` fit byte ranges exactly when each field's
/// encoding is the bytes of its range.
#[verifier::spinoff_prover]
#[verifier::rlimit(100)]
proof fn lemma_signed_execution_payload_envelope_fields_fit(encoding: Seq<u8>, ranges: Seq<(usize, usize)>, v: SignedExecutionPayloadEnvelope)
    requires
        ranges.len() == 2,
    ensures
        spec_ranges_fit(encoding, SignedExecutionPayloadEnvelope::spec_layout(), ranges, v.spec_parts()) ==> (v.message.spec_encoding() == encoding.subrange(ranges[0].0 as int, ranges[0].1 as int)
            && v.signature.spec_encoding() == encoding.subrange(ranges[1].0 as int, ranges[1].1 as int)),
        spec_layout_matches(SignedExecutionPayloadEnvelope::spec_layout(), v.spec_parts()) && (v.message.spec_encoding() == encoding.subrange(ranges[0].0 as int, ranges[0].1 as int)
            && v.signature.spec_encoding() == encoding.subrange(ranges[1].0 as int, ranges[1].1 as int))
            ==> spec_ranges_fit(encoding, SignedExecutionPayloadEnvelope::spec_layout(), ranges, v.spec_parts()),
{
    reveal(SignedExecutionPayloadEnvelope::spec_parts);
    let parts = v.spec_parts();
    if spec_ranges_fit(encoding, SignedExecutionPayloadEnvelope::spec_layout(), ranges, parts) {
        assert(parts[0].1 == encoding.subrange(ranges[0].0 as int, ranges[0].1 as int));
        assert(parts[1].1 == encoding.subrange(ranges[1].0 as int, ranges[1].1 as int));
    }
    if spec_layout_matches(SignedExecutionPayloadEnvelope::spec_layout(), parts) && (v.message.spec_encoding() == encoding.subrange(ranges[0].0 as int, ranges[0].1 as int)
            && v.signature.spec_encoding() == encoding.subrange(ranges[1].0 as int, ranges[1].1 as int)) {
        assert forall|i: int| 0 <= i < parts.len() implies #[trigger] parts[i].1 == encoding.subrange(ranges[i].0 as int, ranges[i].1 as int) by {
            if i == 0 { assert(parts[0].1 == v.message.spec_encoding()); } else if i == 1 { assert(parts[1].1 == v.signature.spec_encoding()); }
        }
    }
}

impl SszCodec for SignedExecutionPayloadEnvelope {
    open spec fn spec_fixed_size() -> Option<nat> {
        None
    }

    open spec fn spec_packed() -> bool {
        false
    }

    open spec fn spec_wf(&self) -> bool {
        self.spec_fields_wf()
    }

    open spec fn spec_encoding(&self) -> Seq<u8> {
        self.spec_ssz()
    }

    open spec fn spec_tree_root(&self) -> Seq<u8> {
        self.spec_root()
    }

    proof fn lemma_layout() {
    }

    proof fn lemma_shape(x: &Self) {

    }

    fn ssz_fixed_size() -> (r: Option<usize>) {
        None
    }

    fn ssz_packed() -> (r: bool) {
        false
    }

    fn ssz_encode(&self, buffer: &mut Vec<u8>) {
        let _ = self.serialize(buffer);
    }

    fn ssz_decode(bytes: &[u8]) -> (r: Result<Self, DeserializeError>) {
        Self::deserialize(bytes)
    }

    fn ssz_root(&self) -> (r: Node) {
        match self.hash_tree_root() {
            Ok(n) => n,
            Err(_) => Node([0u8; 32]),
        }
    }
}

} // verus!
