//! SSZ for the block containers with list, bitlist or nested fields.
//!
//! Each container encodes as a head of fixed-size fields and offsets
//! followed by its variable-size fields, decodes by cutting the input along
//! its field layout, and roots to the merkle root of its fields' roots.
use vstd::prelude::*;
use vstd::slice::slice_subrange;

use crate::ssz::codec::SszCodec;
use crate::ssz::container::{
    encode_fixed_field, encode_variable_field, lemma_container_all_fixed,
    lemma_container_part_bounds, lemma_so_far_done, spec_container_encoding, spec_head_pieces,
    spec_head_pos, spec_layout_head_len, spec_layout_matches, spec_ranges_fit, spec_tail_pieces,
    split_container, decode_field, FieldPart,
};
use crate::ssz::merkle::{merkleize_roots, roots_view, spec_merkleize};
use crate::ssz::{Bitlist, Bitvector, DeserializeError, List, MerkleizationError, Node, SerializeError, Vector};

use crate::constants::{MAX_ATTESTATIONS, MAX_ATTESTER_SLASHINGS, MAX_BLS_TO_EXECUTION_CHANGES, MAX_DEPOSITS, MAX_PAYLOAD_ATTESTATIONS, MAX_PROPOSER_SLASHINGS, MAX_VOLUNTARY_EXITS};
use crate::containers::attestation::{Attestation, AttesterSlashing, ProposerSlashing};
use crate::containers::block::{BeaconBlock, BeaconBlockBody, SignedBeaconBlock};
use crate::containers::builder::{PayloadAttestation};
use crate::containers::chain::{Eth1Data};
use crate::containers::execution::{SignedExecutionPayloadBid};
use crate::containers::sync::{SyncAggregate};
use crate::containers::withdrawal::{Deposit, ExecutionRequests, SignedBLSToExecutionChange, SignedVoluntaryExit};
use crate::primitives::{BLSSignature, Root, Slot, ValidatorIndex};

verus! {

impl BeaconBlockBody {
    /// The fields' places in the encoding: whether each is variable-size,
    /// and its encoding.
    #[verifier::opaque]
    pub open spec fn spec_parts(&self) -> Seq<FieldPart> {
        seq![
            (false, self.randao_reveal.spec_encoding()),
            (false, self.eth1_data.spec_encoding()),
            (false, self.graffiti.spec_encoding()),
            (true, self.proposer_slashings.spec_encoding()),
            (true, self.attester_slashings.spec_encoding()),
            (true, self.attestations.spec_encoding()),
            (true, self.deposits.spec_encoding()),
            (true, self.voluntary_exits.spec_encoding()),
            (false, self.sync_aggregate.spec_encoding()),
            (true, self.bls_to_execution_changes.spec_encoding()),
            (true, self.signed_execution_payload_bid.spec_encoding()),
            (true, self.payload_attestations.spec_encoding()),
            (true, self.parent_execution_requests.spec_encoding()),
        ]
    }

    /// Each field's fixed size, or zero for a variable-size field.
    pub open spec fn spec_layout() -> Seq<usize> {
        seq![96usize, 72usize, 32usize, 0usize, 0usize, 0usize, 0usize, 0usize, 160usize, 0usize, 0usize, 0usize, 0usize]
    }

    /// The SSZ encoding: fixed-size fields and offsets, then variable-size
    /// fields.
    #[verifier::opaque]
    pub open spec fn spec_ssz(&self) -> Seq<u8> {
        spec_container_encoding(self.spec_parts(), 396)
    }

    /// The hash-tree-roots of the fields in order.
    #[verifier::opaque]
    pub open spec fn spec_field_roots(&self) -> Seq<Seq<u8>> {
        seq![
            self.randao_reveal.spec_tree_root(),
            self.eth1_data.spec_tree_root(),
            self.graffiti.spec_tree_root(),
            self.proposer_slashings.spec_tree_root(),
            self.attester_slashings.spec_tree_root(),
            self.attestations.spec_tree_root(),
            self.deposits.spec_tree_root(),
            self.voluntary_exits.spec_tree_root(),
            self.sync_aggregate.spec_tree_root(),
            self.bls_to_execution_changes.spec_tree_root(),
            self.signed_execution_payload_bid.spec_tree_root(),
            self.payload_attestations.spec_tree_root(),
            self.parent_execution_requests.spec_tree_root(),
        ]
    }

    /// The hash-tree-root: the merkle root of the field roots.
    pub open spec fn spec_root(&self) -> Seq<u8> {
        spec_merkleize(self.spec_field_roots())
    }

    /// Whether every field respects its bounds.
    #[verifier::opaque]
    pub open spec fn spec_fields_wf(&self) -> bool {
        &&& self.randao_reveal.spec_wf()
        &&& self.eth1_data.spec_wf()
        &&& self.graffiti.spec_wf()
        &&& self.proposer_slashings.spec_wf()
        &&& self.attester_slashings.spec_wf()
        &&& self.attestations.spec_wf()
        &&& self.deposits.spec_wf()
        &&& self.voluntary_exits.spec_wf()
        &&& self.sync_aggregate.spec_wf()
        &&& self.bls_to_execution_changes.spec_wf()
        &&& self.signed_execution_payload_bid.spec_wf()
        &&& self.payload_attestations.spec_wf()
        &&& self.parent_execution_requests.spec_wf()
    }

    /// Whether the container has a variable-size encoding.
    pub fn is_variable_size() -> (r: bool)
        ensures
            r == true,
    {
        true
    }

    /// The bytes taken by the fixed-size fields.
    pub fn size_hint() -> (r: usize)
        ensures
            r == 360,
    {
        360
    }

    /// Append the encoding.
    #[verifier::spinoff_prover]
    #[verifier::rlimit(100)]
    pub fn serialize(&self, buffer: &mut Vec<u8>) -> (r: Result<usize, SerializeError>)
        requires
            self.spec_fields_wf(),
            self.spec_ssz().len() <= u32::MAX,
        ensures
            r == Ok::<usize, SerializeError>(self.spec_ssz().len() as usize),
            final(buffer)@ == old(buffer)@ + self.spec_ssz(),
    {
        let ghost parts = self.spec_parts();
        proof {
            reveal(BeaconBlockBody::spec_ssz);
            reveal(BeaconBlockBody::spec_parts);
            reveal(BeaconBlockBody::spec_fields_wf);
            assert(parts.len() == 13);
            SszCodec::lemma_shape(&self.randao_reveal);
            SszCodec::lemma_shape(&self.eth1_data);
            SszCodec::lemma_shape(&self.graffiti);
            SszCodec::lemma_shape(&self.sync_aggregate);
            assert(spec_layout_matches(Self::spec_layout(), parts));
            assert(spec_layout_head_len(Self::spec_layout()) == 396) by {
                reveal_with_fuel(spec_head_pos, 14);
            }
            assert(spec_head_pieces(parts, 396int).subrange(0, 0) =~= Seq::<Seq<u8>>::empty());
            assert(spec_tail_pieces(parts).subrange(0, 0) =~= Seq::<Seq<u8>>::empty());
        }
        let mut head: Vec<u8> = Vec::new();
        let mut tail: Vec<u8> = Vec::new();
        encode_fixed_field(&self.randao_reveal, &mut head, &tail, Ghost(Self::spec_layout()), Ghost(parts), Ghost(0int));
        encode_fixed_field(&self.eth1_data, &mut head, &tail, Ghost(Self::spec_layout()), Ghost(parts), Ghost(1int));
        encode_fixed_field(&self.graffiti, &mut head, &tail, Ghost(Self::spec_layout()), Ghost(parts), Ghost(2int));
        encode_variable_field(&self.proposer_slashings, &mut head, &mut tail, 396, Ghost(Self::spec_layout()), Ghost(parts), Ghost(3int));
        encode_variable_field(&self.attester_slashings, &mut head, &mut tail, 396, Ghost(Self::spec_layout()), Ghost(parts), Ghost(4int));
        encode_variable_field(&self.attestations, &mut head, &mut tail, 396, Ghost(Self::spec_layout()), Ghost(parts), Ghost(5int));
        encode_variable_field(&self.deposits, &mut head, &mut tail, 396, Ghost(Self::spec_layout()), Ghost(parts), Ghost(6int));
        encode_variable_field(&self.voluntary_exits, &mut head, &mut tail, 396, Ghost(Self::spec_layout()), Ghost(parts), Ghost(7int));
        encode_fixed_field(&self.sync_aggregate, &mut head, &tail, Ghost(Self::spec_layout()), Ghost(parts), Ghost(8int));
        encode_variable_field(&self.bls_to_execution_changes, &mut head, &mut tail, 396, Ghost(Self::spec_layout()), Ghost(parts), Ghost(9int));
        encode_variable_field(&self.signed_execution_payload_bid, &mut head, &mut tail, 396, Ghost(Self::spec_layout()), Ghost(parts), Ghost(10int));
        encode_variable_field(&self.payload_attestations, &mut head, &mut tail, 396, Ghost(Self::spec_layout()), Ghost(parts), Ghost(11int));
        encode_variable_field(&self.parent_execution_requests, &mut head, &mut tail, 396, Ghost(Self::spec_layout()), Ghost(parts), Ghost(12int));
        proof {
            reveal(BeaconBlockBody::spec_ssz);
            reveal(BeaconBlockBody::spec_parts);
            reveal(BeaconBlockBody::spec_fields_wf);
            lemma_so_far_done(parts, 396int);
            assert(head@.len() + tail@.len() == self.spec_ssz().len());
        }
        let n = head.len() + tail.len();
        head.append(&mut tail);
        buffer.append(&mut head);
        Ok(n)
    }

    /// Decode from exactly the given bytes.
    #[verifier::spinoff_prover]
    #[verifier::rlimit(100)]
    pub fn deserialize(encoding: &[u8]) -> (r: Result<Self, DeserializeError>)
        ensures
            r matches Ok(v) ==> v.spec_fields_wf() && v.spec_ssz() == encoding@,
            encoding@.len() <= u32::MAX && (exists|v: Self| v.spec_fields_wf() && #[trigger] v.spec_ssz() == encoding@)
                ==> r is Ok,
    {
        let sizes: [usize; 13] = [96usize, 72usize, 32usize, 0usize, 0usize, 0usize, 0usize, 0usize, 160usize, 0usize, 0usize, 0usize, 0usize];
        proof {
            assert(sizes@ =~= Self::spec_layout());
            lemma_beacon_block_body_head_len();
        }
        let ghost has_witness = encoding@.len() <= u32::MAX
            && exists|v: Self| v.spec_fields_wf() && #[trigger] v.spec_ssz() == encoding@;
        let ghost w = choose|v: Self| v.spec_fields_wf() && #[trigger] v.spec_ssz() == encoding@;
        proof {
            if has_witness {
                lemma_beacon_block_body_layout(w);
                reveal(BeaconBlockBody::spec_ssz);
            }
        }
        let ranges = match split_container(encoding, &sizes) {
            Ok(r) => r,
            Err(e) => {
                return Err(e);
            },
        };
        proof {
            if has_witness {
                reveal(BeaconBlockBody::spec_fields_wf);
                lemma_beacon_block_body_fields_fit(encoding@, ranges@, w);
            }
        }
        let randao_reveal = match decode_field::<BLSSignature>(encoding, &ranges, 0, Ghost(if has_witness { Some(w.randao_reveal) } else { None })) {
            Ok(x) => x,
            Err(e) => {
                return Err(e);
            },
        };
        let eth1_data = match decode_field::<Eth1Data>(encoding, &ranges, 1, Ghost(if has_witness { Some(w.eth1_data) } else { None })) {
            Ok(x) => x,
            Err(e) => {
                return Err(e);
            },
        };
        let graffiti = match decode_field::<[u8; 32]>(encoding, &ranges, 2, Ghost(if has_witness { Some(w.graffiti) } else { None })) {
            Ok(x) => x,
            Err(e) => {
                return Err(e);
            },
        };
        let proposer_slashings = match decode_field::<List<ProposerSlashing, MAX_PROPOSER_SLASHINGS>>(encoding, &ranges, 3, Ghost(if has_witness { Some(w.proposer_slashings) } else { None })) {
            Ok(x) => x,
            Err(e) => {
                return Err(e);
            },
        };
        let attester_slashings = match decode_field::<List<AttesterSlashing, MAX_ATTESTER_SLASHINGS>>(encoding, &ranges, 4, Ghost(if has_witness { Some(w.attester_slashings) } else { None })) {
            Ok(x) => x,
            Err(e) => {
                return Err(e);
            },
        };
        let attestations = match decode_field::<List<Attestation, MAX_ATTESTATIONS>>(encoding, &ranges, 5, Ghost(if has_witness { Some(w.attestations) } else { None })) {
            Ok(x) => x,
            Err(e) => {
                return Err(e);
            },
        };
        let deposits = match decode_field::<List<Deposit, MAX_DEPOSITS>>(encoding, &ranges, 6, Ghost(if has_witness { Some(w.deposits) } else { None })) {
            Ok(x) => x,
            Err(e) => {
                return Err(e);
            },
        };
        let voluntary_exits = match decode_field::<List<SignedVoluntaryExit, MAX_VOLUNTARY_EXITS>>(encoding, &ranges, 7, Ghost(if has_witness { Some(w.voluntary_exits) } else { None })) {
            Ok(x) => x,
            Err(e) => {
                return Err(e);
            },
        };
        let sync_aggregate = match decode_field::<SyncAggregate>(encoding, &ranges, 8, Ghost(if has_witness { Some(w.sync_aggregate) } else { None })) {
            Ok(x) => x,
            Err(e) => {
                return Err(e);
            },
        };
        let bls_to_execution_changes = match decode_field::<List<SignedBLSToExecutionChange, MAX_BLS_TO_EXECUTION_CHANGES>>(encoding, &ranges, 9, Ghost(if has_witness { Some(w.bls_to_execution_changes) } else { None })) {
            Ok(x) => x,
            Err(e) => {
                return Err(e);
            },
        };
        let signed_execution_payload_bid = match decode_field::<SignedExecutionPayloadBid>(encoding, &ranges, 10, Ghost(if has_witness { Some(w.signed_execution_payload_bid) } else { None })) {
            Ok(x) => x,
            Err(e) => {
                return Err(e);
            },
        };
        let payload_attestations = match decode_field::<List<PayloadAttestation, MAX_PAYLOAD_ATTESTATIONS>>(encoding, &ranges, 11, Ghost(if has_witness { Some(w.payload_attestations) } else { None })) {
            Ok(x) => x,
            Err(e) => {
                return Err(e);
            },
        };
        let parent_execution_requests = match decode_field::<ExecutionRequests>(encoding, &ranges, 12, Ghost(if has_witness { Some(w.parent_execution_requests) } else { None })) {
            Ok(x) => x,
            Err(e) => {
                return Err(e);
            },
        };
        let v = BeaconBlockBody { randao_reveal, eth1_data, graffiti, proposer_slashings, attester_slashings, attestations, deposits, voluntary_exits, sync_aggregate, bls_to_execution_changes, signed_execution_payload_bid, payload_attestations, parent_execution_requests };
        proof {
            reveal(BeaconBlockBody::spec_ssz);
            reveal(BeaconBlockBody::spec_fields_wf);
            assert(v.spec_fields_wf());
            lemma_beacon_block_body_layout(v);
            lemma_beacon_block_body_fields_fit(encoding@, ranges@, v);
        }
        Ok(v)
    }

    /// The merkle root of the field roots.
    #[verifier::spinoff_prover]
    #[verifier::rlimit(100)]
    pub fn hash_tree_root(&self) -> (r: Result<Node, MerkleizationError>)
        requires
            self.spec_fields_wf(),
        ensures
            r matches Ok(n) && n.0@ == self.spec_root(),
    {
        proof {
            reveal(BeaconBlockBody::spec_fields_wf);
            reveal(BeaconBlockBody::spec_field_roots);
        }
        let r0 = self.randao_reveal.ssz_root();
        let r1 = self.eth1_data.ssz_root();
        let r2 = self.graffiti.ssz_root();
        let r3 = self.proposer_slashings.ssz_root();
        let r4 = self.attester_slashings.ssz_root();
        let r5 = self.attestations.ssz_root();
        let r6 = self.deposits.ssz_root();
        let r7 = self.voluntary_exits.ssz_root();
        let r8 = self.sync_aggregate.ssz_root();
        let r9 = self.bls_to_execution_changes.ssz_root();
        let r10 = self.signed_execution_payload_bid.ssz_root();
        let r11 = self.payload_attestations.ssz_root();
        let r12 = self.parent_execution_requests.ssz_root();
        let roots = [r0, r1, r2, r3, r4, r5, r6, r7, r8, r9, r10, r11, r12];
        assert(roots_view(roots@) =~= self.spec_field_roots());
        Ok(merkleize_roots(roots.as_slice()))
    }

    /// A container is a composite type.
    pub fn is_composite_type() -> (r: bool)
        ensures
            r,
    {
        true
    }
}

/// The head of a `BeaconBlockBody` encoding is 396 bytes.
proof fn lemma_beacon_block_body_head_len()
    ensures
        spec_layout_head_len(BeaconBlockBody::spec_layout()) == 396,
{
    reveal_with_fuel(spec_head_pos, 14);
}

/// The parts of a `BeaconBlockBody` fit its field layout.
#[verifier::spinoff_prover]
#[verifier::rlimit(100)]
proof fn lemma_beacon_block_body_layout(x: BeaconBlockBody)
    requires
        x.spec_fields_wf(),
    ensures
        spec_layout_matches(BeaconBlockBody::spec_layout(), x.spec_parts()),
{
    reveal(BeaconBlockBody::spec_parts);
    reveal(BeaconBlockBody::spec_fields_wf);
    SszCodec::lemma_shape(&x.randao_reveal);
    SszCodec::lemma_shape(&x.eth1_data);
    SszCodec::lemma_shape(&x.graffiti);
    SszCodec::lemma_shape(&x.sync_aggregate);
    let parts = x.spec_parts();
    let layout = BeaconBlockBody::spec_layout();
    assert forall|i: int| 0 <= i < parts.len() implies (#[trigger] parts[i].0 <==> layout[i] == 0)
        && (layout[i] > 0 ==> parts[i].1.len() == layout[i]) by {
        if i == 0 { } else if i == 1 { } else if i == 2 { } else if i == 3 { } else if i == 4 { } else if i == 5 { } else if i == 6 { } else if i == 7 { } else if i == 8 { } else if i == 9 { } else if i == 10 { } else if i == 11 { } else if i == 12 { }
    }
}

/// The parts of a `BeaconBlockBody` fit byte ranges exactly when each field's
/// encoding is the bytes of its range.
#[verifier::spinoff_prover]
#[verifier::rlimit(100)]
proof fn lemma_beacon_block_body_fields_fit(encoding: Seq<u8>, ranges: Seq<(usize, usize)>, v: BeaconBlockBody)
    requires
        ranges.len() == 13,
    ensures
        spec_ranges_fit(encoding, BeaconBlockBody::spec_layout(), ranges, v.spec_parts()) ==> (v.randao_reveal.spec_encoding() == encoding.subrange(ranges[0].0 as int, ranges[0].1 as int)
            && v.eth1_data.spec_encoding() == encoding.subrange(ranges[1].0 as int, ranges[1].1 as int)
            && v.graffiti.spec_encoding() == encoding.subrange(ranges[2].0 as int, ranges[2].1 as int)
            && v.proposer_slashings.spec_encoding() == encoding.subrange(ranges[3].0 as int, ranges[3].1 as int)
            && v.attester_slashings.spec_encoding() == encoding.subrange(ranges[4].0 as int, ranges[4].1 as int)
            && v.attestations.spec_encoding() == encoding.subrange(ranges[5].0 as int, ranges[5].1 as int)
            && v.deposits.spec_encoding() == encoding.subrange(ranges[6].0 as int, ranges[6].1 as int)
            && v.voluntary_exits.spec_encoding() == encoding.subrange(ranges[7].0 as int, ranges[7].1 as int)
            && v.sync_aggregate.spec_encoding() == encoding.subrange(ranges[8].0 as int, ranges[8].1 as int)
            && v.bls_to_execution_changes.spec_encoding() == encoding.subrange(ranges[9].0 as int, ranges[9].1 as int)
            && v.signed_execution_payload_bid.spec_encoding() == encoding.subrange(ranges[10].0 as int, ranges[10].1 as int)
            && v.payload_attestations.spec_encoding() == encoding.subrange(ranges[11].0 as int, ranges[11].1 as int)
            && v.parent_execution_requests.spec_encoding() == encoding.subrange(ranges[12].0 as int, ranges[12].1 as int)),
        spec_layout_matches(BeaconBlockBody::spec_layout(), v.spec_parts()) && (v.randao_reveal.spec_encoding() == encoding.subrange(ranges[0].0 as int, ranges[0].1 as int)
            && v.eth1_data.spec_encoding() == encoding.subrange(ranges[1].0 as int, ranges[1].1 as int)
            && v.graffiti.spec_encoding() == encoding.subrange(ranges[2].0 as int, ranges[2].1 as int)
            && v.proposer_slashings.spec_encoding() == encoding.subrange(ranges[3].0 as int, ranges[3].1 as int)
            && v.attester_slashings.spec_encoding() == encoding.subrange(ranges[4].0 as int, ranges[4].1 as int)
            && v.attestations.spec_encoding() == encoding.subrange(ranges[5].0 as int, ranges[5].1 as int)
            && v.deposits.spec_encoding() == encoding.subrange(ranges[6].0 as int, ranges[6].1 as int)
            && v.voluntary_exits.spec_encoding() == encoding.subrange(ranges[7].0 as int, ranges[7].1 as int)
            && v.sync_aggregate.spec_encoding() == encoding.subrange(ranges[8].0 as int, ranges[8].1 as int)
            && v.bls_to_execution_changes.spec_encoding() == encoding.subrange(ranges[9].0 as int, ranges[9].1 as int)
            && v.signed_execution_payload_bid.spec_encoding() == encoding.subrange(ranges[10].0 as int, ranges[10].1 as int)
            && v.payload_attestations.spec_encoding() == encoding.subrange(ranges[11].0 as int, ranges[11].1 as int)
            && v.parent_execution_requests.spec_encoding() == encoding.subrange(ranges[12].0 as int, ranges[12].1 as int))
            ==> spec_ranges_fit(encoding, BeaconBlockBody::spec_layout(), ranges, v.spec_parts()),
{
    reveal(BeaconBlockBody::spec_parts);
    let parts = v.spec_parts();
    if spec_ranges_fit(encoding, BeaconBlockBody::spec_layout(), ranges, parts) {
        assert(parts[0].1 == encoding.subrange(ranges[0].0 as int, ranges[0].1 as int));
        assert(parts[1].1 == encoding.subrange(ranges[1].0 as int, ranges[1].1 as int));
        assert(parts[2].1 == encoding.subrange(ranges[2].0 as int, ranges[2].1 as int));
        assert(parts[3].1 == encoding.subrange(ranges[3].0 as int, ranges[3].1 as int));
        assert(parts[4].1 == encoding.subrange(ranges[4].0 as int, ranges[4].1 as int));
        assert(parts[5].1 == encoding.subrange(ranges[5].0 as int, ranges[5].1 as int));
        assert(parts[6].1 == encoding.subrange(ranges[6].0 as int, ranges[6].1 as int));
        assert(parts[7].1 == encoding.subrange(ranges[7].0 as int, ranges[7].1 as int));
        assert(parts[8].1 == encoding.subrange(ranges[8].0 as int, ranges[8].1 as int));
        assert(parts[9].1 == encoding.subrange(ranges[9].0 as int, ranges[9].1 as int));
        assert(parts[10].1 == encoding.subrange(ranges[10].0 as int, ranges[10].1 as int));
        assert(parts[11].1 == encoding.subrange(ranges[11].0 as int, ranges[11].1 as int));
        assert(parts[12].1 == encoding.subrange(ranges[12].0 as int, ranges[12].1 as int));
    }
    if spec_layout_matches(BeaconBlockBody::spec_layout(), parts) && (v.randao_reveal.spec_encoding() == encoding.subrange(ranges[0].0 as int, ranges[0].1 as int)
            && v.eth1_data.spec_encoding() == encoding.subrange(ranges[1].0 as int, ranges[1].1 as int)
            && v.graffiti.spec_encoding() == encoding.subrange(ranges[2].0 as int, ranges[2].1 as int)
            && v.proposer_slashings.spec_encoding() == encoding.subrange(ranges[3].0 as int, ranges[3].1 as int)
            && v.attester_slashings.spec_encoding() == encoding.subrange(ranges[4].0 as int, ranges[4].1 as int)
            && v.attestations.spec_encoding() == encoding.subrange(ranges[5].0 as int, ranges[5].1 as int)
            && v.deposits.spec_encoding() == encoding.subrange(ranges[6].0 as int, ranges[6].1 as int)
            && v.voluntary_exits.spec_encoding() == encoding.subrange(ranges[7].0 as int, ranges[7].1 as int)
            && v.sync_aggregate.spec_encoding() == encoding.subrange(ranges[8].0 as int, ranges[8].1 as int)
            && v.bls_to_execution_changes.spec_encoding() == encoding.subrange(ranges[9].0 as int, ranges[9].1 as int)
            && v.signed_execution_payload_bid.spec_encoding() == encoding.subrange(ranges[10].0 as int, ranges[10].1 as int)
            && v.payload_attestations.spec_encoding() == encoding.subrange(ranges[11].0 as int, ranges[11].1 as int)
            && v.parent_execution_requests.spec_encoding() == encoding.subrange(ranges[12].0 as int, ranges[12].1 as int)) {
        assert forall|i: int| 0 <= i < parts.len() implies #[trigger] parts[i].1 == encoding.subrange(ranges[i].0 as int, ranges[i].1 as int) by {
            if i == 0 { assert(parts[0].1 == v.randao_reveal.spec_encoding()); } else if i == 1 { assert(parts[1].1 == v.eth1_data.spec_encoding()); } else if i == 2 { assert(parts[2].1 == v.graffiti.spec_encoding()); } else if i == 3 { assert(parts[3].1 == v.proposer_slashings.spec_encoding()); } else if i == 4 { assert(parts[4].1 == v.attester_slashings.spec_encoding()); } else if i == 5 { assert(parts[5].1 == v.attestations.spec_encoding()); } else if i == 6 { assert(parts[6].1 == v.deposits.spec_encoding()); } else if i == 7 { assert(parts[7].1 == v.voluntary_exits.spec_encoding()); } else if i == 8 { assert(parts[8].1 == v.sync_aggregate.spec_encoding()); } else if i == 9 { assert(parts[9].1 == v.bls_to_execution_changes.spec_encoding()); } else if i == 10 { assert(parts[10].1 == v.signed_execution_payload_bid.spec_encoding()); } else if i == 11 { assert(parts[11].1 == v.payload_attestations.spec_encoding()); } else if i == 12 { assert(parts[12].1 == v.parent_execution_requests.spec_encoding()); }
        }
    }
}

impl SszCodec for BeaconBlockBody {
    open spec fn spec_fixed_size() -> Option<nat> {
        None
    }

    open spec fn spec_packed() -> bool {
        false
    }

    open spec fn spec_wf(&self) -> bool {
        self.spec_fields_wf()
    }

    open spec fn spec_encoding(&self) -> Seq<u8> {
        self.spec_ssz()
    }

    open spec fn spec_tree_root(&self) -> Seq<u8> {
        self.spec_root()
    }

    proof fn lemma_layout() {
    }

    proof fn lemma_shape(x: &Self) {

    }

    fn ssz_fixed_size() -> (r: Option<usize>) {
        None
    }

    fn ssz_packed() -> (r: bool) {
        false
    }

    fn ssz_encode(&self, buffer: &mut Vec<u8>) {
        let _ = self.serialize(buffer);
    }

    fn ssz_decode(bytes: &[u8]) -> (r: Result<Self, DeserializeError>) {
        Self::deserialize(bytes)
    }

    fn ssz_root(&self) -> (r: Node) {
        match self.hash_tree_root() {
            Ok(n) => n,
            Err(_) => Node([0u8; 32]),
        }
    }
}

impl BeaconBlock {
    /// The fields' places in the encoding: whether each is variable-size,
    /// and its encoding.
    #[verifier::opaque]
    pub open spec fn spec_parts(&self) -> Seq<FieldPart> {
        seq![
            (false, self.slot.spec_encoding()),
            (false, self.proposer_index.spec_encoding()),
            (false, self.parent_root.spec_encoding()),
            (false, self.state_root.spec_encoding()),
            (true, self.body.spec_encoding()),
        ]
    }

    /// Each field's fixed size, or zero for a variable-size field.
    pub open spec fn spec_layout() -> Seq<usize> {
        seq![8usize, 8usize, 32usize, 32usize, 0usize]
    }

    /// The SSZ encoding: fixed-size fields and offsets, then variable-size
    /// fields.
    #[verifier::opaque]
    pub open spec fn spec_ssz(&self) -> Seq<u8> {
        spec_container_encoding(self.spec_parts(), 84)
    }

    /// The hash-tree-roots of the fields in order.
    #[verifier::opaque]
    pub open spec fn spec_field_roots(&self) -> Seq<Seq<u8>> {
        seq![
            self.slot.spec_tree_root(),
            self.proposer_index.spec_tree_root(),
            self.parent_root.spec_tree_root(),
            self.state_root.spec_tree_root(),
            self.body.spec_tree_root(),
        ]
    }

    /// The hash-tree-root: the merkle root of the field roots.
    pub open spec fn spec_root(&self) -> Seq<u8> {
        spec_merkleize(self.spec_field_roots())
    }

    /// Whether every field respects its bounds.
    #[verifier::opaque]
    pub open spec fn spec_fields_wf(&self) -> bool {
        &&& self.slot.spec_wf()
        &&& self.proposer_index.spec_wf()
        &&& self.parent_root.spec_wf()
        &&& self.state_root.spec_wf()
        &&& self.body.spec_wf()
    }

    /// Whether the container has a variable-size encoding.
    pub fn is_variable_size() -> (r: bool)
        ensures
            r == true,
    {
        true
    }

    /// The bytes taken by the fixed-size fields.
    pub fn size_hint() -> (r: usize)
        ensures
            r == 80,
    {
        80
    }

    /// Append the encoding.
    #[verifier::spinoff_prover]
    #[verifier::rlimit(100)]
    pub fn serialize(&self, buffer: &mut Vec<u8>) -> (r: Result<usize, SerializeError>)
        requires
            self.spec_fields_wf(),
            self.spec_ssz().len() <= u32::MAX,
        ensures
            r == Ok::<usize, SerializeError>(self.spec_ssz().len() as usize),
            final(buffer)@ == old(buffer)@ + self.spec_ssz(),
    {
        let ghost parts = self.spec_parts();
        proof {
            reveal(BeaconBlock::spec_ssz);
            reveal(BeaconBlock::spec_parts);
            reveal(BeaconBlock::spec_fields_wf);
            assert(parts.len() == 5);
            SszCodec::lemma_shape(&self.slot);
            SszCodec::lemma_shape(&self.proposer_index);
            SszCodec::lemma_shape(&self.parent_root);
            SszCodec::lemma_shape(&self.state_root);
            assert(spec_layout_matches(Self::spec_layout(), parts));
            assert(spec_layout_head_len(Self::spec_layout()) == 84) by {
                reveal_with_fuel(spec_head_pos, 6);
            }
            assert(spec_head_pieces(parts, 84int).subrange(0, 0) =~= Seq::<Seq<u8>>::empty());
            assert(spec_tail_pieces(parts).subrange(0, 0) =~= Seq::<Seq<u8>>::empty());
        }
        let mut head: Vec<u8> = Vec::new();
        let mut tail: Vec<u8> = Vec::new();
        encode_fixed_field(&self.slot, &mut head, &tail, Ghost(Self::spec_layout()), Ghost(parts), Ghost(0int));
        encode_fixed_field(&self.proposer_index, &mut head, &tail, Ghost(Self::spec_layout()), Ghost(parts), Ghost(1int));
        encode_fixed_field(&self.parent_root, &mut head, &tail, Ghost(Self::spec_layout()), Ghost(parts), Ghost(2int));
        encode_fixed_field(&self.state_root, &mut head, &tail, Ghost(Self::spec_layout()), Ghost(parts), Ghost(3int));
        encode_variable_field(&self.body, &mut head, &mut tail, 84, Ghost(Self::spec_layout()), Ghost(parts), Ghost(4int));
        proof {
            reveal(BeaconBlock::spec_ssz);
            reveal(BeaconBlock::spec_parts);
            reveal(BeaconBlock::spec_fields_wf);
            lemma_so_far_done(parts, 84int);
            assert(head@.len() + tail@.len() == self.spec_ssz().len());
        }
        let n = head.len() + tail.len();
        head.append(&mut tail);
        buffer.append(&mut head);
        Ok(n)
    }

    /// Decode from exactly the given bytes.
    #[verifier::spinoff_prover]
    #[verifier::rlimit(100)]
    pub fn deserialize(encoding: &[u8]) -> (r: Result<Self, DeserializeError>)
        ensures
            r matches Ok(v) ==> v.spec_fields_wf() && v.spec_ssz() == encoding@,
            encoding@.len() <= u32::MAX && (exists|v: Self| v.spec_fields_wf() && #[trigger] v.spec_ssz() == encoding@)
                ==> r is Ok,
    {
        let sizes: [usize; 5] = [8usize, 8usize, 32usize, 32usize, 0usize];
        proof {
            assert(sizes@ =~= Self::spec_layout());
            lemma_beacon_block_head_len();
        }
        let ghost has_witness = encoding@.len() <= u32::MAX
            && exists|v: Self| v.spec_fields_wf() && #[trigger] v.spec_ssz() == encoding@;
        let ghost w = choose|v: Self| v.spec_fields_wf() && #[trigger] v.spec_ssz() == encoding@;
        proof {
            if has_witness {
                lemma_beacon_block_layout(w);
                reveal(BeaconBlock::spec_ssz);
            }
        }
        let ranges = match split_container(encoding, &sizes) {
            Ok(r) => r,
            Err(e) => {
                return Err(e);
            },
        };
        proof {
            if has_witness {
                reveal(BeaconBlock::spec_fields_wf);
                lemma_beacon_block_fields_fit(encoding@, ranges@, w);
            }
        }
        let slot = match decode_field::<Slot>(encoding, &ranges, 0, Ghost(if has_witness { Some(w.slot) } else { None })) {
            Ok(x) => x,
            Err(e) => {
                return Err(e);
            },
        };
        let proposer_index = match decode_field::<ValidatorIndex>(encoding, &ranges, 1, Ghost(if has_witness { Some(w.proposer_index) } else { None })) {
            Ok(x) => x,
            Err(e) => {
                return Err(e);
            },
        };
        let parent_root = match decode_field::<Root>(encoding, &ranges, 2, Ghost(if has_witness { Some(w.parent_root) } else { None })) {
            Ok(x) => x,
            Err(e) => {
                return Err(e);
            },
        };
        let state_root = match decode_field::<Root>(encoding, &ranges, 3, Ghost(if has_witness { Some(w.state_root) } else { None })) {
            Ok(x) => x,
            Err(e) => {
                return Err(e);
            },
        };
        let body = match decode_field::<BeaconBlockBody>(encoding, &ranges, 4, Ghost(if has_witness { Some(w.body) } else { None })) {
            Ok(x) => x,
            Err(e) => {
                return Err(e);
            },
        };
        let v = BeaconBlock { slot, proposer_index, parent_root, state_root, body };
        proof {
            reveal(BeaconBlock::spec_ssz);
            reveal(BeaconBlock::spec_fields_wf);
            assert(v.spec_fields_wf());
            lemma_beacon_block_layout(v);
            lemma_beacon_block_fields_fit(encoding@, ranges@, v);
        }
        Ok(v)
    }

    /// The merkle root of the field roots.
    #[verifier::spinoff_prover]
    #[verifier::rlimit(100)]
    pub fn hash_tree_root(&self) -> (r: Result<Node, MerkleizationError>)
        requires
            self.spec_fields_wf(),
        ensures
            r matches Ok(n) && n.0@ == self.spec_root(),
    {
        proof {
            reveal(BeaconBlock::spec_fields_wf);
            reveal(BeaconBlock::spec_field_roots);
        }
        let r0 = self.slot.ssz_root();
        let r1 = self.proposer_index.ssz_root();
        let r2 = self.parent_root.ssz_root();
        let r3 = self.state_root.ssz_root();
        let r4 = self.body.ssz_root();
        let roots = [r0, r1, r2, r3, r4];
        assert(roots_view(roots@) =~= self.spec_field_roots());
        Ok(merkleize_roots(roots.as_slice()))
    }

    /// A container is a composite type.
    pub fn is_composite_type() -> (r: bool)
        ensures
            r,
    {
        true
    }
}

/// The head of a `BeaconBlock` encoding is 84 bytes.
proof fn lemma_beacon_block_head_len()
    ensures
        spec_layout_head_len(BeaconBlock::spec_layout()) == 84,
{
    reveal_with_fuel(spec_head_pos, 6);
}

/// The parts of a `BeaconBlock` fit its field layout.
#[verifier::spinoff_prover]
#[verifier::rlimit(100)]
proof fn lemma_beacon_block_layout(x: BeaconBlock)
    requires
        x.spec_fields_wf(),
    ensures
        spec_layout_matches(BeaconBlock::spec_layout(), x.spec_parts()),
{
    reveal(BeaconBlock::spec_parts);
    reveal(BeaconBlock::spec_fields_wf);
    SszCodec::lemma_shape(&x.slot);
    SszCodec::lemma_shape(&x.proposer_index);
    SszCodec::lemma_shape(&x.parent_root);
    SszCodec::lemma_shape(&x.state_root);
    let parts = x.spec_parts();
    let layout = BeaconBlock::spec_layout();
    assert forall|i: int| 0 <= i < parts.len() implies (#[trigger] parts[i].0 <==> layout[i] == 0)
        && (layout[i] > 0 ==> parts[i].1.len() == layout[i]) by {
        if i == 0 { } else if i == 1 { } else if i == 2 { } else if i == 3 { } else if i == 4 { }
    }
}

/// The parts of a `BeaconBlock` fit byte ranges exactly when each field's
/// encoding is the bytes of its range.
#[verifier::spinoff_prover]
#[verifier::rlimit(100)]
proof fn lemma_beacon_block_fields_fit(encoding: Seq<u8>, ranges: Seq<(usize, usize)>, v: BeaconBlock)
    requires
        ranges.len() == 5,
    ensures
        spec_ranges_fit(encoding, BeaconBlock::spec_layout(), ranges, v.spec_parts()) ==> (v.slot.spec_encoding() == encoding.subrange(ranges[0].0 as int, ranges[0].1 as int)
            && v.proposer_index.spec_encoding() == encoding.subrange(ranges[1].0 as int, ranges[1].1 as int)
            && v.parent_root.spec_encoding() == encoding.subrange(ranges[2].0 as int, ranges[2].1 as int)
            && v.state_root.spec_encoding() == encoding.subrange(ranges[3].0 as int, ranges[3].1 as int)
            && v.body.spec_encoding() == encoding.subrange(ranges[4].0 as int, ranges[4].1 as int)),
        spec_layout_matches(BeaconBlock::spec_layout(), v.spec_parts()) && (v.slot.spec_encoding() == encoding.subrange(ranges[0].0 as int, ranges[0].1 as int)
            && v.proposer_index.spec_encoding() == encoding.subrange(ranges[1].0 as int, ranges[1].1 as int)
            && v.parent_root.spec_encoding() == encoding.subrange(ranges[2].0 as int, ranges[2].1 as int)
            && v.state_root.spec_encoding() == encoding.subrange(ranges[3].0 as int, ranges[3].1 as int)
            && v.body.spec_encoding() == encoding.subrange(ranges[4].0 as int, ranges[4].1 as int))
            ==> spec_ranges_fit(encoding, BeaconBlock::spec_layout(), ranges, v.spec_parts()),
{
    reveal(BeaconBlock::spec_parts);
    let parts = v.spec_parts();
    if spec_ranges_fit(encoding, BeaconBlock::spec_layout(), ranges, parts) {
        assert(parts[0].1 == encoding.subrange(ranges[0].0 as int, ranges[0].1 as int));
        assert(parts[1].1 == encoding.subrange(ranges[1].0 as int, ranges[1].1 as int));
        assert(parts[2].1 == encoding.subrange(ranges[2].0 as int, ranges[2].1 as int));
        assert(parts[3].1 == encoding.subrange(ranges[3].0 as int, ranges[3].1 as int));
        assert(parts[4].1 == encoding.subrange(ranges[4].0 as int, ranges[4].1 as int));
    }
    if spec_layout_matches(BeaconBlock::spec_layout(), parts) && (v.slot.spec_encoding() == encoding.subrange(ranges[0].0 as int, ranges[0].1 as int)
            && v.proposer_index.spec_encoding() == encoding.subrange(ranges[1].0 as int, ranges[1].1 as int)
            && v.parent_root.spec_encoding() == encoding.subrange(ranges[2].0 as int, ranges[2].1 as int)
            && v.state_root.spec_encoding() == encoding.subrange(ranges[3].0 as int, ranges[3].1 as int)
            && v.body.spec_encoding() == encoding.subrange(ranges[4].0 as int, ranges[4].1 as int)) {
        assert forall|i: int| 0 <= i < parts.len() implies #[trigger] parts[i].1 == encoding.subrange(ranges[i].0 as int, ranges[i].1 as int) by {
            if i == 0 { assert(parts[0].1 == v.slot.spec_encoding()); } else if i == 1 { assert(parts[1].1 == v.proposer_index.spec_encoding()); } else if i == 2 { assert(parts[2].1 == v.parent_root.spec_encoding()); } else if i == 3 { assert(parts[3].1 == v.state_root.spec_encoding()); } else if i == 4 { assert(parts[4].1 == v.body.spec_encoding()); }
        }
    }
}

impl SszCodec for BeaconBlock {
    open spec fn spec_fixed_size() -> Option<nat> {
        None
    }

    open spec fn spec_packed() -> bool {
        false
    }

    open spec fn spec_wf(&self) -> bool {
        self.spec_fields_wf()
    }

    open spec fn spec_encoding(&self) -> Seq<u8> {
        self.spec_ssz()
    }

    open spec fn spec_tree_root(&self) -> Seq<u8> {
        self.spec_root()
    }

    proof fn lemma_layout() {
    }

    proof fn lemma_shape(x: &Self) {

    }

    fn ssz_fixed_size() -> (r: Option<usize>) {
        None
    }

    fn ssz_packed() -> (r: bool) {
        false
    }

    fn ssz_encode(&self, buffer: &mut Vec<u8>) {
        let _ = self.serialize(buffer);
    }

    fn ssz_decode(bytes: &[u8]) -> (r: Result<Self, DeserializeError>) {
        Self::deserialize(bytes)
    }

    fn ssz_root(&self) -> (r: Node) {
        match self.hash_tree_root() {
            Ok(n) => n,
            Err(_) => Node([0u8; 32]),
        }
    }
}

impl SignedBeaconBlock {
    /// The fields' places in the encoding: whether each is variable-size,
    /// and its encoding.
    #[verifier::opaque]
    pub open spec fn spec_parts(&self) -> Seq<FieldPart> {
        seq![
            (true, self.message.spec_encoding()),
            (false, self.signature.spec_encoding()),
        ]
    }

    /// Each field's fixed size, or zero for a variable-size field.
    pub open spec fn spec_layout() -> Seq<usize> {
        seq![0usize, 96usize]
    }

    /// The SSZ encoding: fixed-size fields and offsets, then variable-size
    /// fields.
    #[verifier::opaque]
    pub open spec fn spec_ssz(&self) -> Seq<u8> {
        spec_container_encoding(self.spec_parts(), 100)
    }

    /// The hash-tree-roots of the fields in order.
    #[verifier::opaque]
    pub open spec fn spec_field_roots(&self) -> Seq<Seq<u8>> {
        seq![
            self.message.spec_tree_root(),
            self.signature.spec_tree_root(),
        ]
    }

    /// The hash-tree-root: the merkle root of the field roots.
    pub open spec fn spec_root(&self) -> Seq<u8> {
        spec_merkleize(self.spec_field_roots())
    }

    /// Whether every field respects its bounds.
    #[verifier::opaque]
    pub open spec fn spec_fields_wf(&self) -> bool {
        &&& self.message.spec_wf()
        &&& self.signature.spec_wf()
    }

    /// Whether the container has a variable-size encoding.
    pub fn is_variable_size() -> (r: bool)
        ensures
            r == true,
    {
        true
    }

    /// The bytes taken by the fixed-size fields.
    pub fn size_hint() -> (r: usize)
        ensures
            r == 96,
    {
        96
    }

    /// Append the encoding.
    #[verifier::spinoff_prover]
    #[verifier::rlimit(100)]
    pub fn serialize(&self, buffer: &mut Vec<u8>) -> (r: Result<usize, SerializeError>)
        requires
            self.spec_fields_wf(),
            self.spec_ssz().len() <= u32::MAX,
        ensures
            r == Ok::<usize, SerializeError>(self.spec_ssz().len() as usize),
            final(buffer)@ == old(buffer)@ + self.spec_ssz(),
    {
        let ghost parts = self.spec_parts();
        proof {
            reveal(SignedBeaconBlock::spec_ssz);
            reveal(SignedBeaconBlock::spec_parts);
            reveal(SignedBeaconBlock::spec_fields_wf);
            assert(parts.len() == 2);
            SszCodec::lemma_shape(&self.signature);
            assert(spec_layout_matches(Self::spec_layout(), parts));
            assert(spec_layout_head_len(Self::spec_layout()) == 100) by {
                reveal_with_fuel(spec_head_pos, 3);
            }
            assert(spec_head_pieces(parts, 100int).subrange(0, 0) =~= Seq::<Seq<u8>>::empty());
            assert(spec_tail_pieces(parts).subrange(0, 0) =~= Seq::<Seq<u8>>::empty());
        }
        let mut head: Vec<u8> = Vec::new();
        let mut tail: Vec<u8> = Vec::new();
        encode_variable_field(&self.message, &mut head, &mut tail, 100, Ghost(Self::spec_layout()), Ghost(parts), Ghost(0int));
        encode_fixed_field(&self.signature, &mut head, &tail, Ghost(Self::spec_layout()), Ghost(parts), Ghost(1int));
        proof {
            reveal(SignedBeaconBlock::spec_ssz);
            reveal(SignedBeaconBlock::spec_parts);
            reveal(SignedBeaconBlock::spec_fields_wf);
            lemma_so_far_done(parts, 100int);
            assert(head@.len() + tail@.len() == self.spec_ssz().len());
        }
        let n = head.len() + tail.len();
        head.append(&mut tail);
        buffer.append(&mut head);
        Ok(n)
    }

    /// Decode from exactly the given bytes.
    #[verifier::spinoff_prover]
    #[verifier::rlimit(100)]
    pub fn deserialize(encoding: &[u8]) -> (r: Result<Self, DeserializeError>)
        ensures
            r matches Ok(v) ==> v.spec_fields_wf() && v.spec_ssz() == encoding@,
            encoding@.len() <= u32::MAX && (exists|v: Self| v.spec_fields_wf() && #[trigger] v.spec_ssz() == encoding@)
                ==> r is Ok,
    {
        let sizes: [usize; 2] = [0usize, 96usize];
        proof {
            assert(sizes@ =~= Self::spec_layout());
            lemma_signed_beacon_block_head_len();
        }
        let ghost has_witness = encoding@.len() <= u32::MAX
            && exists|v: Self| v.spec_fields_wf() && #[trigger] v.spec_ssz() == encoding@;
        let ghost w = choose|v: Self| v.spec_fields_wf() && #[trigger] v.spec_ssz() == encoding@;
        proof {
            if has_witness {
                lemma_signed_beacon_block_layout(w);
                reveal(SignedBeaconBlock::spec_ssz);
            }
        }
        let ranges = match split_container(encoding, &sizes) {
            Ok(r) => r,
            Err(e) => {
                return Err(e);
            },
        };
        proof {
            if has_witness {
                reveal(SignedBeaconBlock::spec_fields_wf);
                lemma_signed_beacon_block_fields_fit(encoding@, ranges@, w);
            }
        }
        let message = match decode_field::<BeaconBlock>(encoding, &ranges, 0, Ghost(if has_witness { Some(w.message) } else { None })) {
            Ok(x) => x,
            Err(e) => {
                return Err(e);
            },
        };
        let signature = match decode_field::<BLSSignature>(encoding, &ranges, 1, Ghost(if has_witness { Some(w.signature) } else { None })) {
            Ok(x) => x,
            Err(e) => {
                return Err(e);
            },
        };
        let v = SignedBeaconBlock { message, signature };
        proof {
            reveal(SignedBeaconBlock::spec_ssz);
            reveal(SignedBeaconBlock::spec_fields_wf);
            assert(v.spec_fields_wf());
            lemma_signed_beacon_block_layout(v);
            lemma_signed_beacon_block_fields_fit(encoding@, ranges@, v);
        }
        Ok(v)
    }

    /// The merkle root of the field roots.
    #[verifier::spinoff_prover]
    #[verifier::rlimit(100)]
    pub fn hash_tree_root(&self) -> (r: Result<Node, MerkleizationError>)
        requires
            self.spec_fields_wf(),
        ensures
            r matches Ok(n) && n.0@ == self.spec_root(),
    {
        proof {
            reveal(SignedBeaconBlock::spec_fields_wf);
            reveal(SignedBeaconBlock::spec_field_roots);
        }
        let r0 = self.message.ssz_root();
        let r1 = self.signature.ssz_root();
        let roots = [r0, r1];
        assert(roots_view(roots@) =~= self.spec_field_roots());
        Ok(merkleize_roots(roots.as_slice()))
    }

    /// A container is a composite type.
    pub fn is_composite_type() -> (r: bool)
        ensures
            r,
    {
        true
    }
}

/// The head of a `SignedBeaconBlock` encoding is 100 bytes.
proof fn lemma_signed_beacon_block_head_len()
    ensures
        spec_layout_head_len(SignedBeaconBlock::spec_layout()) == 100,
{
    reveal_with_fuel(spec_head_pos, 3);
}

/// The parts of a `SignedBeaconBlock` fit its field layout.
#[verifier::spinoff_prover]
#[verifier::rlimit(100)]
proof fn lemma_signed_beacon_block_layout(x: SignedBeaconBlock)
    requires
        x.spec_fields_wf(),
    ensures
        spec_layout_matches(SignedBeaconBlock::spec_layout(), x.spec_parts()),
{
    reveal(SignedBeaconBlock::spec_parts);
    reveal(SignedBeaconBlock::spec_fields_wf);
    SszCodec::lemma_shape(&x.signature);
    let parts = x.spec_parts();
    let layout = SignedBeaconBlock::spec_layout();
    assert forall|i: int| 0 <= i < parts.len() implies (#[trigger] parts[i].0 <==> layout[i] == 0)
        && (layout[i] > 0 ==> parts[i].1.len() == layout[i]) by {
        if i == 0 { } else if i == 1 { }
    }
}

/// The parts of a `SignedBeaconBlock` fit byte ranges exactly when each field's
/// encoding is the bytes of its range.
#[verifier::spinoff_prover]
#[verifier::rlimit(100)]
proof fn lemma_signed_beacon_block_fields_fit(encoding: Seq<u8>, ranges: Seq<(usize, usize)>, v: SignedBeaconBlock)
    requires
        ranges.len() == 2,
    ensures
        spec_ranges_fit(encoding, SignedBeaconBlock::spec_layout(), ranges, v.spec_parts()) ==> (v.message.spec_encoding() == encoding.subrange(ranges[0].0 as int, ranges[0].1 as int)
            && v.signature.spec_encoding() == encoding.subrange(ranges[1].0 as int, ranges[1].1 as int)),
        spec_layout_matches(SignedBeaconBlock::spec_layout(), v.spec_parts()) && (v.message.spec_encoding() == encoding.subrange(ranges[0].0 as int, ranges[0].1 as int)
            && v.signature.spec_encoding() == encoding.subrange(ranges[1].0 as int, ranges[1].1 as int))
            ==> spec_ranges_fit(encoding, SignedBeaconBlock::spec_layout(), ranges, v.spec_parts()),
{
    reveal(SignedBeaconBlock::spec_parts);
    let parts = v.spec_parts();
    if spec_ranges_fit(encoding, SignedBeaconBlock::spec_layout(), ranges, parts) {
        assert(parts[0].1 == encoding.subrange(ranges[0].0 as int, ranges[0].1 as int));
        assert(parts[1].1 == encoding.subrange(ranges[1].0 as int, ranges[1].1 as int));
    }
    if spec_layout_matches(SignedBeaconBlock::spec_layout(), parts) && (v.message.spec_encoding() == encoding.subrange(ranges[0].0 as int, ranges[0].1 as int)
            && v.signature.spec_encoding() == encoding.subrange(ranges[1].0 as int, ranges[1].1 as int)) {
        assert forall|i: int| 0 <= i < parts.len() implies #[trigger] parts[i].1 == encoding.subrange(ranges[i].0 as int, ranges[i].1 as int) by {
            if i == 0 { assert(parts[0].1 == v.message.spec_encoding()); } else if i == 1 { assert(parts[1].1 == v.signature.spec_encoding()); }
        }
    }
}

impl SszCodec for SignedBeaconBlock {
    open spec fn spec_fixed_size() -> Option<nat> {
        None
    }

    open spec fn spec_packed() -> bool {
        false
    }

    open spec fn spec_wf(&self) -> bool {
        self.spec_fields_wf()
    }

    open spec fn spec_encoding(&self) -> Seq<u8> {
        self.spec_ssz()
    }

    open spec fn spec_tree_root(&self) -> Seq<u8> {
        self.spec_root()
    }

    proof fn lemma_layout() {
    }

    proof fn lemma_shape(x: &Self) {

    }

    fn ssz_fixed_size() -> (r: Option<usize>) {
        None
    }

    fn ssz_packed() -> (r: bool) {
        false
    }

    fn ssz_encode(&self, buffer: &mut Vec<u8>) {
        let _ = self.serialize(buffer);
    }

    fn ssz_decode(bytes: &[u8]) -> (r: Result<Self, DeserializeError>) {
        Self::deserialize(bytes)
    }

    fn ssz_root(&self) -> (r: Node) {
        match self.hash_tree_root() {
            Ok(n) => n,
            Err(_) => Node([0u8; 32]),
        }
    }
}

} // verus!
