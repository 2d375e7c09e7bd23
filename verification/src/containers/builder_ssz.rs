//! SSZ for the builder containers with list, bitlist or nested fields.
//!
//! Each container encodes as a head of fixed-size fields and offsets
//! followed by its variable-size fields, decodes by cutting the input along
//! its field layout, and roots to the merkle root of its fields' roots.
use vstd::prelude::*;
use vstd::slice::slice_subrange;

use crate::ssz::codec::SszCodec;
use crate::ssz::container::{
    encode_fixed_field, encode_variable_field, lemma_container_all_fixed,
    lemma_container_part_bounds, lemma_so_far_done, spec_container_encoding, spec_head_pieces,
    spec_head_pos, spec_layout_head_len, spec_layout_matches, spec_ranges_fit, spec_tail_pieces,
    split_container, decode_field, FieldPart,
};
use crate::ssz::merkle::{merkleize_roots, roots_view, spec_merkleize};
use crate::ssz::{Bitlist, Bitvector, DeserializeError, List, MerkleizationError, Node, SerializeError, Vector};

use crate::constants::{PTC_SIZE};
use crate::containers::builder::{IndexedPayloadAttestation, PayloadAttestationData};
use crate::primitives::{BLSSignature, ValidatorIndex};

verus! {

impl IndexedPayloadAttestation {
    /// The fields' places in the encoding: whether each is variable-size,
    /// and its encoding.
    #[verifier::opaque]
    pub open spec fn spec_parts(&self) -> Seq<FieldPart> {
        seq![
            (true, self.attesting_indices.spec_encoding()),
            (false, self.data.spec_encoding()),
            (false, self.signature.spec_encoding()),
        ]
    }

    /// Each field's fixed size, or zero for a variable-size field.
    pub open spec fn spec_layout() -> Seq<usize> {
        seq![0usize, 42usize, 96usize]
    }

    /// The SSZ encoding: fixed-size fields and offsets, then variable-size
    /// fields.
    #[verifier::opaque]
    pub open spec fn spec_ssz(&self) -> Seq<u8> {
        spec_container_encoding(self.spec_parts(), 142)
    }

    /// The hash-tree-roots of the fields in order.
    #[verifier::opaque]
    pub open spec fn spec_field_roots(&self) -> Seq<Seq<u8>> {
        seq![
            self.attesting_indices.spec_tree_root(),
            self.data.spec_tree_root(),
            self.signature.spec_tree_root(),
        ]
    }

    /// The hash-tree-root: the merkle root of the field roots.
    pub open spec fn spec_root(&self) -> Seq<u8> {
        spec_merkleize(self.spec_field_roots())
    }

    /// Whether every field respects its bounds.
    #[verifier::opaque]
    pub open spec fn spec_fields_wf(&self) -> bool {
        &&& self.attesting_indices.spec_wf()
        &&& self.data.spec_wf()
        &&& self.signature.spec_wf()
    }

    /// Whether the container has a variable-size encoding.
    pub fn is_variable_size() -> (r: bool)
        ensures
            r == true,
    {
        true
    }

    /// The bytes taken by the fixed-size fields.
    pub fn size_hint() -> (r: usize)
        ensures
            r == 138,
    {
        138
    }

    /// Append the encoding.
    #[verifier::spinoff_prover]
    #[verifier::rlimit(100)]
    pub fn serialize(&self, buffer: &mut Vec<u8>) -> (r: Result<usize, SerializeError>)
        requires
            self.spec_fields_wf(),
            self.spec_ssz().len() <= u32::MAX,
        ensures
            r == Ok::<usize, SerializeError>(self.spec_ssz().len() as usize),
            final(buffer)@ == old(buffer)@ + self.spec_ssz(),
    {
        let ghost parts = self.spec_parts();
        proof {
            reveal(IndexedPayloadAttestation::spec_ssz);
            reveal(IndexedPayloadAttestation::spec_parts);
            reveal(IndexedPayloadAttestation::spec_fields_wf);
            assert(parts.len() == 3);
            SszCodec::lemma_shape(&self.data);
            SszCodec::lemma_shape(&self.signature);
            assert(spec_layout_matches(Self::spec_layout(), parts));
            assert(spec_layout_head_len(Self::spec_layout()) == 142) by {
                reveal_with_fuel(spec_head_pos, 4);
            }
            assert(spec_head_pieces(parts, 142int).subrange(0, 0) =~= Seq::<Seq<u8>>::empty());
            assert(spec_tail_pieces(parts).subrange(0, 0) =~= Seq::<Seq<u8>>::empty());
        }
        let mut head: Vec<u8> = Vec::new();
        let mut tail: Vec<u8> = Vec::new();
        encode_variable_field(&self.attesting_indices, &mut head, &mut tail, 142, Ghost(Self::spec_layout()), Ghost(parts), Ghost(0int));
        encode_fixed_field(&self.data, &mut head, &tail, Ghost(Self::spec_layout()), Ghost(parts), Ghost(1int));
        encode_fixed_field(&self.signature, &mut head, &tail, Ghost(Self::spec_layout()), Ghost(parts), Ghost(2int));
        proof {
            reveal(IndexedPayloadAttestation::spec_ssz);
            reveal(IndexedPayloadAttestation::spec_parts);
            reveal(IndexedPayloadAttestation::spec_fields_wf);
            lemma_so_far_done(parts, 142int);
            assert(head@.len() + tail@.len() == self.spec_ssz().len());
        }
        let n = head.len() + tail.len();
        head.append(&mut tail);
        buffer.append(&mut head);
        Ok(n)
    }

    /// Decode from exactly the given bytes.
    #[verifier::spinoff_prover]
    #[verifier::rlimit(100)]
    pub fn deserialize(encoding: &[u8]) -> (r: Result<Self, DeserializeError>)
        ensures
            r matches Ok(v) ==> v.spec_fields_wf() && v.spec_ssz() == encoding@,
            encoding@.len() <= u32::MAX && (exists|v: Self| v.spec_fields_wf() && #[trigger] v.spec_ssz() == encoding@)
                ==> r is Ok,
    {
        let sizes: [usize; 3] = [0usize, 42usize, 96usize];
        proof {
            assert(sizes@ =~= Self::spec_layout());
            lemma_indexed_payload_attestation_head_len();
        }
        let ghost has_witness = encoding@.len() <= u32::MAX
            && exists|v: Self| v.spec_fields_wf() && #[trigger] v.spec_ssz() == encoding@;
        let ghost w = choose|v: Self| v.spec_fields_wf() && #[trigger] v.spec_ssz() == encoding@;
        proof {
            if has_witness {
                lemma_indexed_payload_attestation_layout(w);
                reveal(IndexedPayloadAttestation::spec_ssz);
            }
        }
        let ranges = match split_container(encoding, &sizes) {
            Ok(r) => r,
            Err(e) => {
                return Err(e);
            },
        };
        proof {
            if has_witness {
                reveal(IndexedPayloadAttestation::spec_fields_wf);
                lemma_indexed_payload_attestation_fields_fit(encoding@, ranges@, w);
            }
        }
        let attesting_indices = match decode_field::<List<ValidatorIndex, PTC_SIZE>>(encoding, &ranges, 0, Ghost(if has_witness { Some(w.attesting_indices) } else { None })) {
            Ok(x) => x,
            Err(e) => {
                return Err(e);
            },
        };
        let data = match decode_field::<PayloadAttestationData>(encoding, &ranges, 1, Ghost(if has_witness { Some(w.data) } else { None })) {
            Ok(x) => x,
            Err(e) => {
                return Err(e);
            },
        };
        let signature = match decode_field::<BLSSignature>(encoding, &ranges, 2, Ghost(if has_witness { Some(w.signature) } else { None })) {
            Ok(x) => x,
            Err(e) => {
                return Err(e);
            },
        };
        let v = IndexedPayloadAttestation { attesting_indices, data, signature };
        proof {
            reveal(IndexedPayloadAttestation::spec_ssz);
            reveal(IndexedPayloadAttestation::spec_fields_wf);
            assert(v.spec_fields_wf());
            lemma_indexed_payload_attestation_layout(v);
            lemma_indexed_payload_attestation_fields_fit(encoding@, ranges@, v);
        }
        Ok(v)
    }

    /// The merkle root of the field roots.
    #[verifier::spinoff_prover]
    #[verifier::rlimit(100)]
    pub fn hash_tree_root(&self) -> (r: Result<Node, MerkleizationError>)
        requires
            self.spec_fields_wf(),
        ensures
            r matches Ok(n) && n.0@ == self.spec_root(),
    {
        proof {
            reveal(IndexedPayloadAttestation::spec_fields_wf);
            reveal(IndexedPayloadAttestation::spec_field_roots);
        }
        let r0 = self.attesting_indices.ssz_root();
        let r1 = self.data.ssz_root();
        let r2 = self.signature.ssz_root();
        let roots = [r0, r1, r2];
        assert(roots_view(roots@) =~= self.spec_field_roots());
        Ok(merkleize_roots(roots.as_slice()))
    }

    /// A container is a composite type.
    pub fn is_composite_type() -> (r: bool)
        ensures
            r,
    {
        true
    }
}

/// The head of a `IndexedPayloadAttestation` encoding is 142 bytes.
proof fn lemma_indexed_payload_attestation_head_len()
    ensures
        spec_layout_head_len(IndexedPayloadAttestation::spec_layout()) == 142,
{
    reveal_with_fuel(spec_head_pos, 4);
}

/// The parts of a `IndexedPayloadAttestation` fit its field layout.
#[verifier::spinoff_prover]
#[verifier::rlimit(100)]
proof fn lemma_indexed_payload_attestation_layout(x: IndexedPayloadAttestation)
    requires
        x.spec_fields_wf(),
    ensures
        spec_layout_matches(IndexedPayloadAttestation::spec_layout(), x.spec_parts()),
{
    reveal(IndexedPayloadAttestation::spec_parts);
    reveal(IndexedPayloadAttestation::spec_fields_wf);
    SszCodec::lemma_shape(&x.data);
    SszCodec::lemma_shape(&x.signature);
    let parts = x.spec_parts();
    let layout = IndexedPayloadAttestation::spec_layout();
    assert forall|i: int| 0 <= i < parts.len() implies (#[trigger] parts[i].0 <==> layout[i] == 0)
        && (layout[i] > 0 ==> parts[i].1.len() == layout[i]) by {
        if i == 0 { } else if i == 1 { } else if i == 2 { }
    }
}

/// The parts of a `IndexedPayloadAttestation` fit byte ranges exactly when each field's
/// encoding is the bytes of its range.
#[verifier::spinoff_prover]
#[verifier::rlimit(100)]
proof fn lemma_indexed_payload_attestation_fields_fit(encoding: Seq<u8>, ranges: Seq<(usize, usize)>, v: IndexedPayloadAttestation)
    requires
        ranges.len() == 3,
    ensures
        spec_ranges_fit(encoding, IndexedPayloadAttestation::spec_layout(), ranges, v.spec_parts()) ==> (v.attesting_indices.spec_encoding() == encoding.subrange(ranges[0].0 as int, ranges[0].1 as int)
            && v.data.spec_encoding() == encoding.subrange(ranges[1].0 as int, ranges[1].1 as int)
            && v.signature.spec_encoding() == encoding.subrange(ranges[2].0 as int, ranges[2].1 as int)),
        spec_layout_matches(IndexedPayloadAttestation::spec_layout(), v.spec_parts()) && (v.attesting_indices.spec_encoding() == encoding.subrange(ranges[0].0 as int, ranges[0].1 as int)
            && v.data.spec_encoding() == encoding.subrange(ranges[1].0 as int, ranges[1].1 as int)
            && v.signature.spec_encoding() == encoding.subrange(ranges[2].0 as int, ranges[2].1 as int))
            ==> spec_ranges_fit(encoding, IndexedPayloadAttestation::spec_layout(), ranges, v.spec_parts()),
{
    reveal(IndexedPayloadAttestation::spec_parts);
    let parts = v.spec_parts();
    if spec_ranges_fit(encoding, IndexedPayloadAttestation::spec_layout(), ranges, parts) {
        assert(parts[0].1 == encoding.subrange(ranges[0].0 as int, ranges[0].1 as int));
        assert(parts[1].1 == encoding.subrange(ranges[1].0 as int, ranges[1].1 as int));
        assert(parts[2].1 == encoding.subrange(ranges[2].0 as int, ranges[2].1 as int));
    }
    if spec_layout_matches(IndexedPayloadAttestation::spec_layout(), parts) && (v.attesting_indices.spec_encoding() == encoding.subrange(ranges[0].0 as int, ranges[0].1 as int)
            && v.data.spec_encoding() == encoding.subrange(ranges[1].0 as int, ranges[1].1 as int)
            && v.signature.spec_encoding() == encoding.subrange(ranges[2].0 as int, ranges[2].1 as int)) {
        assert forall|i: int| 0 <= i < parts.len() implies #[trigger] parts[i].1 == encoding.subrange(ranges[i].0 as int, ranges[i].1 as int) by {
            if i == 0 { assert(parts[0].1 == v.attesting_indices.spec_encoding()); } else if i == 1 { assert(parts[1].1 == v.data.spec_encoding()); } else if i == 2 { assert(parts[2].1 == v.signature.spec_encoding()); }
        }
    }
}

impl SszCodec for IndexedPayloadAttestation {
    open spec fn spec_fixed_size() -> Option<nat> {
        None
    }

    open spec fn spec_packed() -> bool {
        false
    }

    open spec fn spec_wf(&self) -> bool {
        self.spec_fields_wf()
    }

    open spec fn spec_encoding(&self) -> Seq<u8> {
        self.spec_ssz()
    }

    open spec fn spec_tree_root(&self) -> Seq<u8> {
        self.spec_root()
    }

    proof fn lemma_layout() {
    }

    proof fn lemma_shape(x: &Self) {

    }

    fn ssz_fixed_size() -> (r: Option<usize>) {
        None
    }

    fn ssz_packed() -> (r: bool) {
        false
    }

    fn ssz_encode(&self, buffer: &mut Vec<u8>) {
        let _ = self.serialize(buffer);
    }

    fn ssz_decode(bytes: &[u8]) -> (r: Result<Self, DeserializeError>) {
        Self::deserialize(bytes)
    }

    fn ssz_root(&self) -> (r: Node) {
        match self.hash_tree_root() {
            Ok(n) => n,
            Err(_) => Node([0u8; 32]),
        }
    }
}

} // verus!
