//! SSZ for the attestation containers with list, bitlist or nested fields.
//!
//! Each container encodes as a head of fixed-size fields and offsets
//! followed by its variable-size fields, decodes by cutting the input along
//! its field layout, and roots to the merkle root of its fields' roots.
use vstd::prelude::*;
use vstd::slice::slice_subrange;

use crate::ssz::codec::SszCodec;
use crate::ssz::container::{
    encode_fixed_field, encode_variable_field, lemma_container_all_fixed,
    lemma_container_part_bounds, lemma_so_far_done, spec_container_encoding, spec_head_pieces,
    spec_head_pos, spec_layout_head_len, spec_layout_matches, spec_ranges_fit, spec_tail_pieces,
    split_container, decode_field, FieldPart,
};
use crate::ssz::merkle::{merkleize_roots, roots_view, spec_merkleize};
use crate::ssz::{Bitlist, Bitvector, DeserializeError, List, MerkleizationError, Node, SerializeError, Vector};

use crate::constants::{MAX_ATTESTING_INDICES, MAX_COMMITTEES_PER_SLOT};
use crate::containers::attestation::{AggregateAndProof, Attestation, AttestationData, AttesterSlashing, IndexedAttestation, SignedAggregateAndProof};
use crate::primitives::{BLSSignature, ValidatorIndex};

verus! {

impl IndexedAttestation {
    /// The fields' places in the encoding: whether each is variable-size,
    /// and its encoding.
    #[verifier::opaque]
    pub open spec fn spec_parts(&self) -> Seq<FieldPart> {
        seq![
            (true, self.attesting_indices.spec_encoding()),
            (false, self.data.spec_encoding()),
            (false, self.signature.spec_encoding()),
        ]
    }

    /// Each field's fixed size, or zero for a variable-size field.
    pub open spec fn spec_layout() -> Seq<usize> {
        seq![0usize, 128usize, 96usize]
    }

    /// The SSZ encoding: fixed-size fields and offsets, then variable-size
    /// fields.
    #[verifier::opaque]
    pub open spec fn spec_ssz(&self) -> Seq<u8> {
        spec_container_encoding(self.spec_parts(), 228)
    }

    /// The hash-tree-roots of the fields in order.
    #[verifier::opaque]
    pub open spec fn spec_field_roots(&self) -> Seq<Seq<u8>> {
        seq![
            self.attesting_indices.spec_tree_root(),
            self.data.spec_tree_root(),
            self.signature.spec_tree_root(),
        ]
    }

    /// The hash-tree-root: the merkle root of the field roots.
    pub open spec fn spec_root(&self) -> Seq<u8> {
        spec_merkleize(self.spec_field_roots())
    }

    /// Whether every field respects its bounds.
    #[verifier::opaque]
    pub open spec fn spec_fields_wf(&self) -> bool {
        &&& self.attesting_indices.spec_wf()
        &&& self.data.spec_wf()
        &&& self.signature.spec_wf()
    }

    /// Whether the container has a variable-size encoding.
    pub fn is_variable_size() -> (r: bool)
        ensures
            r == true,
    {
        true
    }

    /// The bytes taken by the fixed-size fields.
    pub fn size_hint() -> (r: usize)
        ensures
            r == 224,
    {
        224
    }

    /// Append the encoding.
    #[verifier::spinoff_prover]
    #[verifier::rlimit(100)]
    pub fn serialize(&self, buffer: &mut Vec<u8>) -> (r: Result<usize, SerializeError>)
        requires
            self.spec_fields_wf(),
            self.spec_ssz().len() <= u32::MAX,
        ensures
            r == Ok::<usize, SerializeError>(self.spec_ssz().len() as usize),
            final(buffer)@ == old(buffer)@ + self.spec_ssz(),
    {
        let ghost parts = self.spec_parts();
        proof {
            reveal(IndexedAttestation::spec_ssz);
            reveal(IndexedAttestation::spec_parts);
            reveal(IndexedAttestation::spec_fields_wf);
            assert(parts.len() == 3);
            SszCodec::lemma_shape(&self.data);
            SszCodec::lemma_shape(&self.signature);
            assert(spec_layout_matches(Self::spec_layout(), parts));
            assert(spec_layout_head_len(Self::spec_layout()) == 228) by {
                reveal_with_fuel(spec_head_pos, 4);
            }
            assert(spec_head_pieces(parts, 228int).subrange(0, 0) =~= Seq::<Seq<u8>>::empty());
            assert(spec_tail_pieces(parts).subrange(0, 0) =~= Seq::<Seq<u8>>::empty());
        }
        let mut head: Vec<u8> = Vec::new();
        let mut tail: Vec<u8> = Vec::new();
        encode_variable_field(&self.attesting_indices, &mut head, &mut tail, 228, Ghost(Self::spec_layout()), Ghost(parts), Ghost(0int));
        encode_fixed_field(&self.data, &mut head, &tail, Ghost(Self::spec_layout()), Ghost(parts), Ghost(1int));
        encode_fixed_field(&self.signature, &mut head, &tail, Ghost(Self::spec_layout()), Ghost(parts), Ghost(2int));
        proof {
            reveal(IndexedAttestation::spec_ssz);
            reveal(IndexedAttestation::spec_parts);
            reveal(IndexedAttestation::spec_fields_wf);
            lemma_so_far_done(parts, 228int);
            assert(head@.len() + tail@.len() == self.spec_ssz().len());
        }
        let n = head.len() + tail.len();
        head.append(&mut tail);
        buffer.append(&mut head);
        Ok(n)
    }

    /// Decode from exactly the given bytes.
    #[verifier::spinoff_prover]
    #[verifier::rlimit(100)]
    pub fn deserialize(encoding: &[u8]) -> (r: Result<Self, DeserializeError>)
        ensures
            r matches Ok(v) ==> v.spec_fields_wf() && v.spec_ssz() == encoding@,
            encoding@.len() <= u32::MAX && (exists|v: Self| v.spec_fields_wf() && #[trigger] v.spec_ssz() == encoding@)
                ==> r is Ok,
    {
        let sizes: [usize; 3] = [0usize, 128usize, 96usize];
        proof {
            assert(sizes@ =~= Self::spec_layout());
            lemma_indexed_attestation_head_len();
        }
        let ghost has_witness = encoding@.len() <= u32::MAX
            && exists|v: Self| v.spec_fields_wf() && #[trigger] v.spec_ssz() == encoding@;
        let ghost w = choose|v: Self| v.spec_fields_wf() && #[trigger] v.spec_ssz() == encoding@;
        proof {
            if has_witness {
                lemma_indexed_attestation_layout(w);
                reveal(IndexedAttestation::spec_ssz);
            }
        }
        let ranges = match split_container(encoding, &sizes) {
            Ok(r) => r,
            Err(e) => {
                return Err(e);
            },
        };
        proof {
            if has_witness {
                reveal(IndexedAttestation::spec_fields_wf);
                lemma_indexed_attestation_fields_fit(encoding@, ranges@, w);
            }
        }
        let attesting_indices = match decode_field::<List<ValidatorIndex, MAX_ATTESTING_INDICES>>(encoding, &ranges, 0, Ghost(if has_witness { Some(w.attesting_indices) } else { None })) {
            Ok(x) => x,
            Err(e) => {
                return Err(e);
            },
        };
        let data = match decode_field::<AttestationData>(encoding, &ranges, 1, Ghost(if has_witness { Some(w.data) } else { None })) {
            Ok(x) => x,
            Err(e) => {
                return Err(e);
            },
        };
        let signature = match decode_field::<BLSSignature>(encoding, &ranges, 2, Ghost(if has_witness { Some(w.signature) } else { None })) {
            Ok(x) => x,
            Err(e) => {
                return Err(e);
            },
        };
        let v = IndexedAttestation { attesting_indices, data, signature };
        proof {
            reveal(IndexedAttestation::spec_ssz);
            reveal(IndexedAttestation::spec_fields_wf);
            assert(v.spec_fields_wf());
            lemma_indexed_attestation_layout(v);
            lemma_indexed_attestation_fields_fit(encoding@, ranges@, v);
        }
        Ok(v)
    }

    /// The merkle root of the field roots.
    #[verifier::spinoff_prover]
    #[verifier::rlimit(100)]
    pub fn hash_tree_root(&self) -> (r: Result<Node, MerkleizationError>)
        requires
            self.spec_fields_wf(),
        ensures
            r matches Ok(n) && n.0@ == self.spec_root(),
    {
        proof {
            reveal(IndexedAttestation::spec_fields_wf);
            reveal(IndexedAttestation::spec_field_roots);
        }
        let r0 = self.attesting_indices.ssz_root();
        let r1 = self.data.ssz_root();
        let r2 = self.signature.ssz_root();
        let roots = [r0, r1, r2];
        assert(roots_view(roots@) =~= self.spec_field_roots());
        Ok(merkleize_roots(roots.as_slice()))
    }

    /// A container is a composite type.
    pub fn is_composite_type() -> (r: bool)
        ensures
            r,
    {
        true
    }
}

/// The head of a `IndexedAttestation` encoding is 228 bytes.
proof fn lemma_indexed_attestation_head_len()
    ensures
        spec_layout_head_len(IndexedAttestation::spec_layout()) == 228,
{
    reveal_with_fuel(spec_head_pos, 4);
}

/// The parts of a `IndexedAttestation` fit its field layout.
#[verifier::spinoff_prover]
#[verifier::rlimit(100)]
proof fn lemma_indexed_attestation_layout(x: IndexedAttestation)
    requires
        x.spec_fields_wf(),
    ensures
        spec_layout_matches(IndexedAttestation::spec_layout(), x.spec_parts()),
{
    reveal(IndexedAttestation::spec_parts);
    reveal(IndexedAttestation::spec_fields_wf);
    SszCodec::lemma_shape(&x.data);
    SszCodec::lemma_shape(&x.signature);
    let parts = x.spec_parts();
    let layout = IndexedAttestation::spec_layout();
    assert forall|i: int| 0 <= i < parts.len() implies (#[trigger] parts[i].0 <==> layout[i] == 0)
        && (layout[i] > 0 ==> parts[i].1.len() == layout[i]) by {
        if i == 0 { } else if i == 1 { } else if i == 2 { }
    }
}

/// The parts of a `IndexedAttestation` fit byte ranges exactly when each field's
/// encoding is the bytes of its range.
#[verifier::spinoff_prover]
#[verifier::rlimit(100)]
proof fn lemma_indexed_attestation_fields_fit(encoding: Seq<u8>, ranges: Seq<(usize, usize)>, v: IndexedAttestation)
    requires
        ranges.len() == 3,
    ensures
        spec_ranges_fit(encoding, IndexedAttestation::spec_layout(), ranges, v.spec_parts()) ==> (v.attesting_indices.spec_encoding() == encoding.subrange(ranges[0].0 as int, ranges[0].1 as int)
            && v.data.spec_encoding() == encoding.subrange(ranges[1].0 as int, ranges[1].1 as int)
            && v.signature.spec_encoding() == encoding.subrange(ranges[2].0 as int, ranges[2].1 as int)),
        spec_layout_matches(IndexedAttestation::spec_layout(), v.spec_parts()) && (v.attesting_indices.spec_encoding() == encoding.subrange(ranges[0].0 as int, ranges[0].1 as int)
            && v.data.spec_encoding() == encoding.subrange(ranges[1].0 as int, ranges[1].1 as int)
            && v.signature.spec_encoding() == encoding.subrange(ranges[2].0 as int, ranges[2].1 as int))
            ==> spec_ranges_fit(encoding, IndexedAttestation::spec_layout(), ranges, v.spec_parts()),
{
    reveal(IndexedAttestation::spec_parts);
    let parts = v.spec_parts();
    if spec_ranges_fit(encoding, IndexedAttestation::spec_layout(), ranges, parts) {
        assert(parts[0].1 == encoding.subrange(ranges[0].0 as int, ranges[0].1 as int));
        assert(parts[1].1 == encoding.subrange(ranges[1].0 as int, ranges[1].1 as int));
        assert(parts[2].1 == encoding.subrange(ranges[2].0 as int, ranges[2].1 as int));
    }
    if spec_layout_matches(IndexedAttestation::spec_layout(), parts) && (v.attesting_indices.spec_encoding() == encoding.subrange(ranges[0].0 as int, ranges[0].1 as int)
            && v.data.spec_encoding() == encoding.subrange(ranges[1].0 as int, ranges[1].1 as int)
            && v.signature.spec_encoding() == encoding.subrange(ranges[2].0 as int, ranges[2].1 as int)) {
        assert forall|i: int| 0 <= i < parts.len() implies #[trigger] parts[i].1 == encoding.subrange(ranges[i].0 as int, ranges[i].1 as int) by {
            if i == 0 { assert(parts[0].1 == v.attesting_indices.spec_encoding()); } else if i == 1 { assert(parts[1].1 == v.data.spec_encoding()); } else if i == 2 { assert(parts[2].1 == v.signature.spec_encoding()); }
        }
    }
}

impl SszCodec for IndexedAttestation {
    open spec fn spec_fixed_size() -> Option<nat> {
        None
    }

    open spec fn spec_packed() -> bool {
        false
    }

    open spec fn spec_wf(&self) -> bool {
        self.spec_fields_wf()
    }

    open spec fn spec_encoding(&self) -> Seq<u8> {
        self.spec_ssz()
    }

    open spec fn spec_tree_root(&self) -> Seq<u8> {
        self.spec_root()
    }

    proof fn lemma_layout() {
    }

    proof fn lemma_shape(x: &Self) {

    }

    fn ssz_fixed_size() -> (r: Option<usize>) {
        None
    }

    fn ssz_packed() -> (r: bool) {
        false
    }

    fn ssz_encode(&self, buffer: &mut Vec<u8>) {
        let _ = self.serialize(buffer);
    }

    fn ssz_decode(bytes: &[u8]) -> (r: Result<Self, DeserializeError>) {
        Self::deserialize(bytes)
    }

    fn ssz_root(&self) -> (r: Node) {
        match self.hash_tree_root() {
            Ok(n) => n,
            Err(_) => Node([0u8; 32]),
        }
    }
}

impl Attestation {
    /// The fields' places in the encoding: whether each is variable-size,
    /// and its encoding.
    #[verifier::opaque]
    pub open spec fn spec_parts(&self) -> Seq<FieldPart> {
        seq![
            (true, self.aggregation_bits.spec_encoding()),
            (false, self.data.spec_encoding()),
            (false, self.signature.spec_encoding()),
            (false, self.committee_bits.spec_encoding()),
        ]
    }

    /// Each field's fixed size, or zero for a variable-size field.
    pub open spec fn spec_layout() -> Seq<usize> {
        seq![0usize, 128usize, 96usize, 8usize]
    }

    /// The SSZ encoding: fixed-size fields and offsets, then variable-size
    /// fields.
    #[verifier::opaque]
    pub open spec fn spec_ssz(&self) -> Seq<u8> {
        spec_container_encoding(self.spec_parts(), 236)
    }

    /// The hash-tree-roots of the fields in order.
    #[verifier::opaque]
    pub open spec fn spec_field_roots(&self) -> Seq<Seq<u8>> {
        seq![
            self.aggregation_bits.spec_tree_root(),
            self.data.spec_tree_root(),
            self.signature.spec_tree_root(),
            self.committee_bits.spec_tree_root(),
        ]
    }

    /// The hash-tree-root: the merkle root of the field roots.
    pub open spec fn spec_root(&self) -> Seq<u8> {
        spec_merkleize(self.spec_field_roots())
    }

    /// Whether every field respects its bounds.
    #[verifier::opaque]
    pub open spec fn spec_fields_wf(&self) -> bool {
        &&& self.aggregation_bits.spec_wf()
        &&& self.data.spec_wf()
        &&& self.signature.spec_wf()
        &&& self.committee_bits.spec_wf()
    }

    /// Whether the container has a variable-size encoding.
    pub fn is_variable_size() -> (r: bool)
        ensures
            r == true,
    {
        true
    }

    /// The bytes taken by the fixed-size fields.
    pub fn size_hint() -> (r: usize)
        ensures
            r == 232,
    {
        232
    }

    /// Append the encoding.
    #[verifier::spinoff_prover]
    #[verifier::rlimit(100)]
    pub fn serialize(&self, buffer: &mut Vec<u8>) -> (r: Result<usize, SerializeError>)
        requires
            self.spec_fields_wf(),
            self.spec_ssz().len() <= u32::MAX,
        ensures
            r == Ok::<usize, SerializeError>(self.spec_ssz().len() as usize),
            final(buffer)@ == old(buffer)@ + self.spec_ssz(),
    {
        let ghost parts = self.spec_parts();
        proof {
            reveal(Attestation::spec_ssz);
            reveal(Attestation::spec_parts);
            reveal(Attestation::spec_fields_wf);
            assert(parts.len() == 4);
            SszCodec::lemma_shape(&self.data);
            SszCodec::lemma_shape(&self.signature);
            SszCodec::lemma_shape(&self.committee_bits);
            assert(spec_layout_matches(Self::spec_layout(), parts));
            assert(spec_layout_head_len(Self::spec_layout()) == 236) by {
                reveal_with_fuel(spec_head_pos, 5);
            }
            assert(spec_head_pieces(parts, 236int).subrange(0, 0) =~= Seq::<Seq<u8>>::empty());
            assert(spec_tail_pieces(parts).subrange(0, 0) =~= Seq::<Seq<u8>>::empty());
        }
        let mut head: Vec<u8> = Vec::new();
        let mut tail: Vec<u8> = Vec::new();
        encode_variable_field(&self.aggregation_bits, &mut head, &mut tail, 236, Ghost(Self::spec_layout()), Ghost(parts), Ghost(0int));
        encode_fixed_field(&self.data, &mut head, &tail, Ghost(Self::spec_layout()), Ghost(parts), Ghost(1int));
        encode_fixed_field(&self.signature, &mut head, &tail, Ghost(Self::spec_layout()), Ghost(parts), Ghost(2int));
        encode_fixed_field(&self.committee_bits, &mut head, &tail, Ghost(Self::spec_layout()), Ghost(parts), Ghost(3int));
        proof {
            reveal(Attestation::spec_ssz);
            reveal(Attestation::spec_parts);
            reveal(Attestation::spec_fields_wf);
            lemma_so_far_done(parts, 236int);
            assert(head@.len() + tail@.len() == self.spec_ssz().len());
        }
        let n = head.len() + tail.len();
        head.append(&mut tail);
        buffer.append(&mut head);
        Ok(n)
    }

    /// Decode from exactly the given bytes.
    #[verifier::spinoff_prover]
    #[verifier::rlimit(100)]
    pub fn deserialize(encoding: &[u8]) -> (r: Result<Self, DeserializeError>)
        ensures
            r matches Ok(v) ==> v.spec_fields_wf() && v.spec_ssz() == encoding@,
            encoding@.len() <= u32::MAX && (exists|v: Self| v.spec_fields_wf() && #[trigger] v.spec_ssz() == encoding@)
                ==> r is Ok,
    {
        let sizes: [usize; 4] = [0usize, 128usize, 96usize, 8usize];
        proof {
            assert(sizes@ =~= Self::spec_layout());
            lemma_attestation_head_len();
        }
        let ghost has_witness = encoding@.len() <= u32::MAX
            && exists|v: Self| v.spec_fields_wf() && #[trigger] v.spec_ssz() == encoding@;
        let ghost w = choose|v: Self| v.spec_fields_wf() && #[trigger] v.spec_ssz() == encoding@;
        proof {
            if has_witness {
                lemma_attestation_layout(w);
                reveal(Attestation::spec_ssz);
            }
        }
        let ranges = match split_container(encoding, &sizes) {
            Ok(r) => r,
            Err(e) => {
                return Err(e);
            },
        };
        proof {
            if has_witness {
                reveal(Attestation::spec_fields_wf);
                lemma_attestation_fields_fit(encoding@, ranges@, w);
            }
        }
        let aggregation_bits = match decode_field::<Bitlist<MAX_ATTESTING_INDICES>>(encoding, &ranges, 0, Ghost(if has_witness { Some(w.aggregation_bits) } else { None })) {
            Ok(x) => x,
            Err(e) => {
                return Err(e);
            },
        };
        let data = match decode_field::<AttestationData>(encoding, &ranges, 1, Ghost(if has_witness { Some(w.data) } else { None })) {
            Ok(x) => x,
            Err(e) => {
                return Err(e);
            },
        };
        let signature = match decode_field::<BLSSignature>(encoding, &ranges, 2, Ghost(if has_witness { Some(w.signature) } else { None })) {
            Ok(x) => x,
            Err(e) => {
                return Err(e);
            },
        };
        let committee_bits = match decode_field::<Bitvector<MAX_COMMITTEES_PER_SLOT>>(encoding, &ranges, 3, Ghost(if has_witness { Some(w.committee_bits) } else { None })) {
            Ok(x) => x,
            Err(e) => {
                return Err(e);
            },
        };
        let v = Attestation { aggregation_bits, data, signature, committee_bits };
        proof {
            reveal(Attestation::spec_ssz);
            reveal(Attestation::spec_fields_wf);
            assert(v.spec_fields_wf());
            lemma_attestation_layout(v);
            lemma_attestation_fields_fit(encoding@, ranges@, v);
        }
        Ok(v)
    }

    /// The merkle root of the field roots.
    #[verifier::spinoff_prover]
    #[verifier::rlimit(100)]
    pub fn hash_tree_root(&self) -> (r: Result<Node, MerkleizationError>)
        requires
            self.spec_fields_wf(),
        ensures
            r matches Ok(n) && n.0@ == self.spec_root(),
    {
        proof {
            reveal(Attestation::spec_fields_wf);
            reveal(Attestation::spec_field_roots);
        }
        let r0 = self.aggregation_bits.ssz_root();
        let r1 = self.data.ssz_root();
        let r2 = self.signature.ssz_root();
        let r3 = self.committee_bits.ssz_root();
        let roots = [r0, r1, r2, r3];
        assert(roots_view(roots@) =~= self.spec_field_roots());
        Ok(merkleize_roots(roots.as_slice()))
    }

    /// A container is a composite type.
    pub fn is_composite_type() -> (r: bool)
        ensures
            r,
    {
        true
    }
}

/// The head of a `Attestation` encoding is 236 bytes.
proof fn lemma_attestation_head_len()
    ensures
        spec_layout_head_len(Attestation::spec_layout()) == 236,
{
    reveal_with_fuel(spec_head_pos, 5);
}

/// The parts of a `Attestation` fit its field layout.
#[verifier::spinoff_prover]
#[verifier::rlimit(100)]
proof fn lemma_attestation_layout(x: Attestation)
    requires
        x.spec_fields_wf(),
    ensures
        spec_layout_matches(Attestation::spec_layout(), x.spec_parts()),
{
    reveal(Attestation::spec_parts);
    reveal(Attestation::spec_fields_wf);
    SszCodec::lemma_shape(&x.data);
    SszCodec::lemma_shape(&x.signature);
    SszCodec::lemma_shape(&x.committee_bits);
    let parts = x.spec_parts();
    let layout = Attestation::spec_layout();
    assert forall|i: int| 0 <= i < parts.len() implies (#[trigger] parts[i].0 <==> layout[i] == 0)
        && (layout[i] > 0 ==> parts[i].1.len() == layout[i]) by {
        if i == 0 { } else if i == 1 { } else if i == 2 { } else if i == 3 { }
    }
}

/// The parts of a `Attestation` fit byte ranges exactly when each field's
/// encoding is the bytes of its range.
#[verifier::spinoff_prover]
#[verifier::rlimit(100)]
proof fn lemma_attestation_fields_fit(encoding: Seq<u8>, ranges: Seq<(usize, usize)>, v: Attestation)
    requires
        ranges.len() == 4,
    ensures
        spec_ranges_fit(encoding, Attestation::spec_layout(), ranges, v.spec_parts()) ==> (v.aggregation_bits.spec_encoding() == encoding.subrange(ranges[0].0 as int, ranges[0].1 as int)
            && v.data.spec_encoding() == encoding.subrange(ranges[1].0 as int, ranges[1].1 as int)
            && v.signature.spec_encoding() == encoding.subrange(ranges[2].0 as int, ranges[2].1 as int)
            && v.committee_bits.spec_encoding() == encoding.subrange(ranges[3].0 as int, ranges[3].1 as int)),
        spec_layout_matches(Attestation::spec_layout(), v.spec_parts()) && (v.aggregation_bits.spec_encoding() == encoding.subrange(ranges[0].0 as int, ranges[0].1 as int)
            && v.data.spec_encoding() == encoding.subrange(ranges[1].0 as int, ranges[1].1 as int)
            && v.signature.spec_encoding() == encoding.subrange(ranges[2].0 as int, ranges[2].1 as int)
            && v.committee_bits.spec_encoding() == encoding.subrange(ranges[3].0 as int, ranges[3].1 as int))
            ==> spec_ranges_fit(encoding, Attestation::spec_layout(), ranges, v.spec_parts()),
{
    reveal(Attestation::spec_parts);
    let parts = v.spec_parts();
    if spec_ranges_fit(encoding, Attestation::spec_layout(), ranges, parts) {
        assert(parts[0].1 == encoding.subrange(ranges[0].0 as int, ranges[0].1 as int));
        assert(parts[1].1 == encoding.subrange(ranges[1].0 as int, ranges[1].1 as int));
        assert(parts[2].1 == encoding.subrange(ranges[2].0 as int, ranges[2].1 as int));
        assert(parts[3].1 == encoding.subrange(ranges[3].0 as int, ranges[3].1 as int));
    }
    if spec_layout_matches(Attestation::spec_layout(), parts) && (v.aggregation_bits.spec_encoding() == encoding.subrange(ranges[0].0 as int, ranges[0].1 as int)
            && v.data.spec_encoding() == encoding.subrange(ranges[1].0 as int, ranges[1].1 as int)
            && v.signature.spec_encoding() == encoding.subrange(ranges[2].0 as int, ranges[2].1 as int)
            && v.committee_bits.spec_encoding() == encoding.subrange(ranges[3].0 as int, ranges[3].1 as int)) {
        assert forall|i: int| 0 <= i < parts.len() implies #[trigger] parts[i].1 == encoding.subrange(ranges[i].0 as int, ranges[i].1 as int) by {
            if i == 0 { assert(parts[0].1 == v.aggregation_bits.spec_encoding()); } else if i == 1 { assert(parts[1].1 == v.data.spec_encoding()); } else if i == 2 { assert(parts[2].1 == v.signature.spec_encoding()); } else if i == 3 { assert(parts[3].1 == v.committee_bits.spec_encoding()); }
        }
    }
}

impl SszCodec for Attestation {
    open spec fn spec_fixed_size() -> Option<nat> {
        None
    }

    open spec fn spec_packed() -> bool {
        false
    }

    open spec fn spec_wf(&self) -> bool {
        self.spec_fields_wf()
    }

    open spec fn spec_encoding(&self) -> Seq<u8> {
        self.spec_ssz()
    }

    open spec fn spec_tree_root(&self) -> Seq<u8> {
        self.spec_root()
    }

    proof fn lemma_layout() {
    }

    proof fn lemma_shape(x: &Self) {

    }

    fn ssz_fixed_size() -> (r: Option<usize>) {
        None
    }

    fn ssz_packed() -> (r: bool) {
        false
    }

    fn ssz_encode(&self, buffer: &mut Vec<u8>) {
        let _ = self.serialize(buffer);
    }

    fn ssz_decode(bytes: &[u8]) -> (r: Result<Self, DeserializeError>) {
        Self::deserialize(bytes)
    }

    fn ssz_root(&self) -> (r: Node) {
        match self.hash_tree_root() {
            Ok(n) => n,
            Err(_) => Node([0u8; 32]),
        }
    }
}

impl AggregateAndProof {
    /// The fields' places in the encoding: whether each is variable-size,
    /// and its encoding.
    #[verifier::opaque]
    pub open spec fn spec_parts(&self) -> Seq<FieldPart> {
        seq![
            (false, self.aggregator_index.spec_encoding()),
            (true, self.aggregate.spec_encoding()),
            (false, self.selection_proof.spec_encoding()),
        ]
    }

    /// Each field's fixed size, or zero for a variable-size field.
    pub open spec fn spec_layout() -> Seq<usize> {
        seq![8usize, 0usize, 96usize]
    }

    /// The SSZ encoding: fixed-size fields and offsets, then variable-size
    /// fields.
    #[verifier::opaque]
    pub open spec fn spec_ssz(&self) -> Seq<u8> {
        spec_container_encoding(self.spec_parts(), 108)
    }

    /// The hash-tree-roots of the fields in order.
    #[verifier::opaque]
    pub open spec fn spec_field_roots(&self) -> Seq<Seq<u8>> {
        seq![
            self.aggregator_index.spec_tree_root(),
            self.aggregate.spec_tree_root(),
            self.selection_proof.spec_tree_root(),
        ]
    }

    /// The hash-tree-root: the merkle root of the field roots.
    pub open spec fn spec_root(&self) -> Seq<u8> {
        spec_merkleize(self.spec_field_roots())
    }

    /// Whether every field respects its bounds.
    #[verifier::opaque]
    pub open spec fn spec_fields_wf(&self) -> bool {
        &&& self.aggregator_index.spec_wf()
        &&& self.aggregate.spec_wf()
        &&& self.selection_proof.spec_wf()
    }

    /// Whether the container has a variable-size encoding.
    pub fn is_variable_size() -> (r: bool)
        ensures
            r == true,
    {
        true
    }

    /// The bytes taken by the fixed-size fields.
    pub fn size_hint() -> (r: usize)
        ensures
            r == 104,
    {
        104
    }

    /// Append the encoding.
    #[verifier::spinoff_prover]
    #[verifier::rlimit(100)]
    pub fn serialize(&self, buffer: &mut Vec<u8>) -> (r: Result<usize, SerializeError>)
        requires
            self.spec_fields_wf(),
            self.spec_ssz().len() <= u32::MAX,
        ensures
            r == Ok::<usize, SerializeError>(self.spec_ssz().len() as usize),
            final(buffer)@ == old(buffer)@ + self.spec_ssz(),
    {
        let ghost parts = self.spec_parts();
        proof {
            reveal(AggregateAndProof::spec_ssz);
            reveal(AggregateAndProof::spec_parts);
            reveal(AggregateAndProof::spec_fields_wf);
            assert(parts.len() == 3);
            SszCodec::lemma_shape(&self.aggregator_index);
            SszCodec::lemma_shape(&self.selection_proof);
            assert(spec_layout_matches(Self::spec_layout(), parts));
            assert(spec_layout_head_len(Self::spec_layout()) == 108) by {
                reveal_with_fuel(spec_head_pos, 4);
            }
            assert(spec_head_pieces(parts, 108int).subrange(0, 0) =~= Seq::<Seq<u8>>::empty());
            assert(spec_tail_pieces(parts).subrange(0, 0) =~= Seq::<Seq<u8>>::empty());
        }
        let mut head: Vec<u8> = Vec::new();
        let mut tail: Vec<u8> = Vec::new();
        encode_fixed_field(&self.aggregator_index, &mut head, &tail, Ghost(Self::spec_layout()), Ghost(parts), Ghost(0int));
        encode_variable_field(&self.aggregate, &mut head, &mut tail, 108, Ghost(Self::spec_layout()), Ghost(parts), Ghost(1int));
        encode_fixed_field(&self.selection_proof, &mut head, &tail, Ghost(Self::spec_layout()), Ghost(parts), Ghost(2int));
        proof {
            reveal(AggregateAndProof::spec_ssz);
            reveal(AggregateAndProof::spec_parts);
            reveal(AggregateAndProof::spec_fields_wf);
            lemma_so_far_done(parts, 108int);
            assert(head@.len() + tail@.len() == self.spec_ssz().len());
        }
        let n = head.len() + tail.len();
        head.append(&mut tail);
        buffer.append(&mut head);
        Ok(n)
    }

    /// Decode from exactly the given bytes.
    #[verifier::spinoff_prover]
    #[verifier::rlimit(100)]
    pub fn deserialize(encoding: &[u8]) -> (r: Result<Self, DeserializeError>)
        ensures
            r matches Ok(v) ==> v.spec_fields_wf() && v.spec_ssz() == encoding@,
            encoding@.len() <= u32::MAX && (exists|v: Self| v.spec_fields_wf() && #[trigger] v.spec_ssz() == encoding@)
                ==> r is Ok,
    {
        let sizes: [usize; 3] = [8usize, 0usize, 96usize];
        proof {
            assert(sizes@ =~= Self::spec_layout());
            lemma_aggregate_and_proof_head_len();
        }
        let ghost has_witness = encoding@.len() <= u32::MAX
            && exists|v: Self| v.spec_fields_wf() && #[trigger] v.spec_ssz() == encoding@;
        let ghost w = choose|v: Self| v.spec_fields_wf() && #[trigger] v.spec_ssz() == encoding@;
        proof {
            if has_witness {
                lemma_aggregate_and_proof_layout(w);
                reveal(AggregateAndProof::spec_ssz);
            }
        }
        let ranges = match split_container(encoding, &sizes) {
            Ok(r) => r,
            Err(e) => {
                return Err(e);
            },
        };
        proof {
            if has_witness {
                reveal(AggregateAndProof::spec_fields_wf);
                lemma_aggregate_and_proof_fields_fit(encoding@, ranges@, w);
            }
        }
        let aggregator_index = match decode_field::<ValidatorIndex>(encoding, &ranges, 0, Ghost(if has_witness { Some(w.aggregator_index) } else { None })) {
            Ok(x) => x,
            Err(e) => {
                return Err(e);
            },
        };
        let aggregate = match decode_field::<Attestation>(encoding, &ranges, 1, Ghost(if has_witness { Some(w.aggregate) } else { None })) {
            Ok(x) => x,
            Err(e) => {
                return Err(e);
            },
        };
        let selection_proof = match decode_field::<BLSSignature>(encoding, &ranges, 2, Ghost(if has_witness { Some(w.selection_proof) } else { None })) {
            Ok(x) => x,
            Err(e) => {
                return Err(e);
            },
        };
        let v = AggregateAndProof { aggregator_index, aggregate, selection_proof };
        proof {
            reveal(AggregateAndProof::spec_ssz);
            reveal(AggregateAndProof::spec_fields_wf);
            assert(v.spec_fields_wf());
            lemma_aggregate_and_proof_layout(v);
            lemma_aggregate_and_proof_fields_fit(encoding@, ranges@, v);
        }
        Ok(v)
    }

    /// The merkle root of the field roots.
    #[verifier::spinoff_prover]
    #[verifier::rlimit(100)]
    pub fn hash_tree_root(&self) -> (r: Result<Node, MerkleizationError>)
        requires
            self.spec_fields_wf(),
        ensures
            r matches Ok(n) && n.0@ == self.spec_root(),
    {
        proof {
            reveal(AggregateAndProof::spec_fields_wf);
            reveal(AggregateAndProof::spec_field_roots);
        }
        let r0 = self.aggregator_index.ssz_root();
        let r1 = self.aggregate.ssz_root();
        let r2 = self.selection_proof.ssz_root();
        let roots = [r0, r1, r2];
        assert(roots_view(roots@) =~= self.spec_field_roots());
        Ok(merkleize_roots(roots.as_slice()))
    }

    /// A container is a composite type.
    pub fn is_composite_type() -> (r: bool)
        ensures
            r,
    {
        true
    }
}

/// The head of a `AggregateAndProof` encoding is 108 bytes.
proof fn lemma_aggregate_and_proof_head_len()
    ensures
        spec_layout_head_len(AggregateAndProof::spec_layout()) == 108,
{
    reveal_with_fuel(spec_head_pos, 4);
}

/// The parts of a `AggregateAndProof` fit its field layout.
#[verifier::spinoff_prover]
#[verifier::rlimit(100)]
proof fn lemma_aggregate_and_proof_layout(x: AggregateAndProof)
    requires
        x.spec_fields_wf(),
    ensures
        spec_layout_matches(AggregateAndProof::spec_layout(), x.spec_parts()),
{
    reveal(AggregateAndProof::spec_parts);
    reveal(AggregateAndProof::spec_fields_wf);
    SszCodec::lemma_shape(&x.aggregator_index);
    SszCodec::lemma_shape(&x.selection_proof);
    let parts = x.spec_parts();
    let layout = AggregateAndProof::spec_layout();
    assert forall|i: int| 0 <= i < parts.len() implies (#[trigger] parts[i].0 <==> layout[i] == 0)
        && (layout[i] > 0 ==> parts[i].1.len() == layout[i]) by {
        if i == 0 { } else if i == 1 { } else if i == 2 { }
    }
}

/// The parts of a `AggregateAndProof` fit byte ranges exactly when each field's
/// encoding is the bytes of its range.
#[verifier::spinoff_prover]
#[verifier::rlimit(100)]
proof fn lemma_aggregate_and_proof_fields_fit(encoding: Seq<u8>, ranges: Seq<(usize, usize)>, v: AggregateAndProof)
    requires
        ranges.len() == 3,
    ensures
        spec_ranges_fit(encoding, AggregateAndProof::spec_layout(), ranges, v.spec_parts()) ==> (v.aggregator_index.spec_encoding() == encoding.subrange(ranges[0].0 as int, ranges[0].1 as int)
            && v.aggregate.spec_encoding() == encoding.subrange(ranges[1].0 as int, ranges[1].1 as int)
            && v.selection_proof.spec_encoding() == encoding.subrange(ranges[2].0 as int, ranges[2].1 as int)),
        spec_layout_matches(AggregateAndProof::spec_layout(), v.spec_parts()) && (v.aggregator_index.spec_encoding() == encoding.subrange(ranges[0].0 as int, ranges[0].1 as int)
            && v.aggregate.spec_encoding() == encoding.subrange(ranges[1].0 as int, ranges[1].1 as int)
            && v.selection_proof.spec_encoding() == encoding.subrange(ranges[2].0 as int, ranges[2].1 as int))
            ==> spec_ranges_fit(encoding, AggregateAndProof::spec_layout(), ranges, v.spec_parts()),
{
    reveal(AggregateAndProof::spec_parts);
    let parts = v.spec_parts();
    if spec_ranges_fit(encoding, AggregateAndProof::spec_layout(), ranges, parts) {
        assert(parts[0].1 == encoding.subrange(ranges[0].0 as int, ranges[0].1 as int));
        assert(parts[1].1 == encoding.subrange(ranges[1].0 as int, ranges[1].1 as int));
        assert(parts[2].1 == encoding.subrange(ranges[2].0 as int, ranges[2].1 as int));
    }
    if spec_layout_matches(AggregateAndProof::spec_layout(), parts) && (v.aggregator_index.spec_encoding() == encoding.subrange(ranges[0].0 as int, ranges[0].1 as int)
            && v.aggregate.spec_encoding() == encoding.subrange(ranges[1].0 as int, ranges[1].1 as int)
            && v.selection_proof.spec_encoding() == encoding.subrange(ranges[2].0 as int, ranges[2].1 as int)) {
        assert forall|i: int| 0 <= i < parts.len() implies #[trigger] parts[i].1 == encoding.subrange(ranges[i].0 as int, ranges[i].1 as int) by {
            if i == 0 { assert(parts[0].1 == v.aggregator_index.spec_encoding()); } else if i == 1 { assert(parts[1].1 == v.aggregate.spec_encoding()); } else if i == 2 { assert(parts[2].1 == v.selection_proof.spec_encoding()); }
        }
    }
}

impl SszCodec for AggregateAndProof {
    open spec fn spec_fixed_size() -> Option<nat> {
        None
    }

    open spec fn spec_packed() -> bool {
        false
    }

    open spec fn spec_wf(&self) -> bool {
        self.spec_fields_wf()
    }

    open spec fn spec_encoding(&self) -> Seq<u8> {
        self.spec_ssz()
    }

    open spec fn spec_tree_root(&self) -> Seq<u8> {
        self.spec_root()
    }

    proof fn lemma_layout() {
    }

    proof fn lemma_shape(x: &Self) {

    }

    fn ssz_fixed_size() -> (r: Option<usize>) {
        None
    }

    fn ssz_packed() -> (r: bool) {
        false
    }

    fn ssz_encode(&self, buffer: &mut Vec<u8>) {
        let _ = self.serialize(buffer);
    }

    fn ssz_decode(bytes: &[u8]) -> (r: Result<Self, DeserializeError>) {
        Self::deserialize(bytes)
    }

    fn ssz_root(&self) -> (r: Node) {
        match self.hash_tree_root() {
            Ok(n) => n,
            Err(_) => Node([0u8; 32]),
        }
    }
}

impl SignedAggregateAndProof {
    /// The fields' places in the encoding: whether each is variable-size,
    /// and its encoding.
    #[verifier::opaque]
    pub open spec fn spec_parts(&self) -> Seq<FieldPart> {
        seq![
            (true, self.message.spec_encoding()),
            (false, self.signature.spec_encoding()),
        ]
    }

    /// Each field's fixed size, or zero for a variable-size field.
    pub open spec fn spec_layout() -> Seq<usize> {
        seq![0usize, 96usize]
    }

    /// The SSZ encoding: fixed-size fields and offsets, then variable-size
    /// fields.
    #[verifier::opaque]
    pub open spec fn spec_ssz(&self) -> Seq<u8> {
        spec_container_encoding(self.spec_parts(), 100)
    }

    /// The hash-tree-roots of the fields in order.
    #[verifier::opaque]
    pub open spec fn spec_field_roots(&self) -> Seq<Seq<u8>> {
        seq![
            self.message.spec_tree_root(),
            self.signature.spec_tree_root(),
        ]
    }

    /// The hash-tree-root: the merkle root of the field roots.
    pub open spec fn spec_root(&self) -> Seq<u8> {
        spec_merkleize(self.spec_field_roots())
    }

    /// Whether every field respects its bounds.
    #[verifier::opaque]
    pub open spec fn spec_fields_wf(&self) -> bool {
        &&& self.message.spec_wf()
        &&& self.signature.spec_wf()
    }

    /// Whether the container has a variable-size encoding.
    pub fn is_variable_size() -> (r: bool)
        ensures
            r == true,
    {
        true
    }

    /// The bytes taken by the fixed-size fields.
    pub fn size_hint() -> (r: usize)
        ensures
            r == 96,
    {
        96
    }

    /// Append the encoding.
    #[verifier::spinoff_prover]
    #[verifier::rlimit(100)]
    pub fn serialize(&self, buffer: &mut Vec<u8>) -> (r: Result<usize, SerializeError>)
        requires
            self.spec_fields_wf(),
            self.spec_ssz().len() <= u32::MAX,
        ensures
            r == Ok::<usize, SerializeError>(self.spec_ssz().len() as usize),
            final(buffer)@ == old(buffer)@ + self.spec_ssz(),
    {
        let ghost parts = self.spec_parts();
        proof {
            reveal(SignedAggregateAndProof::spec_ssz);
            reveal(SignedAggregateAndProof::spec_parts);
            reveal(SignedAggregateAndProof::spec_fields_wf);
            assert(parts.len() == 2);
            SszCodec::lemma_shape(&self.signature);
            assert(spec_layout_matches(Self::spec_layout(), parts));
            assert(spec_layout_head_len(Self::spec_layout()) == 100) by {
                reveal_with_fuel(spec_head_pos, 3);
            }
            assert(spec_head_pieces(parts, 100int).subrange(0, 0) =~= Seq::<Seq<u8>>::empty());
            assert(spec_tail_pieces(parts).subrange(0, 0) =~= Seq::<Seq<u8>>::empty());
        }
        let mut head: Vec<u8> = Vec::new();
        let mut tail: Vec<u8> = Vec::new();
        encode_variable_field(&self.message, &mut head, &mut tail, 100, Ghost(Self::spec_layout()), Ghost(parts), Ghost(0int));
        encode_fixed_field(&self.signature, &mut head, &tail, Ghost(Self::spec_layout()), Ghost(parts), Ghost(1int));
        proof {
            reveal(SignedAggregateAndProof::spec_ssz);
            reveal(SignedAggregateAndProof::spec_parts);
            reveal(SignedAggregateAndProof::spec_fields_wf);
            lemma_so_far_done(parts, 100int);
            assert(head@.len() + tail@.len() == self.spec_ssz().len());
        }
        let n = head.len() + tail.len();
        head.append(&mut tail);
        buffer.append(&mut head);
        Ok(n)
    }

    /// Decode from exactly the given bytes.
    #[verifier::spinoff_prover]
    #[verifier::rlimit(100)]
    pub fn deserialize(encoding: &[u8]) -> (r: Result<Self, DeserializeError>)
        ensures
            r matches Ok(v) ==> v.spec_fields_wf() && v.spec_ssz() == encoding@,
            encoding@.len() <= u32::MAX && (exists|v: Self| v.spec_fields_wf() && #[trigger] v.spec_ssz() == encoding@)
                ==> r is Ok,
    {
        let sizes: [usize; 2] = [0usize, 96usize];
        proof {
            assert(sizes@ =~= Self::spec_layout());
            lemma_signed_aggregate_and_proof_head_len();
        }
        let ghost has_witness = encoding@.len() <= u32::MAX
            && exists|v: Self| v.spec_fields_wf() && #[trigger] v.spec_ssz() == encoding@;
        let ghost w = choose|v: Self| v.spec_fields_wf() && #[trigger] v.spec_ssz() == encoding@;
        proof {
            if has_witness {
                lemma_signed_aggregate_and_proof_layout(w);
                reveal(SignedAggregateAndProof::spec_ssz);
            }
        }
        let ranges = match split_container(encoding, &sizes) {
            Ok(r) => r,
            Err(e) => {
                return Err(e);
            },
        };
        proof {
            if has_witness {
                reveal(SignedAggregateAndProof::spec_fields_wf);
                lemma_signed_aggregate_and_proof_fields_fit(encoding@, ranges@, w);
            }
        }
        let message = match decode_field::<AggregateAndProof>(encoding, &ranges, 0, Ghost(if has_witness { Some(w.message) } else { None })) {
            Ok(x) => x,
            Err(e) => {
                return Err(e);
            },
        };
        let signature = match decode_field::<BLSSignature>(encoding, &ranges, 1, Ghost(if has_witness { Some(w.signature) } else { None })) {
            Ok(x) => x,
            Err(e) => {
                return Err(e);
            },
        };
        let v = SignedAggregateAndProof { message, signature };
        proof {
            reveal(SignedAggregateAndProof::spec_ssz);
            reveal(SignedAggregateAndProof::spec_fields_wf);
            assert(v.spec_fields_wf());
            lemma_signed_aggregate_and_proof_layout(v);
            lemma_signed_aggregate_and_proof_fields_fit(encoding@, ranges@, v);
        }
        Ok(v)
    }

    /// The merkle root of the field roots.
    #[verifier::spinoff_prover]
    #[verifier::rlimit(100)]
    pub fn hash_tree_root(&self) -> (r: Result<Node, MerkleizationError>)
        requires
            self.spec_fields_wf(),
        ensures
            r matches Ok(n) && n.0@ == self.spec_root(),
    {
        proof {
            reveal(SignedAggregateAndProof::spec_fields_wf);
            reveal(SignedAggregateAndProof::spec_field_roots);
        }
        let r0 = self.message.ssz_root();
        let r1 = self.signature.ssz_root();
        let roots = [r0, r1];
        assert(roots_view(roots@) =~= self.spec_field_roots());
        Ok(merkleize_roots(roots.as_slice()))
    }

    /// A container is a composite type.
    pub fn is_composite_type() -> (r: bool)
        ensures
            r,
    {
        true
    }
}

/// The head of a `SignedAggregateAndProof` encoding is 100 bytes.
proof fn lemma_signed_aggregate_and_proof_head_len()
    ensures
        spec_layout_head_len(SignedAggregateAndProof::spec_layout()) == 100,
{
    reveal_with_fuel(spec_head_pos, 3);
}

/// The parts of a `SignedAggregateAndProof` fit its field layout.
#[verifier::spinoff_prover]
#[verifier::rlimit(100)]
proof fn lemma_signed_aggregate_and_proof_layout(x: SignedAggregateAndProof)
    requires
        x.spec_fields_wf(),
    ensures
        spec_layout_matches(SignedAggregateAndProof::spec_layout(), x.spec_parts()),
{
    reveal(SignedAggregateAndProof::spec_parts);
    reveal(SignedAggregateAndProof::spec_fields_wf);
    SszCodec::lemma_shape(&x.signature);
    let parts = x.spec_parts();
    let layout = SignedAggregateAndProof::spec_layout();
    assert forall|i: int| 0 <= i < parts.len() implies (#[trigger] parts[i].0 <==> layout[i] == 0)
        && (layout[i] > 0 ==> parts[i].1.len() == layout[i]) by {
        if i == 0 { } else if i == 1 { }
    }
}

/// The parts of a `SignedAggregateAndProof` fit byte ranges exactly when each field's
/// encoding is the bytes of its range.
#[verifier::spinoff_prover]
#[verifier::rlimit(100)]
proof fn lemma_signed_aggregate_and_proof_fields_fit(encoding: Seq<u8>, ranges: Seq<(usize, usize)>, v: SignedAggregateAndProof)
    requires
        ranges.len() == 2,
    ensures
        spec_ranges_fit(encoding, SignedAggregateAndProof::spec_layout(), ranges, v.spec_parts()) ==> (v.message.spec_encoding() == encoding.subrange(ranges[0].0 as int, ranges[0].1 as int)
            && v.signature.spec_encoding() == encoding.subrange(ranges[1].0 as int, ranges[1].1 as int)),
        spec_layout_matches(SignedAggregateAndProof::spec_layout(), v.spec_parts()) && (v.message.spec_encoding() == encoding.subrange(ranges[0].0 as int, ranges[0].1 as int)
            && v.signature.spec_encoding() == encoding.subrange(ranges[1].0 as int, ranges[1].1 as int))
            ==> spec_ranges_fit(encoding, SignedAggregateAndProof::spec_layout(), ranges, v.spec_parts()),
{
    reveal(SignedAggregateAndProof::spec_parts);
    let parts = v.spec_parts();
    if spec_ranges_fit(encoding, SignedAggregateAndProof::spec_layout(), ranges, parts) {
        assert(parts[0].1 == encoding.subrange(ranges[0].0 as int, ranges[0].1 as int));
        assert(parts[1].1 == encoding.subrange(ranges[1].0 as int, ranges[1].1 as int));
    }
    if spec_layout_matches(SignedAggregateAndProof::spec_layout(), parts) && (v.message.spec_encoding() == encoding.subrange(ranges[0].0 as int, ranges[0].1 as int)
            && v.signature.spec_encoding() == encoding.subrange(ranges[1].0 as int, ranges[1].1 as int)) {
        assert forall|i: int| 0 <= i < parts.len() implies #[trigger] parts[i].1 == encoding.subrange(ranges[i].0 as int, ranges[i].1 as int) by {
            if i == 0 { assert(parts[0].1 == v.message.spec_encoding()); } else if i == 1 { assert(parts[1].1 == v.signature.spec_encoding()); }
        }
    }
}

impl SszCodec for SignedAggregateAndProof {
    open spec fn spec_fixed_size() -> Option<nat> {
        None
    }

    open spec fn spec_packed() -> bool {
        false
    }

    open spec fn spec_wf(&self) -> bool {
        self.spec_fields_wf()
    }

    open spec fn spec_encoding(&self) -> Seq<u8> {
        self.spec_ssz()
    }

    open spec fn spec_tree_root(&self) -> Seq<u8> {
        self.spec_root()
    }

    proof fn lemma_layout() {
    }

    proof fn lemma_shape(x: &Self) {

    }

    fn ssz_fixed_size() -> (r: Option<usize>) {
        None
    }

    fn ssz_packed() -> (r: bool) {
        false
    }

    fn ssz_encode(&self, buffer: &mut Vec<u8>) {
        let _ = self.serialize(buffer);
    }

    fn ssz_decode(bytes: &[u8]) -> (r: Result<Self, DeserializeError>) {
        Self::deserialize(bytes)
    }

    fn ssz_root(&self) -> (r: Node) {
        match self.hash_tree_root() {
            Ok(n) => n,
            Err(_) => Node([0u8; 32]),
        }
    }
}

impl AttesterSlashing {
    /// The fields' places in the encoding: whether each is variable-size,
    /// and its encoding.
    #[verifier::opaque]
    pub open spec fn spec_parts(&self) -> Seq<FieldPart> {
        seq![
            (true, self.attestation_1.spec_encoding()),
            (true, self.attestation_2.spec_encoding()),
        ]
    }

    /// Each field's fixed size, or zero for a variable-size field.
    pub open spec fn spec_layout() -> Seq<usize> {
        seq![0usize, 0usize]
    }

    /// The SSZ encoding: fixed-size fields and offsets, then variable-size
    /// fields.
    #[verifier::opaque]
    pub open spec fn spec_ssz(&self) -> Seq<u8> {
        spec_container_encoding(self.spec_parts(), 8)
    }

    /// The hash-tree-roots of the fields in order.
    #[verifier::opaque]
    pub open spec fn spec_field_roots(&self) -> Seq<Seq<u8>> {
        seq![
            self.attestation_1.spec_tree_root(),
            self.attestation_2.spec_tree_root(),
        ]
    }

    /// The hash-tree-root: the merkle root of the field roots.
    pub open spec fn spec_root(&self) -> Seq<u8> {
        spec_merkleize(self.spec_field_roots())
    }

    /// Whether every field respects its bounds.
    #[verifier::opaque]
    pub open spec fn spec_fields_wf(&self) -> bool {
        &&& self.attestation_1.spec_wf()
        &&& self.attestation_2.spec_wf()
    }

    /// Whether the container has a variable-size encoding.
    pub fn is_variable_size() -> (r: bool)
        ensures
            r == true,
    {
        true
    }

    /// The bytes taken by the fixed-size fields.
    pub fn size_hint() -> (r: usize)
        ensures
            r == 0,
    {
        0
    }

    /// Append the encoding.
    #[verifier::spinoff_prover]
    #[verifier::rlimit(100)]
    pub fn serialize(&self, buffer: &mut Vec<u8>) -> (r: Result<usize, SerializeError>)
        requires
            self.spec_fields_wf(),
            self.spec_ssz().len() <= u32::MAX,
        ensures
            r == Ok::<usize, SerializeError>(self.spec_ssz().len() as usize),
            final(buffer)@ == old(buffer)@ + self.spec_ssz(),
    {
        let ghost parts = self.spec_parts();
        proof {
            reveal(AttesterSlashing::spec_ssz);
            reveal(AttesterSlashing::spec_parts);
            reveal(AttesterSlashing::spec_fields_wf);
            assert(parts.len() == 2);

            assert(spec_layout_matches(Self::spec_layout(), parts));
            assert(spec_layout_head_len(Self::spec_layout()) == 8) by {
                reveal_with_fuel(spec_head_pos, 3);
            }
            assert(spec_head_pieces(parts, 8int).subrange(0, 0) =~= Seq::<Seq<u8>>::empty());
            assert(spec_tail_pieces(parts).subrange(0, 0) =~= Seq::<Seq<u8>>::empty());
        }
        let mut head: Vec<u8> = Vec::new();
        let mut tail: Vec<u8> = Vec::new();
        encode_variable_field(&self.attestation_1, &mut head, &mut tail, 8, Ghost(Self::spec_layout()), Ghost(parts), Ghost(0int));
        encode_variable_field(&self.attestation_2, &mut head, &mut tail, 8, Ghost(Self::spec_layout()), Ghost(parts), Ghost(1int));
        proof {
            reveal(AttesterSlashing::spec_ssz);
            reveal(AttesterSlashing::spec_parts);
            reveal(AttesterSlashing::spec_fields_wf);
            lemma_so_far_done(parts, 8int);
            assert(head@.len() + tail@.len() == self.spec_ssz().len());
        }
        let n = head.len() + tail.len();
        head.append(&mut tail);
        buffer.append(&mut head);
        Ok(n)
    }

    /// Decode from exactly the given bytes.
    #[verifier::spinoff_prover]
    #[verifier::rlimit(100)]
    pub fn deserialize(encoding: &[u8]) -> (r: Result<Self, DeserializeError>)
        ensures
            r matches Ok(v) ==> v.spec_fields_wf() && v.spec_ssz() == encoding@,
            encoding@.len() <= u32::MAX && (exists|v: Self| v.spec_fields_wf() && #[trigger] v.spec_ssz() == encoding@)
                ==> r is Ok,
    {
        let sizes: [usize; 2] = [0usize, 0usize];
        proof {
            assert(sizes@ =~= Self::spec_layout());
            lemma_attester_slashing_head_len();
        }
        let ghost has_witness = encoding@.len() <= u32::MAX
            && exists|v: Self| v.spec_fields_wf() && #[trigger] v.spec_ssz() == encoding@;
        let ghost w = choose|v: Self| v.spec_fields_wf() && #[trigger] v.spec_ssz() == encoding@;
        proof {
            if has_witness {
                lemma_attester_slashing_layout(w);
                reveal(AttesterSlashing::spec_ssz);
            }
        }
        let ranges = match split_container(encoding, &sizes) {
            Ok(r) => r,
            Err(e) => {
                return Err(e);
            },
        };
        proof {
            if has_witness {
                reveal(AttesterSlashing::spec_fields_wf);
                lemma_attester_slashing_fields_fit(encoding@, ranges@, w);
            }
        }
        let attestation_1 = match decode_field::<IndexedAttestation>(encoding, &ranges, 0, Ghost(if has_witness { Some(w.attestation_1) } else { None })) {
            Ok(x) => x,
            Err(e) => {
                return Err(e);
            },
        };
        let attestation_2 = match decode_field::<IndexedAttestation>(encoding, &ranges, 1, Ghost(if has_witness { Some(w.attestation_2) } else { None })) {
            Ok(x) => x,
            Err(e) => {
                return Err(e);
            },
        };
        let v = AttesterSlashing { attestation_1, attestation_2 };
        proof {
            reveal(AttesterSlashing::spec_ssz);
            reveal(AttesterSlashing::spec_fields_wf);
            assert(v.spec_fields_wf());
            lemma_attester_slashing_layout(v);
            lemma_attester_slashing_fields_fit(encoding@, ranges@, v);
        }
        Ok(v)
    }

    /// The merkle root of the field roots.
    #[verifier::spinoff_prover]
    #[verifier::rlimit(100)]
    pub fn hash_tree_root(&self) -> (r: Result<Node, MerkleizationError>)
        requires
            self.spec_fields_wf(),
        ensures
            r matches Ok(n) && n.0@ == self.spec_root(),
    {
        proof {
            reveal(AttesterSlashing::spec_fields_wf);
            reveal(AttesterSlashing::spec_field_roots);
        }
        let r0 = self.attestation_1.ssz_root();
        let r1 = self.attestation_2.ssz_root();
        let roots = [r0, r1];
        assert(roots_view(roots@) =~= self.spec_field_roots());
        Ok(merkleize_roots(roots.as_slice()))
    }

    /// A container is a composite type.
    pub fn is_composite_type() -> (r: bool)
        ensures
            r,
    {
        true
    }
}

/// The head of a `AttesterSlashing` encoding is 8 bytes.
proof fn lemma_attester_slashing_head_len()
    ensures
        spec_layout_head_len(AttesterSlashing::spec_layout()) == 8,
{
    reveal_with_fuel(spec_head_pos, 3);
}

/// The parts of a `AttesterSlashing` fit its field layout.
#[verifier::spinoff_prover]
#[verifier::rlimit(100)]
proof fn lemma_attester_slashing_layout(x: AttesterSlashing)
    requires
        x.spec_fields_wf(),
    ensures
        spec_layout_matches(AttesterSlashing::spec_layout(), x.spec_parts()),
{
    reveal(AttesterSlashing::spec_parts);
    reveal(AttesterSlashing::spec_fields_wf);

    let parts = x.spec_parts();
    let layout = AttesterSlashing::spec_layout();
    assert forall|i: int| 0 <= i < parts.len() implies (#[trigger] parts[i].0 <==> layout[i] == 0)
        && (layout[i] > 0 ==> parts[i].1.len() == layout[i]) by {
        if i == 0 { } else if i == 1 { }
    }
}

/// The parts of a `AttesterSlashing` fit byte ranges exactly when each field's
/// encoding is the bytes of its range.
#[verifier::spinoff_prover]
#[verifier::rlimit(100)]
proof fn lemma_attester_slashing_fields_fit(encoding: Seq<u8>, ranges: Seq<(usize, usize)>, v: AttesterSlashing)
    requires
        ranges.len() == 2,
    ensures
        spec_ranges_fit(encoding, AttesterSlashing::spec_layout(), ranges, v.spec_parts()) ==> (v.attestation_1.spec_encoding() == encoding.subrange(ranges[0].0 as int, ranges[0].1 as int)
            && v.attestation_2.spec_encoding() == encoding.subrange(ranges[1].0 as int, ranges[1].1 as int)),
        spec_layout_matches(AttesterSlashing::spec_layout(), v.spec_parts()) && (v.attestation_1.spec_encoding() == encoding.subrange(ranges[0].0 as int, ranges[0].1 as int)
            && v.attestation_2.spec_encoding() == encoding.subrange(ranges[1].0 as int, ranges[1].1 as int))
            ==> spec_ranges_fit(encoding, AttesterSlashing::spec_layout(), ranges, v.spec_parts()),
{
    reveal(AttesterSlashing::spec_parts);
    let parts = v.spec_parts();
    if spec_ranges_fit(encoding, AttesterSlashing::spec_layout(), ranges, parts) {
        assert(parts[0].1 == encoding.subrange(ranges[0].0 as int, ranges[0].1 as int));
        assert(parts[1].1 == encoding.subrange(ranges[1].0 as int, ranges[1].1 as int));
    }
    if spec_layout_matches(AttesterSlashing::spec_layout(), parts) && (v.attestation_1.spec_encoding() == encoding.subrange(ranges[0].0 as int, ranges[0].1 as int)
            && v.attestation_2.spec_encoding() == encoding.subrange(ranges[1].0 as int, ranges[1].1 as int)) {
        assert forall|i: int| 0 <= i < parts.len() implies #[trigger] parts[i].1 == encoding.subrange(ranges[i].0 as int, ranges[i].1 as int) by {
            if i == 0 { assert(parts[0].1 == v.attestation_1.spec_encoding()); } else if i == 1 { assert(parts[1].1 == v.attestation_2.spec_encoding()); }
        }
    }
}

impl SszCodec for AttesterSlashing {
    open spec fn spec_fixed_size() -> Option<nat> {
        None
    }

    open spec fn spec_packed() -> bool {
        false
    }

    open spec fn spec_wf(&self) -> bool {
        self.spec_fields_wf()
    }

    open spec fn spec_encoding(&self) -> Seq<u8> {
        self.spec_ssz()
    }

    open spec fn spec_tree_root(&self) -> Seq<u8> {
        self.spec_root()
    }

    proof fn lemma_layout() {
    }

    proof fn lemma_shape(x: &Self) {

    }

    fn ssz_fixed_size() -> (r: Option<usize>) {
        None
    }

    fn ssz_packed() -> (r: bool) {
        false
    }

    fn ssz_encode(&self, buffer: &mut Vec<u8>) {
        let _ = self.serialize(buffer);
    }

    fn ssz_decode(bytes: &[u8]) -> (r: Result<Self, DeserializeError>) {
        Self::deserialize(bytes)
    }

    fn ssz_root(&self) -> (r: Node) {
        match self.hash_tree_root() {
            Ok(n) => n,
            Err(_) => Node([0u8; 32]),
        }
    }
}

} // verus!
