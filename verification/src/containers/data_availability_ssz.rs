//! SSZ for the data availability containers with list, bitlist or nested fields.
//!
//! Each container encodes as a head of fixed-size fields and offsets
//! followed by its variable-size fields, decodes by cutting the input along
//! its field layout, and roots to the merkle root of its fields' roots.
use vstd::prelude::*;
use vstd::slice::slice_subrange;

use crate::ssz::codec::SszCodec;
use crate::ssz::container::{
    encode_fixed_field, encode_variable_field, lemma_container_all_fixed,
    lemma_container_part_bounds, lemma_so_far_done, spec_container_encoding, spec_head_pieces,
    spec_head_pos, spec_layout_head_len, spec_layout_matches, spec_ranges_fit, spec_tail_pieces,
    split_container, decode_field, FieldPart,
};
use crate::ssz::merkle::{merkleize_roots, roots_view, spec_merkleize};
use crate::ssz::{Bitlist, Bitvector, DeserializeError, List, MerkleizationError, Node, SerializeError, Vector};

use crate::constants::{MAX_BLOB_COMMITMENTS_PER_BLOCK};
use crate::containers::data_availability::{DataColumnSidecar, DataColumnsByRootIdentifier, PartialDataColumnSidecar};
use crate::primitives::{Cell, ColumnIndex, KZGProof, Root, Slot};

verus! {

impl DataColumnSidecar {
    /// The fields' places in the encoding: whether each is variable-size,
    /// and its encoding.
    #[verifier::opaque]
    pub open spec fn spec_parts(&self) -> Seq<FieldPart> {
        seq![
            (false, self.index.spec_encoding()),
            (true, self.column.spec_encoding()),
            (true, self.kzg_proofs.spec_encoding()),
            (false, self.slot.spec_encoding()),
            (false, self.beacon_block_root.spec_encoding()),
        ]
    }

    /// Each field's fixed size, or zero for a variable-size field.
    pub open spec fn spec_layout() -> Seq<usize> {
        seq![8usize, 0usize, 0usize, 8usize, 32usize]
    }

    /// The SSZ encoding: fixed-size fields and offsets, then variable-size
    /// fields.
    #[verifier::opaque]
    pub open spec fn spec_ssz(&self) -> Seq<u8> {
        spec_container_encoding(self.spec_parts(), 56)
    }

    /// The hash-tree-roots of the fields in order.
    #[verifier::opaque]
    pub open spec fn spec_field_roots(&self) -> Seq<Seq<u8>> {
        seq![
            self.index.spec_tree_root(),
            self.column.spec_tree_root(),
            self.kzg_proofs.spec_tree_root(),
            self.slot.spec_tree_root(),
            self.beacon_block_root.spec_tree_root(),
        ]
    }

    /// The hash-tree-root: the merkle root of the field roots.
    pub open spec fn spec_root(&self) -> Seq<u8> {
        spec_merkleize(self.spec_field_roots())
    }

    /// Whether every field respects its bounds.
    #[verifier::opaque]
    pub open spec fn spec_fields_wf(&self) -> bool {
        &&& self.index.spec_wf()
        &&& self.column.spec_wf()
        &&& self.kzg_proofs.spec_wf()
        &&& self.slot.spec_wf()
        &&& self.beacon_block_root.spec_wf()
    }

    /// Whether the container has a variable-size encoding.
    pub fn is_variable_size() -> (r: bool)
        ensures
            r == true,
    {
        true
    }

    /// The bytes taken by the fixed-size fields.
    pub fn size_hint() -> (r: usize)
        ensures
            r == 48,
    {
        48
    }

    /// Append the encoding.
    #[verifier::spinoff_prover]
    #[verifier::rlimit(100)]
    pub fn serialize(&self, buffer: &mut Vec<u8>) -> (r: Result<usize, SerializeError>)
        requires
            self.spec_fields_wf(),
            self.spec_ssz().len() <= u32::MAX,
        ensures
            r == Ok::<usize, SerializeError>(self.spec_ssz().len() as usize),
            final(buffer)@ == old(buffer)@ + self.spec_ssz(),
    {
        let ghost parts = self.spec_parts();
        proof {
            reveal(DataColumnSidecar::spec_ssz);
            reveal(DataColumnSidecar::spec_parts);
            reveal(DataColumnSidecar::spec_fields_wf);
            assert(parts.len() == 5);
            SszCodec::lemma_shape(&self.index);
            SszCodec::lemma_shape(&self.slot);
            SszCodec::lemma_shape(&self.beacon_block_root);
            assert(spec_layout_matches(Self::spec_layout(), parts));
            assert(spec_layout_head_len(Self::spec_layout()) == 56) by {
                reveal_with_fuel(spec_head_pos, 6);
            }
            assert(spec_head_pieces(parts, 56int).subrange(0, 0) =~= Seq::<Seq<u8>>::empty());
            assert(spec_tail_pieces(parts).subrange(0, 0) =~= Seq::<Seq<u8>>::empty());
        }
        let mut head: Vec<u8> = Vec::new();
        let mut tail: Vec<u8> = Vec::new();
        encode_fixed_field(&self.index, &mut head, &tail, Ghost(Self::spec_layout()), Ghost(parts), Ghost(0int));
        encode_variable_field(&self.column, &mut head, &mut tail, 56, Ghost(Self::spec_layout()), Ghost(parts), Ghost(1int));
        encode_variable_field(&self.kzg_proofs, &mut head, &mut tail, 56, Ghost(Self::spec_layout()), Ghost(parts), Ghost(2int));
        encode_fixed_field(&self.slot, &mut head, &tail, Ghost(Self::spec_layout()), Ghost(parts), Ghost(3int));
        encode_fixed_field(&self.beacon_block_root, &mut head, &tail, Ghost(Self::spec_layout()), Ghost(parts), Ghost(4int));
        proof {
            reveal(DataColumnSidecar::spec_ssz);
            reveal(DataColumnSidecar::spec_parts);
            reveal(DataColumnSidecar::spec_fields_wf);
            lemma_so_far_done(parts, 56int);
            assert(head@.len() + tail@.len() == self.spec_ssz().len());
        }
        let n = head.len() + tail.len();
        head.append(&mut tail);
        buffer.append(&mut head);
        Ok(n)
    }

    /// Decode from exactly the given bytes.
    #[verifier::spinoff_prover]
    #[verifier::rlimit(100)]
    pub fn deserialize(encoding: &[u8]) -> (r: Result<Self, DeserializeError>)
        ensures
            r matches Ok(v) ==> v.spec_fields_wf() && v.spec_ssz() == encoding@,
            encoding@.len() <= u32::MAX && (exists|v: Self| v.spec_fields_wf() && #[trigger] v.spec_ssz() == encoding@)
                ==> r is Ok,
    {
        let sizes: [usize; 5] = [8usize, 0usize, 0usize, 8usize, 32usize];
        proof {
            assert(sizes@ =~= Self::spec_layout());
            lemma_data_column_sidecar_head_len();
        }
        let ghost has_witness = encoding@.len() <= u32::MAX
            && exists|v: Self| v.spec_fields_wf() && #[trigger] v.spec_ssz() == encoding@;
        let ghost w = choose|v: Self| v.spec_fields_wf() && #[trigger] v.spec_ssz() == encoding@;
        proof {
            if has_witness {
                lemma_data_column_sidecar_layout(w);
                reveal(DataColumnSidecar::spec_ssz);
            }
        }
        let ranges = match split_container(encoding, &sizes) {
            Ok(r) => r,
            Err(e) => {
                return Err(e);
            },
        };
        proof {
            if has_witness {
                reveal(DataColumnSidecar::spec_fields_wf);
                lemma_data_column_sidecar_fields_fit(encoding@, ranges@, w);
            }
        }
        let index = match decode_field::<ColumnIndex>(encoding, &ranges, 0, Ghost(if has_witness { Some(w.index) } else { None })) {
            Ok(x) => x,
            Err(e) => {
                return Err(e);
            },
        };
        let column = match decode_field::<List<Cell, MAX_BLOB_COMMITMENTS_PER_BLOCK>>(encoding, &ranges, 1, Ghost(if has_witness { Some(w.column) } else { None })) {
            Ok(x) => x,
            Err(e) => {
                return Err(e);
            },
        };
        let kzg_proofs = match decode_field::<List<KZGProof, MAX_BLOB_COMMITMENTS_PER_BLOCK>>(encoding, &ranges, 2, Ghost(if has_witness { Some(w.kzg_proofs) } else { None })) {
            Ok(x) => x,
            Err(e) => {
                return Err(e);
            },
        };
        let slot = match decode_field::<Slot>(encoding, &ranges, 3, Ghost(if has_witness { Some(w.slot) } else { None })) {
            Ok(x) => x,
            Err(e) => {
                return Err(e);
            },
        };
        let beacon_block_root = match decode_field::<Root>(encoding, &ranges, 4, Ghost(if has_witness { Some(w.beacon_block_root) } else { None })) {
            Ok(x) => x,
            Err(e) => {
                return Err(e);
            },
        };
        let v = DataColumnSidecar { index, column, kzg_proofs, slot, beacon_block_root };
        proof {
            reveal(DataColumnSidecar::spec_ssz);
            reveal(DataColumnSidecar::spec_fields_wf);
            assert(v.spec_fields_wf());
            lemma_data_column_sidecar_layout(v);
            lemma_data_column_sidecar_fields_fit(encoding@, ranges@, v);
        }
        Ok(v)
    }

    /// The merkle root of the field roots.
    #[verifier::spinoff_prover]
    #[verifier::rlimit(100)]
    pub fn hash_tree_root(&self) -> (r: Result<Node, MerkleizationError>)
        requires
            self.spec_fields_wf(),
        ensures
            r matches Ok(n) && n.0@ == self.spec_root(),
    {
        proof {
            reveal(DataColumnSidecar::spec_fields_wf);
            reveal(DataColumnSidecar::spec_field_roots);
        }
        let r0 = self.index.ssz_root();
        let r1 = self.column.ssz_root();
        let r2 = self.kzg_proofs.ssz_root();
        let r3 = self.slot.ssz_root();
        let r4 = self.beacon_block_root.ssz_root();
        let roots = [r0, r1, r2, r3, r4];
        assert(roots_view(roots@) =~= self.spec_field_roots());
        Ok(merkleize_roots(roots.as_slice()))
    }

    /// A container is a composite type.
    pub fn is_composite_type() -> (r: bool)
        ensures
            r,
    {
        true
    }
}

/// The head of a `DataColumnSidecar` encoding is 56 bytes.
proof fn lemma_data_column_sidecar_head_len()
    ensures
        spec_layout_head_len(DataColumnSidecar::spec_layout()) == 56,
{
    reveal_with_fuel(spec_head_pos, 6);
}

/// The parts of a `DataColumnSidecar` fit its field layout.
#[verifier::spinoff_prover]
#[verifier::rlimit(100)]
proof fn lemma_data_column_sidecar_layout(x: DataColumnSidecar)
    requires
        x.spec_fields_wf(),
    ensures
        spec_layout_matches(DataColumnSidecar::spec_layout(), x.spec_parts()),
{
    reveal(DataColumnSidecar::spec_parts);
    reveal(DataColumnSidecar::spec_fields_wf);
    SszCodec::lemma_shape(&x.index);
    SszCodec::lemma_shape(&x.slot);
    SszCodec::lemma_shape(&x.beacon_block_root);
    let parts = x.spec_parts();
    let layout = DataColumnSidecar::spec_layout();
    assert forall|i: int| 0 <= i < parts.len() implies (#[trigger] parts[i].0 <==> layout[i] == 0)
        && (layout[i] > 0 ==> parts[i].1.len() == layout[i]) by {
        if i == 0 { } else if i == 1 { } else if i == 2 { } else if i == 3 { } else if i == 4 { }
    }
}

/// The parts of a `DataColumnSidecar` fit byte ranges exactly when each field's
/// encoding is the bytes of its range.
#[verifier::spinoff_prover]
#[verifier::rlimit(100)]
proof fn lemma_data_column_sidecar_fields_fit(encoding: Seq<u8>, ranges: Seq<(usize, usize)>, v: DataColumnSidecar)
    requires
        ranges.len() == 5,
    ensures
        spec_ranges_fit(encoding, DataColumnSidecar::spec_layout(), ranges, v.spec_parts()) ==> (v.index.spec_encoding() == encoding.subrange(ranges[0].0 as int, ranges[0].1 as int)
            && v.column.spec_encoding() == encoding.subrange(ranges[1].0 as int, ranges[1].1 as int)
            && v.kzg_proofs.spec_encoding() == encoding.subrange(ranges[2].0 as int, ranges[2].1 as int)
            && v.slot.spec_encoding() == encoding.subrange(ranges[3].0 as int, ranges[3].1 as int)
            && v.beacon_block_root.spec_encoding() == encoding.subrange(ranges[4].0 as int, ranges[4].1 as int)),
        spec_layout_matches(DataColumnSidecar::spec_layout(), v.spec_parts()) && (v.index.spec_encoding() == encoding.subrange(ranges[0].0 as int, ranges[0].1 as int)
            && v.column.spec_encoding() == encoding.subrange(ranges[1].0 as int, ranges[1].1 as int)
            && v.kzg_proofs.spec_encoding() == encoding.subrange(ranges[2].0 as int, ranges[2].1 as int)
            && v.slot.spec_encoding() == encoding.subrange(ranges[3].0 as int, ranges[3].1 as int)
            && v.beacon_block_root.spec_encoding() == encoding.subrange(ranges[4].0 as int, ranges[4].1 as int))
            ==> spec_ranges_fit(encoding, DataColumnSidecar::spec_layout(), ranges, v.spec_parts()),
{
    reveal(DataColumnSidecar::spec_parts);
    let parts = v.spec_parts();
    if spec_ranges_fit(encoding, DataColumnSidecar::spec_layout(), ranges, parts) {
        assert(parts[0].1 == encoding.subrange(ranges[0].0 as int, ranges[0].1 as int));
        assert(parts[1].1 == encoding.subrange(ranges[1].0 as int, ranges[1].1 as int));
        assert(parts[2].1 == encoding.subrange(ranges[2].0 as int, ranges[2].1 as int));
        assert(parts[3].1 == encoding.subrange(ranges[3].0 as int, ranges[3].1 as int));
        assert(parts[4].1 == encoding.subrange(ranges[4].0 as int, ranges[4].1 as int));
    }
    if spec_layout_matches(DataColumnSidecar::spec_layout(), parts) && (v.index.spec_encoding() == encoding.subrange(ranges[0].0 as int, ranges[0].1 as int)
            && v.column.spec_encoding() == encoding.subrange(ranges[1].0 as int, ranges[1].1 as int)
            && v.kzg_proofs.spec_encoding() == encoding.subrange(ranges[2].0 as int, ranges[2].1 as int)
            && v.slot.spec_encoding() == encoding.subrange(ranges[3].0 as int, ranges[3].1 as int)
            && v.beacon_block_root.spec_encoding() == encoding.subrange(ranges[4].0 as int, ranges[4].1 as int)) {
        assert forall|i: int| 0 <= i < parts.len() implies #[trigger] parts[i].1 == encoding.subrange(ranges[i].0 as int, ranges[i].1 as int) by {
            if i == 0 { assert(parts[0].1 == v.index.spec_encoding()); } else if i == 1 { assert(parts[1].1 == v.column.spec_encoding()); } else if i == 2 { assert(parts[2].1 == v.kzg_proofs.spec_encoding()); } else if i == 3 { assert(parts[3].1 == v.slot.spec_encoding()); } else if i == 4 { assert(parts[4].1 == v.beacon_block_root.spec_encoding()); }
        }
    }
}

impl SszCodec for DataColumnSidecar {
    open spec fn spec_fixed_size() -> Option<nat> {
        None
    }

    open spec fn spec_packed() -> bool {
        false
    }

    open spec fn spec_wf(&self) -> bool {
        self.spec_fields_wf()
    }

    open spec fn spec_encoding(&self) -> Seq<u8> {
        self.spec_ssz()
    }

    open spec fn spec_tree_root(&self) -> Seq<u8> {
        self.spec_root()
    }

    proof fn lemma_layout() {
    }

    proof fn lemma_shape(x: &Self) {

    }

    fn ssz_fixed_size() -> (r: Option<usize>) {
        None
    }

    fn ssz_packed() -> (r: bool) {
        false
    }

    fn ssz_encode(&self, buffer: &mut Vec<u8>) {
        let _ = self.serialize(buffer);
    }

    fn ssz_decode(bytes: &[u8]) -> (r: Result<Self, DeserializeError>) {
        Self::deserialize(bytes)
    }

    fn ssz_root(&self) -> (r: Node) {
        match self.hash_tree_root() {
            Ok(n) => n,
            Err(_) => Node([0u8; 32]),
        }
    }
}

impl DataColumnsByRootIdentifier {
    /// The fields' places in the encoding: whether each is variable-size,
    /// and its encoding.
    #[verifier::opaque]
    pub open spec fn spec_parts(&self) -> Seq<FieldPart> {
        seq![
            (false, self.block_root.spec_encoding()),
            (true, self.columns.spec_encoding()),
        ]
    }

    /// Each field's fixed size, or zero for a variable-size field.
    pub open spec fn spec_layout() -> Seq<usize> {
        seq![32usize, 0usize]
    }

    /// The SSZ encoding: fixed-size fields and offsets, then variable-size
    /// fields.
    #[verifier::opaque]
    pub open spec fn spec_ssz(&self) -> Seq<u8> {
        spec_container_encoding(self.spec_parts(), 36)
    }

    /// The hash-tree-roots of the fields in order.
    #[verifier::opaque]
    pub open spec fn spec_field_roots(&self) -> Seq<Seq<u8>> {
        seq![
            self.block_root.spec_tree_root(),
            self.columns.spec_tree_root(),
        ]
    }

    /// The hash-tree-root: the merkle root of the field roots.
    pub open spec fn spec_root(&self) -> Seq<u8> {
        spec_merkleize(self.spec_field_roots())
    }

    /// Whether every field respects its bounds.
    #[verifier::opaque]
    pub open spec fn spec_fields_wf(&self) -> bool {
        &&& self.block_root.spec_wf()
        &&& self.columns.spec_wf()
    }

    /// Whether the container has a variable-size encoding.
    pub fn is_variable_size() -> (r: bool)
        ensures
            r == true,
    {
        true
    }

    /// The bytes taken by the fixed-size fields.
    pub fn size_hint() -> (r: usize)
        ensures
            r == 32,
    {
        32
    }

    /// Append the encoding.
    #[verifier::spinoff_prover]
    #[verifier::rlimit(100)]
    pub fn serialize(&self, buffer: &mut Vec<u8>) -> (r: Result<usize, SerializeError>)
        requires
            self.spec_fields_wf(),
            self.spec_ssz().len() <= u32::MAX,
        ensures
            r == Ok::<usize, SerializeError>(self.spec_ssz().len() as usize),
            final(buffer)@ == old(buffer)@ + self.spec_ssz(),
    {
        let ghost parts = self.spec_parts();
        proof {
            reveal(DataColumnsByRootIdentifier::spec_ssz);
            reveal(DataColumnsByRootIdentifier::spec_parts);
            reveal(DataColumnsByRootIdentifier::spec_fields_wf);
            assert(parts.len() == 2);
            SszCodec::lemma_shape(&self.block_root);
            assert(spec_layout_matches(Self::spec_layout(), parts));
            assert(spec_layout_head_len(Self::spec_layout()) == 36) by {
                reveal_with_fuel(spec_head_pos, 3);
            }
            assert(spec_head_pieces(parts, 36int).subrange(0, 0) =~= Seq::<Seq<u8>>::empty());
            assert(spec_tail_pieces(parts).subrange(0, 0) =~= Seq::<Seq<u8>>::empty());
        }
        let mut head: Vec<u8> = Vec::new();
        let mut tail: Vec<u8> = Vec::new();
        encode_fixed_field(&self.block_root, &mut head, &tail, Ghost(Self::spec_layout()), Ghost(parts), Ghost(0int));
        encode_variable_field(&self.columns, &mut head, &mut tail, 36, Ghost(Self::spec_layout()), Ghost(parts), Ghost(1int));
        proof {
            reveal(DataColumnsByRootIdentifier::spec_ssz);
            reveal(DataColumnsByRootIdentifier::spec_parts);
            reveal(DataColumnsByRootIdentifier::spec_fields_wf);
            lemma_so_far_done(parts, 36int);
            assert(head@.len() + tail@.len() == self.spec_ssz().len());
        }
        let n = head.len() + tail.len();
        head.append(&mut tail);
        buffer.append(&mut head);
        Ok(n)
    }

    /// Decode from exactly the given bytes.
    #[verifier::spinoff_prover]
    #[verifier::rlimit(100)]
    pub fn deserialize(encoding: &[u8]) -> (r: Result<Self, DeserializeError>)
        ensures
            r matches Ok(v) ==> v.spec_fields_wf() && v.spec_ssz() == encoding@,
            encoding@.len() <= u32::MAX && (exists|v: Self| v.spec_fields_wf() && #[trigger] v.spec_ssz() == encoding@)
                ==> r is Ok,
    {
        let sizes: [usize; 2] = [32usize, 0usize];
        proof {
            assert(sizes@ =~= Self::spec_layout());
            lemma_data_columns_by_root_identifier_head_len();
        }
        let ghost has_witness = encoding@.len() <= u32::MAX
            && exists|v: Self| v.spec_fields_wf() && #[trigger] v.spec_ssz() == encoding@;
        let ghost w = choose|v: Self| v.spec_fields_wf() && #[trigger] v.spec_ssz() == encoding@;
        proof {
            if has_witness {
                lemma_data_columns_by_root_identifier_layout(w);
                reveal(DataColumnsByRootIdentifier::spec_ssz);
            }
        }
        let ranges = match split_container(encoding, &sizes) {
            Ok(r) => r,
            Err(e) => {
                return Err(e);
            },
        };
        proof {
            if has_witness {
                reveal(DataColumnsByRootIdentifier::spec_fields_wf);
                lemma_data_columns_by_root_identifier_fields_fit(encoding@, ranges@, w);
            }
        }
        let block_root = match decode_field::<Root>(encoding, &ranges, 0, Ghost(if has_witness { Some(w.block_root) } else { None })) {
            Ok(x) => x,
            Err(e) => {
                return Err(e);
            },
        };
        let columns = match decode_field::<List<ColumnIndex, 128>>(encoding, &ranges, 1, Ghost(if has_witness { Some(w.columns) } else { None })) {
            Ok(x) => x,
            Err(e) => {
                return Err(e);
            },
        };
        let v = DataColumnsByRootIdentifier { block_root, columns };
        proof {
            reveal(DataColumnsByRootIdentifier::spec_ssz);
            reveal(DataColumnsByRootIdentifier::spec_fields_wf);
            assert(v.spec_fields_wf());
            lemma_data_columns_by_root_identifier_layout(v);
            lemma_data_columns_by_root_identifier_fields_fit(encoding@, ranges@, v);
        }
        Ok(v)
    }

    /// The merkle root of the field roots.
    #[verifier::spinoff_prover]
    #[verifier::rlimit(100)]
    pub fn hash_tree_root(&self) -> (r: Result<Node, MerkleizationError>)
        requires
            self.spec_fields_wf(),
        ensures
            r matches Ok(n) && n.0@ == self.spec_root(),
    {
        proof {
            reveal(DataColumnsByRootIdentifier::spec_fields_wf);
            reveal(DataColumnsByRootIdentifier::spec_field_roots);
        }
        let r0 = self.block_root.ssz_root();
        let r1 = self.columns.ssz_root();
        let roots = [r0, r1];
        assert(roots_view(roots@) =~= self.spec_field_roots());
        Ok(merkleize_roots(roots.as_slice()))
    }

    /// A container is a composite type.
    pub fn is_composite_type() -> (r: bool)
        ensures
            r,
    {
        true
    }
}

/// The head of a `DataColumnsByRootIdentifier` encoding is 36 bytes.
proof fn lemma_data_columns_by_root_identifier_head_len()
    ensures
        spec_layout_head_len(DataColumnsByRootIdentifier::spec_layout()) == 36,
{
    reveal_with_fuel(spec_head_pos, 3);
}

/// The parts of a `DataColumnsByRootIdentifier` fit its field layout.
#[verifier::spinoff_prover]
#[verifier::rlimit(100)]
proof fn lemma_data_columns_by_root_identifier_layout(x: DataColumnsByRootIdentifier)
    requires
        x.spec_fields_wf(),
    ensures
        spec_layout_matches(DataColumnsByRootIdentifier::spec_layout(), x.spec_parts()),
{
    reveal(DataColumnsByRootIdentifier::spec_parts);
    reveal(DataColumnsByRootIdentifier::spec_fields_wf);
    SszCodec::lemma_shape(&x.block_root);
    let parts = x.spec_parts();
    let layout = DataColumnsByRootIdentifier::spec_layout();
    assert forall|i: int| 0 <= i < parts.len() implies (#[trigger] parts[i].0 <==> layout[i] == 0)
        && (layout[i] > 0 ==> parts[i].1.len() == layout[i]) by {
        if i == 0 { } else if i == 1 { }
    }
}

/// The parts of a `DataColumnsByRootIdentifier` fit byte ranges exactly when each field's
/// encoding is the bytes of its range.
#[verifier::spinoff_prover]
#[verifier::rlimit(100)]
proof fn lemma_data_columns_by_root_identifier_fields_fit(encoding: Seq<u8>, ranges: Seq<(usize, usize)>, v: DataColumnsByRootIdentifier)
    requires
        ranges.len() == 2,
    ensures
        spec_ranges_fit(encoding, DataColumnsByRootIdentifier::spec_layout(), ranges, v.spec_parts()) ==> (v.block_root.spec_encoding() == encoding.subrange(ranges[0].0 as int, ranges[0].1 as int)
            && v.columns.spec_encoding() == encoding.subrange(ranges[1].0 as int, ranges[1].1 as int)),
        spec_layout_matches(DataColumnsByRootIdentifier::spec_layout(), v.spec_parts()) && (v.block_root.spec_encoding() == encoding.subrange(ranges[0].0 as int, ranges[0].1 as int)
            && v.columns.spec_encoding() == encoding.subrange(ranges[1].0 as int, ranges[1].1 as int))
            ==> spec_ranges_fit(encoding, DataColumnsByRootIdentifier::spec_layout(), ranges, v.spec_parts()),
{
    reveal(DataColumnsByRootIdentifier::spec_parts);
    let parts = v.spec_parts();
    if spec_ranges_fit(encoding, DataColumnsByRootIdentifier::spec_layout(), ranges, parts) {
        assert(parts[0].1 == encoding.subrange(ranges[0].0 as int, ranges[0].1 as int));
        assert(parts[1].1 == encoding.subrange(ranges[1].0 as int, ranges[1].1 as int));
    }
    if spec_layout_matches(DataColumnsByRootIdentifier::spec_layout(), parts) && (v.block_root.spec_encoding() == encoding.subrange(ranges[0].0 as int, ranges[0].1 as int)
            && v.columns.spec_encoding() == encoding.subrange(ranges[1].0 as int, ranges[1].1 as int)) {
        assert forall|i: int| 0 <= i < parts.len() implies #[trigger] parts[i].1 == encoding.subrange(ranges[i].0 as int, ranges[i].1 as int) by {
            if i == 0 { assert(parts[0].1 == v.block_root.spec_encoding()); } else if i == 1 { assert(parts[1].1 == v.columns.spec_encoding()); }
        }
    }
}

impl SszCodec for DataColumnsByRootIdentifier {
    open spec fn spec_fixed_size() -> Option<nat> {
        None
    }

    open spec fn spec_packed() -> bool {
        false
    }

    open spec fn spec_wf(&self) -> bool {
        self.spec_fields_wf()
    }

    open spec fn spec_encoding(&self) -> Seq<u8> {
        self.spec_ssz()
    }

    open spec fn spec_tree_root(&self) -> Seq<u8> {
        self.spec_root()
    }

    proof fn lemma_layout() {
    }

    proof fn lemma_shape(x: &Self) {

    }

    fn ssz_fixed_size() -> (r: Option<usize>) {
        None
    }

    fn ssz_packed() -> (r: bool) {
        false
    }

    fn ssz_encode(&self, buffer: &mut Vec<u8>) {
        let _ = self.serialize(buffer);
    }

    fn ssz_decode(bytes: &[u8]) -> (r: Result<Self, DeserializeError>) {
        Self::deserialize(bytes)
    }

    fn ssz_root(&self) -> (r: Node) {
        match self.hash_tree_root() {
            Ok(n) => n,
            Err(_) => Node([0u8; 32]),
        }
    }
}

impl PartialDataColumnSidecar {
    /// The fields' places in the encoding: whether each is variable-size,
    /// and its encoding.
    #[verifier::opaque]
    pub open spec fn spec_parts(&self) -> Seq<FieldPart> {
        seq![
            (true, self.cells_present_bitmap.spec_encoding()),
            (true, self.partial_column.spec_encoding()),
            (true, self.kzg_proofs.spec_encoding()),
        ]
    }

    /// Each field's fixed size, or zero for a variable-size field.
    pub open spec fn spec_layout() -> Seq<usize> {
        seq![0usize, 0usize, 0usize]
    }

    /// The SSZ encoding: fixed-size fields and offsets, then variable-size
    /// fields.
    #[verifier::opaque]
    pub open spec fn spec_ssz(&self) -> Seq<u8> {
        spec_container_encoding(self.spec_parts(), 12)
    }

    /// The hash-tree-roots of the fields in order.
    #[verifier::opaque]
    pub open spec fn spec_field_roots(&self) -> Seq<Seq<u8>> {
        seq![
            self.cells_present_bitmap.spec_tree_root(),
            self.partial_column.spec_tree_root(),
            self.kzg_proofs.spec_tree_root(),
        ]
    }

    /// The hash-tree-root: the merkle root of the field roots.
    pub open spec fn spec_root(&self) -> Seq<u8> {
        spec_merkleize(self.spec_field_roots())
    }

    /// Whether every field respects its bounds.
    #[verifier::opaque]
    pub open spec fn spec_fields_wf(&self) -> bool {
        &&& self.cells_present_bitmap.spec_wf()
        &&& self.partial_column.spec_wf()
        &&& self.kzg_proofs.spec_wf()
    }

    /// Whether the container has a variable-size encoding.
    pub fn is_variable_size() -> (r: bool)
        ensures
            r == true,
    {
        true
    }

    /// The bytes taken by the fixed-size fields.
    pub fn size_hint() -> (r: usize)
        ensures
            r == 0,
    {
        0
    }

    /// Append the encoding.
    #[verifier::spinoff_prover]
    #[verifier::rlimit(100)]
    pub fn serialize(&self, buffer: &mut Vec<u8>) -> (r: Result<usize, SerializeError>)
        requires
            self.spec_fields_wf(),
            self.spec_ssz().len() <= u32::MAX,
        ensures
            r == Ok::<usize, SerializeError>(self.spec_ssz().len() as usize),
            final(buffer)@ == old(buffer)@ + self.spec_ssz(),
    {
        let ghost parts = self.spec_parts();
        proof {
            reveal(PartialDataColumnSidecar::spec_ssz);
            reveal(PartialDataColumnSidecar::spec_parts);
            reveal(PartialDataColumnSidecar::spec_fields_wf);
            assert(parts.len() == 3);

            assert(spec_layout_matches(Self::spec_layout(), parts));
            assert(spec_layout_head_len(Self::spec_layout()) == 12) by {
                reveal_with_fuel(spec_head_pos, 4);
            }
            assert(spec_head_pieces(parts, 12int).subrange(0, 0) =~= Seq::<Seq<u8>>::empty());
            assert(spec_tail_pieces(parts).subrange(0, 0) =~= Seq::<Seq<u8>>::empty());
        }
        let mut head: Vec<u8> = Vec::new();
        let mut tail: Vec<u8> = Vec::new();
        encode_variable_field(&self.cells_present_bitmap, &mut head, &mut tail, 12, Ghost(Self::spec_layout()), Ghost(parts), Ghost(0int));
        encode_variable_field(&self.partial_column, &mut head, &mut tail, 12, Ghost(Self::spec_layout()), Ghost(parts), Ghost(1int));
        encode_variable_field(&self.kzg_proofs, &mut head, &mut tail, 12, Ghost(Self::spec_layout()), Ghost(parts), Ghost(2int));
        proof {
            reveal(PartialDataColumnSidecar::spec_ssz);
            reveal(PartialDataColumnSidecar::spec_parts);
            reveal(PartialDataColumnSidecar::spec_fields_wf);
            lemma_so_far_done(parts, 12int);
            assert(head@.len() + tail@.len() == self.spec_ssz().len());
        }
        let n = head.len() + tail.len();
        head.append(&mut tail);
        buffer.append(&mut head);
        Ok(n)
    }

    /// Decode from exactly the given bytes.
    #[verifier::spinoff_prover]
    #[verifier::rlimit(100)]
    pub fn deserialize(encoding: &[u8]) -> (r: Result<Self, DeserializeError>)
        ensures
            r matches Ok(v) ==> v.spec_fields_wf() && v.spec_ssz() == encoding@,
            encoding@.len() <= u32::MAX && (exists|v: Self| v.spec_fields_wf() && #[trigger] v.spec_ssz() == encoding@)
                ==> r is Ok,
    {
        let sizes: [usize; 3] = [0usize, 0usize, 0usize];
        proof {
            assert(sizes@ =~= Self::spec_layout());
            lemma_partial_data_column_sidecar_head_len();
        }
        let ghost has_witness = encoding@.len() <= u32::MAX
            && exists|v: Self| v.spec_fields_wf() && #[trigger] v.spec_ssz() == encoding@;
        let ghost w = choose|v: Self| v.spec_fields_wf() && #[trigger] v.spec_ssz() == encoding@;
        proof {
            if has_witness {
                lemma_partial_data_column_sidecar_layout(w);
                reveal(PartialDataColumnSidecar::spec_ssz);
            }
        }
        let ranges = match split_container(encoding, &sizes) {
            Ok(r) => r,
            Err(e) => {
                return Err(e);
            },
        };
        proof {
            if has_witness {
                reveal(PartialDataColumnSidecar::spec_fields_wf);
                lemma_partial_data_column_sidecar_fields_fit(encoding@, ranges@, w);
            }
        }
        let cells_present_bitmap = match decode_field::<Bitlist<MAX_BLOB_COMMITMENTS_PER_BLOCK>>(encoding, &ranges, 0, Ghost(if has_witness { Some(w.cells_present_bitmap) } else { None })) {
            Ok(x) => x,
            Err(e) => {
                return Err(e);
            },
        };
        let partial_column = match decode_field::<List<Cell, MAX_BLOB_COMMITMENTS_PER_BLOCK>>(encoding, &ranges, 1, Ghost(if has_witness { Some(w.partial_column) } else { None })) {
            Ok(x) => x,
            Err(e) => {
                return Err(e);
            },
        };
        let kzg_proofs = match decode_field::<List<KZGProof, MAX_BLOB_COMMITMENTS_PER_BLOCK>>(encoding, &ranges, 2, Ghost(if has_witness { Some(w.kzg_proofs) } else { None })) {
            Ok(x) => x,
            Err(e) => {
                return Err(e);
            },
        };
        let v = PartialDataColumnSidecar { cells_present_bitmap, partial_column, kzg_proofs };
        proof {
            reveal(PartialDataColumnSidecar::spec_ssz);
            reveal(PartialDataColumnSidecar::spec_fields_wf);
            assert(v.spec_fields_wf());
            lemma_partial_data_column_sidecar_layout(v);
            lemma_partial_data_column_sidecar_fields_fit(encoding@, ranges@, v);
        }
        Ok(v)
    }

    /// The merkle root of the field roots.
    #[verifier::spinoff_prover]
    #[verifier::rlimit(100)]
    pub fn hash_tree_root(&self) -> (r: Result<Node, MerkleizationError>)
        requires
            self.spec_fields_wf(),
        ensures
            r matches Ok(n) && n.0@ == self.spec_root(),
    {
        proof {
            reveal(PartialDataColumnSidecar::spec_fields_wf);
            reveal(PartialDataColumnSidecar::spec_field_roots);
        }
        let r0 = self.cells_present_bitmap.ssz_root();
        let r1 = self.partial_column.ssz_root();
        let r2 = self.kzg_proofs.ssz_root();
        let roots = [r0, r1, r2];
        assert(roots_view(roots@) =~= self.spec_field_roots());
        Ok(merkleize_roots(roots.as_slice()))
    }

    /// A container is a composite type.
    pub fn is_composite_type() -> (r: bool)
        ensures
            r,
    {
        true
    }
}

/// The head of a `PartialDataColumnSidecar` encoding is 12 bytes.
proof fn lemma_partial_data_column_sidecar_head_len()
    ensures
        spec_layout_head_len(PartialDataColumnSidecar::spec_layout()) == 12,
{
    reveal_with_fuel(spec_head_pos, 4);
}

/// The parts of a `PartialDataColumnSidecar` fit its field layout.
#[verifier::spinoff_prover]
#[verifier::rlimit(100)]
proof fn lemma_partial_data_column_sidecar_layout(x: PartialDataColumnSidecar)
    requires
        x.spec_fields_wf(),
    ensures
        spec_layout_matches(PartialDataColumnSidecar::spec_layout(), x.spec_parts()),
{
    reveal(PartialDataColumnSidecar::spec_parts);
    reveal(PartialDataColumnSidecar::spec_fields_wf);

    let parts = x.spec_parts();
    let layout = PartialDataColumnSidecar::spec_layout();
    assert forall|i: int| 0 <= i < parts.len() implies (#[trigger] parts[i].0 <==> layout[i] == 0)
        && (layout[i] > 0 ==> parts[i].1.len() == layout[i]) by {
        if i == 0 { } else if i == 1 { } else if i == 2 { }
    }
}

/// The parts of a `PartialDataColumnSidecar` fit byte ranges exactly when each field's
/// encoding is the bytes of its range.
#[verifier::spinoff_prover]
#[verifier::rlimit(100)]
proof fn lemma_partial_data_column_sidecar_fields_fit(encoding: Seq<u8>, ranges: Seq<(usize, usize)>, v: PartialDataColumnSidecar)
    requires
        ranges.len() == 3,
    ensures
        spec_ranges_fit(encoding, PartialDataColumnSidecar::spec_layout(), ranges, v.spec_parts()) ==> (v.cells_present_bitmap.spec_encoding() == encoding.subrange(ranges[0].0 as int, ranges[0].1 as int)
            && v.partial_column.spec_encoding() == encoding.subrange(ranges[1].0 as int, ranges[1].1 as int)
            && v.kzg_proofs.spec_encoding() == encoding.subrange(ranges[2].0 as int, ranges[2].1 as int)),
        spec_layout_matches(PartialDataColumnSidecar::spec_layout(), v.spec_parts()) && (v.cells_present_bitmap.spec_encoding() == encoding.subrange(ranges[0].0 as int, ranges[0].1 as int)
            && v.partial_column.spec_encoding() == encoding.subrange(ranges[1].0 as int, ranges[1].1 as int)
            && v.kzg_proofs.spec_encoding() == encoding.subrange(ranges[2].0 as int, ranges[2].1 as int))
            ==> spec_ranges_fit(encoding, PartialDataColumnSidecar::spec_layout(), ranges, v.spec_parts()),
{
    reveal(PartialDataColumnSidecar::spec_parts);
    let parts = v.spec_parts();
    if spec_ranges_fit(encoding, PartialDataColumnSidecar::spec_layout(), ranges, parts) {
        assert(parts[0].1 == encoding.subrange(ranges[0].0 as int, ranges[0].1 as int));
        assert(parts[1].1 == encoding.subrange(ranges[1].0 as int, ranges[1].1 as int));
        assert(parts[2].1 == encoding.subrange(ranges[2].0 as int, ranges[2].1 as int));
    }
    if spec_layout_matches(PartialDataColumnSidecar::spec_layout(), parts) && (v.cells_present_bitmap.spec_encoding() == encoding.subrange(ranges[0].0 as int, ranges[0].1 as int)
            && v.partial_column.spec_encoding() == encoding.subrange(ranges[1].0 as int, ranges[1].1 as int)
            && v.kzg_proofs.spec_encoding() == encoding.subrange(ranges[2].0 as int, ranges[2].1 as int)) {
        assert forall|i: int| 0 <= i < parts.len() implies #[trigger] parts[i].1 == encoding.subrange(ranges[i].0 as int, ranges[i].1 as int) by {
            if i == 0 { assert(parts[0].1 == v.cells_present_bitmap.spec_encoding()); } else if i == 1 { assert(parts[1].1 == v.partial_column.spec_encoding()); } else if i == 2 { assert(parts[2].1 == v.kzg_proofs.spec_encoding()); }
        }
    }
}

impl SszCodec for PartialDataColumnSidecar {
    open spec fn spec_fixed_size() -> Option<nat> {
        None
    }

    open spec fn spec_packed() -> bool {
        false
    }

    open spec fn spec_wf(&self) -> bool {
        self.spec_fields_wf()
    }

    open spec fn spec_encoding(&self) -> Seq<u8> {
        self.spec_ssz()
    }

    open spec fn spec_tree_root(&self) -> Seq<u8> {
        self.spec_root()
    }

    proof fn lemma_layout() {
    }

    proof fn lemma_shape(x: &Self) {

    }

    fn ssz_fixed_size() -> (r: Option<usize>) {
        None
    }

    fn ssz_packed() -> (r: bool) {
        false
    }

    fn ssz_encode(&self, buffer: &mut Vec<u8>) {
        let _ = self.serialize(buffer);
    }

    fn ssz_decode(bytes: &[u8]) -> (r: Result<Self, DeserializeError>) {
        Self::deserialize(bytes)
    }

    fn ssz_root(&self) -> (r: Node) {
        match self.hash_tree_root() {
            Ok(n) => n,
            Err(_) => Node([0u8; 32]),
        }
    }
}

} // verus!
