//! Data-availability sidecars and the matrix of cells they carry.
use vstd::prelude::*;
use vstd::arithmetic::power::pow;
use vstd::slice::slice_subrange;

use crate::ssz::basic::{
    bool_byte, bytes_is_variable_size, bytes_size_hint, deserialize_bool, deserialize_bytes,
    deserialize_u64, deserialize_u8, hash_tree_root_bool, hash_tree_root_bytes,
    hash_tree_root_u64, hash_tree_root_u8, lemma_u64_from_le_roundtrip, lemma_u64_le_injective,
    read_u64_le, serialize_bool, serialize_bytes, serialize_u64, serialize_u8, spec_bool_root,
    spec_u64_from_le,
    spec_u64_le, spec_u64_root, spec_u8_root, u64_is_variable_size, u64_size_hint,
    u8_is_variable_size, u8_size_hint,
};
use crate::ssz::error::{length_error, wrong_length};
use crate::ssz::merkle::{
    merkleize_roots, roots_view, sha256_digest, spec_merkleize, spec_merkleize_bytes, spec_sha256,
};
use crate::ssz::{DeserializeError, MerkleizationError, Node, SerializeError};
use crate::constants::{
    DATA_COLUMN_SIDECAR_SUBNET_COUNT, MAX_BLOB_COMMITMENTS_PER_BLOCK, MAX_REQUEST_BLOCKS_DENEB,
    NUMBER_OF_COLUMNS, NUMBER_OF_CUSTODY_GROUPS,
};
use crate::primitives::{
    Cell, ColumnIndex, CustodyIndex, KZGCommitment, KZGProof, NodeId, Root, RowIndex, Slot, SubnetId,
};
use crate::ssz::{Bitlist, List};

verus! {

/// One cell of the extended blob matrix with its proof and coordinates.
#[derive(Default, Debug, Clone, Copy, PartialEq, Eq)]
pub struct MatrixEntry {
    /// Cell bytes.
    pub cell: Cell,
    /// KZG proof for the cell.
    pub kzg_proof: KZGProof,
    /// Column coordinate.
    pub column_index: ColumnIndex,
    /// Row coordinate.
    pub row_index: RowIndex,
}

impl MatrixEntry {
    /// The SSZ encoding: the fields' encodings in order.
    pub open spec fn spec_ssz(self) -> Seq<u8> {
        self.cell.spec_ssz()
            + self.kzg_proof.spec_ssz()
            + self.column_index.spec_ssz()
            + self.row_index.spec_ssz()
    }

    /// The hash-tree-roots of the fields in order.
    pub open spec fn spec_field_roots(self) -> Seq<Seq<u8>> {
        seq![
            self.cell.spec_root(),
            self.kzg_proof.spec_root(),
            self.column_index.spec_root(),
            self.row_index.spec_root(),
        ]
    }

    /// The hash-tree-root: the merkle root of the field roots.
    pub open spec fn spec_root(self) -> Seq<u8> {
        spec_merkleize(self.spec_field_roots())
    }

    /// Whether `bytes` is the encoding of some value.
    pub open spec fn spec_valid_ssz(bytes: Seq<u8>) -> bool {
        bytes.len() == 2112
    }

    /// A container is variable-size when any field is.
    pub fn is_variable_size() -> (r: bool)
        ensures
            !r,
    {
        Cell::is_variable_size()
            || KZGProof::is_variable_size()
            || ColumnIndex::is_variable_size()
            || RowIndex::is_variable_size()
    }

    /// The encoded size: the sum of the field sizes.
    pub fn size_hint() -> (r: usize)
        ensures
            r == 2112,
    {
        Cell::size_hint()
            + KZGProof::size_hint()
            + ColumnIndex::size_hint()
            + RowIndex::size_hint()
    }

    /// Append the encoding of every field in order.
    pub fn serialize(&self, buffer: &mut Vec<u8>) -> (r: Result<usize, SerializeError>)
        ensures
            r == Ok::<usize, SerializeError>(2112),
            final(buffer)@ == old(buffer)@ + self.spec_ssz(),
    {
        let _ = self.cell.serialize(buffer);
        let _ = self.kzg_proof.serialize(buffer);
        let _ = self.column_index.serialize(buffer);
        let _ = self.row_index.serialize(buffer);
        assert(buffer@ =~= old(buffer)@ + self.spec_ssz());
        Ok(2112)
    }

    /// Decode every field from its fixed position in exactly 2112 bytes.
    pub fn deserialize(encoding: &[u8]) -> (r: Result<Self, DeserializeError>)
        ensures
            r is Ok <==> Self::spec_valid_ssz(encoding@),
            r matches Ok(v) ==> v.spec_ssz() == encoding@,
            r matches Err(e) ==> e == length_error(encoding@.len() as usize, 2112),
    {
        if encoding.len() != 2112 {
            return Err(wrong_length(encoding.len(), 2112));
        }
        let cell = Cell::deserialize(slice_subrange(encoding, 0, 2048))?;
        let kzg_proof = KZGProof::deserialize(slice_subrange(encoding, 2048, 2096))?;
        let column_index = ColumnIndex::deserialize(slice_subrange(encoding, 2096, 2104))?;
        let row_index = RowIndex::deserialize(slice_subrange(encoding, 2104, 2112))?;
        let v = MatrixEntry { cell, kzg_proof, column_index, row_index };
        proof {
            lemma_u64_from_le_roundtrip(encoding@.subrange(2096, 2104));
            lemma_u64_from_le_roundtrip(encoding@.subrange(2104, 2112));
            assert(v.spec_ssz() =~= encoding@);
        }
        Ok(v)
    }

    /// The merkle root of the field roots.
    pub fn hash_tree_root(&self) -> (r: Result<Node, MerkleizationError>)
        ensures
            r matches Ok(n) && n.0@ == self.spec_root(),
    {
        let r0 = self.cell.hash_tree_root()?;
        let r1 = self.kzg_proof.hash_tree_root()?;
        let r2 = self.column_index.hash_tree_root()?;
        let r3 = self.row_index.hash_tree_root()?;
        let roots = [r0, r1, r2, r3];
        assert(roots_view(roots@) =~= self.spec_field_roots());
        Ok(merkleize_roots(roots.as_slice()))
    }

    /// A container is a composite type.
    pub fn is_composite_type() -> (r: bool)
        ensures
            r,
    {
        true
    }
}

/// The encoding of a `MatrixEntry` is 2112 bytes long.
pub proof fn lemma_matrix_entry_ssz_len(x: MatrixEntry)
    ensures
        x.spec_ssz().len() == 2112,
{

}

/// Distinct `MatrixEntry` values have distinct encodings.
pub proof fn lemma_matrix_entry_ssz_injective(a: MatrixEntry, b: MatrixEntry)
    requires
        a.spec_ssz() == b.spec_ssz(),
    ensures
        a == b,
{
    lemma_matrix_entry_ssz_len(a);
    assert(a.spec_ssz().subrange(0, 2048) =~= a.cell.spec_ssz());
    assert(b.spec_ssz().subrange(0, 2048) =~= b.cell.spec_ssz());
    assert(a.cell.0 =~= b.cell.0);
    assert(a.spec_ssz().subrange(2048, 2096) =~= a.kzg_proof.spec_ssz());
    assert(b.spec_ssz().subrange(2048, 2096) =~= b.kzg_proof.spec_ssz());
    assert(a.kzg_proof.0 =~= b.kzg_proof.0);
    assert(a.spec_ssz().subrange(2096, 2104) =~= a.column_index.spec_ssz());
    assert(b.spec_ssz().subrange(2096, 2104) =~= b.column_index.spec_ssz());
    lemma_u64_le_injective(a.column_index.0, b.column_index.0);
    assert(a.spec_ssz().subrange(2104, 2112) =~= a.row_index.spec_ssz());
    assert(b.spec_ssz().subrange(2104, 2112) =~= b.row_index.spec_ssz());
    lemma_u64_le_injective(a.row_index.0, b.row_index.0);
}

/// Encoding then decoding a `MatrixEntry` gives it back: its encoding is accepted
/// by the decoder, and no other value has the same encoding.
pub proof fn lemma_matrix_entry_ssz_roundtrip(x: MatrixEntry)
    ensures
        MatrixEntry::spec_valid_ssz(x.spec_ssz()),
        forall|y: MatrixEntry| #[trigger] y.spec_ssz() == x.spec_ssz() ==> y == x,
{
    lemma_matrix_entry_ssz_len(x);

    assert forall|y: MatrixEntry| #[trigger] y.spec_ssz() == x.spec_ssz() implies y == x by {
        lemma_matrix_entry_ssz_injective(y, x);
    }
}

/// Identifies the block a partial data column belongs to.
#[derive(Default, Debug, Clone, Copy, PartialEq, Eq)]
pub struct PartialDataColumnGroupID {
    /// Slot of the associated beacon block.
    pub slot: Slot,
    /// Root of the associated beacon block.
    pub beacon_block_root: Root,
}

impl PartialDataColumnGroupID {
    /// The SSZ encoding: the fields' encodings in order.
    pub open spec fn spec_ssz(self) -> Seq<u8> {
        self.slot.spec_ssz()
            + self.beacon_block_root.spec_ssz()
    }

    /// The hash-tree-roots of the fields in order.
    pub open spec fn spec_field_roots(self) -> Seq<Seq<u8>> {
        seq![
            self.slot.spec_root(),
            self.beacon_block_root.spec_root(),
        ]
    }

    /// The hash-tree-root: the merkle root of the field roots.
    pub open spec fn spec_root(self) -> Seq<u8> {
        spec_merkleize(self.spec_field_roots())
    }

    /// Whether `bytes` is the encoding of some value.
    pub open spec fn spec_valid_ssz(bytes: Seq<u8>) -> bool {
        bytes.len() == 40
    }

    /// A container is variable-size when any field is.
    pub fn is_variable_size() -> (r: bool)
        ensures
            !r,
    {
        Slot::is_variable_size()
            || Root::is_variable_size()
    }

    /// The encoded size: the sum of the field sizes.
    pub fn size_hint() -> (r: usize)
        ensures
            r == 40,
    {
        Slot::size_hint()
            + Root::size_hint()
    }

    /// Append the encoding of every field in order.
    pub fn serialize(&self, buffer: &mut Vec<u8>) -> (r: Result<usize, SerializeError>)
        ensures
            r == Ok::<usize, SerializeError>(40),
            final(buffer)@ == old(buffer)@ + self.spec_ssz(),
    {
        let _ = self.slot.serialize(buffer);
        let _ = self.beacon_block_root.serialize(buffer);
        assert(buffer@ =~= old(buffer)@ + self.spec_ssz());
        Ok(40)
    }

    /// Decode every field from its fixed position in exactly 40 bytes.
    pub fn deserialize(encoding: &[u8]) -> (r: Result<Self, DeserializeError>)
        ensures
            r is Ok <==> Self::spec_valid_ssz(encoding@),
            r matches Ok(v) ==> v.spec_ssz() == encoding@,
            r matches Err(e) ==> e == length_error(encoding@.len() as usize, 40),
    {
        if encoding.len() != 40 {
            return Err(wrong_length(encoding.len(), 40));
        }
        let slot = Slot::deserialize(slice_subrange(encoding, 0, 8))?;
        let beacon_block_root = Root::deserialize(slice_subrange(encoding, 8, 40))?;
        let v = PartialDataColumnGroupID { slot, beacon_block_root };
        proof {
            lemma_u64_from_le_roundtrip(encoding@.subrange(0, 8));
            assert(v.spec_ssz() =~= encoding@);
        }
        Ok(v)
    }

    /// The merkle root of the field roots.
    pub fn hash_tree_root(&self) -> (r: Result<Node, MerkleizationError>)
        ensures
            r matches Ok(n) && n.0@ == self.spec_root(),
    {
        let r0 = self.slot.hash_tree_root()?;
        let r1 = self.beacon_block_root.hash_tree_root()?;
        let roots = [r0, r1];
        assert(roots_view(roots@) =~= self.spec_field_roots());
        Ok(merkleize_roots(roots.as_slice()))
    }

    /// A container is a composite type.
    pub fn is_composite_type() -> (r: bool)
        ensures
            r,
    {
        true
    }
}

/// The encoding of a `PartialDataColumnGroupID` is 40 bytes long.
pub proof fn lemma_partial_data_column_group_id_ssz_len(x: PartialDataColumnGroupID)
    ensures
        x.spec_ssz().len() == 40,
{

}

/// Distinct `PartialDataColumnGroupID` values have distinct encodings.
pub proof fn lemma_partial_data_column_group_id_ssz_injective(a: PartialDataColumnGroupID, b: PartialDataColumnGroupID)
    requires
        a.spec_ssz() == b.spec_ssz(),
    ensures
        a == b,
{
    lemma_partial_data_column_group_id_ssz_len(a);
    assert(a.spec_ssz().subrange(0, 8) =~= a.slot.spec_ssz());
    assert(b.spec_ssz().subrange(0, 8) =~= b.slot.spec_ssz());
    lemma_u64_le_injective(a.slot.0, b.slot.0);
    assert(a.spec_ssz().subrange(8, 40) =~= a.beacon_block_root.spec_ssz());
    assert(b.spec_ssz().subrange(8, 40) =~= b.beacon_block_root.spec_ssz());
    assert(a.beacon_block_root.0 =~= b.beacon_block_root.0);
}

/// Encoding then decoding a `PartialDataColumnGroupID` gives it back: its encoding is accepted
/// by the decoder, and no other value has the same encoding.
pub proof fn lemma_partial_data_column_group_id_ssz_roundtrip(x: PartialDataColumnGroupID)
    ensures
        PartialDataColumnGroupID::spec_valid_ssz(x.spec_ssz()),
        forall|y: PartialDataColumnGroupID| #[trigger] y.spec_ssz() == x.spec_ssz() ==> y == x,
{
    lemma_partial_data_column_group_id_ssz_len(x);

    assert forall|y: PartialDataColumnGroupID| #[trigger] y.spec_ssz() == x.spec_ssz() implies y == x by {
        lemma_partial_data_column_group_id_ssz_injective(y, x);
    }
}

/// One column of the extended blob matrix with its proofs.
#[derive(Debug, Clone)]
pub struct DataColumnSidecar {
    /// Column index. This is also the cell index for every blob commitment.
    pub index: ColumnIndex,
    /// Cells for this column, one per blob commitment.
    pub column: List<Cell, MAX_BLOB_COMMITMENTS_PER_BLOCK>,
    /// KZG proofs for the column cells.
    pub kzg_proofs: List<KZGProof, MAX_BLOB_COMMITMENTS_PER_BLOCK>,
    /// Slot of the beacon block this sidecar belongs to.
    pub slot: Slot,
    /// Root of the beacon block this sidecar belongs to.
    pub beacon_block_root: Root,
}

/// A by-root request for some columns of one block.
#[derive(Debug, Clone)]
pub struct DataColumnsByRootIdentifier {
    /// Beacon block root to request columns for.
    pub block_root: Root,
    /// Requested column indices.
    pub columns: List<ColumnIndex, 128>,
}

/// A column with only some of its rows present.
#[derive(Debug, Clone)]
pub struct PartialDataColumnSidecar {
    /// Bitmap marking which blob rows are present.
    pub cells_present_bitmap: Bitlist<MAX_BLOB_COMMITMENTS_PER_BLOCK>,
    /// Present cells in bitmap order.
    pub partial_column: List<Cell, MAX_BLOB_COMMITMENTS_PER_BLOCK>,
    /// Proofs for present cells in bitmap order.
    pub kzg_proofs: List<KZGProof, MAX_BLOB_COMMITMENTS_PER_BLOCK>,
}

/// Version byte for partial data-column message group identifiers.
pub const PARTIAL_DATA_COLUMN_GROUP_ID_VERSION: u8 = 0x01;

/// Errors returned by pure data-availability helpers.
#[derive(Debug, Clone, Copy, PartialEq, Eq)]
#[non_exhaustive]
pub enum DataAvailabilityError {
    /// Requested more custody groups than the protocol defines.
    TooManyCustodyGroups {
        /// Requested custody group count.
        requested: u64,
        /// Maximum custody group count.
        limit: u64,
    },
    /// Custody group index exceeds the configured group count.
    CustodyGroupOutOfRange {
        /// Supplied custody group index.
        index: u64,
        /// Exclusive upper bound.
        limit: u64,
    },
    /// Decimal node identifier contained a non-digit character.
    InvalidNodeIdDecimal,
    /// Decimal node identifier exceeded `uint256`.
    NodeIdOverflow,
    /// More blob rows were supplied than a sidecar list can carry.
    TooManyBlobRows {
        /// Supplied row count.
        rows: usize,
        /// Maximum row count.
        limit: usize,
    },
    /// Cell and proof vectors for one row have different lengths.
    CellsProofsLengthMismatch {
        /// Row index.
        row: usize,
        /// Cell count.
        cells: usize,
        /// Proof count.
        proofs: usize,
    },
    /// Cell/proof vectors for one row do not cover every column.
    CellsProofsColumnCountMismatch {
        /// Row index.
        row: usize,
        /// Expected column count.
        expected: usize,
        /// Cell count.
        cells: usize,
        /// Proof count.
        proofs: usize,
    },
    /// The custody-group search ran through every attempt a `u64` can count
    /// without finding enough distinct groups.
    CustodySearchExhausted,
    /// SSZ serialization failed.
    SszSerialize(SerializeError),
    /// SSZ hash-tree-root computation failed.
    Merkleization(MerkleizationError),
}

/// The number a little-endian byte string stands for.
pub open spec fn spec_le_value(bytes: Seq<u8>) -> nat
    decreases bytes.len(),
{
    if bytes.len() == 0 {
        0
    } else {
        bytes[0] as nat + 256 * spec_le_value(bytes.drop_first())
    }
}

/// `256^n`, the number of distinct `n`-byte strings.
pub open spec fn spec_byte_space(n: nat) -> int {
    pow(256, n)
}

/// Appending a byte adds it at the next power of 256.
pub proof fn lemma_le_value_push(bytes: Seq<u8>, b: u8)
    ensures
        spec_le_value(bytes.push(b)) == spec_le_value(bytes) + b * pow(256, bytes.len()),
    decreases bytes.len(),
{
    let pushed = bytes.push(b);
    if bytes.len() == 0 {
        assert(pushed.drop_first() =~= Seq::<u8>::empty());
        assert(spec_le_value(pushed) == pushed[0] as nat + 256 * spec_le_value(pushed.drop_first()));
        assert(pow(256, 0) == 1) by { reveal(pow); }
        assert(b * pow(256, 0) == b);
    } else {
        let tail = bytes.drop_first();
        assert(pushed.drop_first() =~= tail.push(b));
        lemma_le_value_push(tail, b);
        let p = pow(256, tail.len());
        assert(pow(256, bytes.len()) == 256 * p) by { reveal(pow); }
        let vt = spec_le_value(tail) as int;
        assert(spec_le_value(pushed) == bytes[0] + 256 * (vt + b * p));
        assert(spec_le_value(bytes) == bytes[0] + 256 * vt);
        assert(256 * (vt + b * p) == 256 * vt + b * (256 * p)) by (nonlinear_arith);
    }
}

/// An `n`-byte string stands for a number below `256^n`.
pub proof fn lemma_le_value_bound(bytes: Seq<u8>)
    ensures
        spec_le_value(bytes) < pow(256, bytes.len()),
    decreases bytes.len(),
{
    reveal(pow);
    if bytes.len() > 0 {
        lemma_le_value_bound(bytes.drop_first());
    }
}

/// The bytes after one little-endian increment, wrapping on overflow.
pub open spec fn spec_le_increment(bytes: Seq<u8>) -> Seq<u8>
    decreases bytes.len(),
{
    if bytes.len() == 0 {
        bytes
    } else if bytes[0] == 255 {
        seq![0u8] + spec_le_increment(bytes.drop_first())
    } else {
        bytes.update(0, (bytes[0] + 1) as u8)
    }
}

/// Incrementing adds one to the number, wrapping to zero past the largest
/// value the width can hold.
pub proof fn lemma_le_increment_value(bytes: Seq<u8>)
    ensures
        spec_le_increment(bytes).len() == bytes.len(),
        spec_le_value(spec_le_increment(bytes)) == (spec_le_value(bytes) + 1) as int % pow(256, bytes.len()),
    decreases bytes.len(),
{
    if bytes.len() == 0 {
        assert(pow(256, 0) == 1) by { reveal(pow); }
    } else {
        let tail = bytes.drop_first();
        let p = pow(256, tail.len());
        assert(pow(256, bytes.len()) == 256 * p) by { reveal(pow); }
        lemma_le_value_bound(tail);
        let inc = spec_le_increment(bytes);
        let t: int = spec_le_value(tail) as int;
        assert(spec_le_value(bytes) == bytes[0] + 256 * t);
        if bytes[0] == 255 {
            lemma_le_increment_value(tail);
            assert(inc.drop_first() =~= spec_le_increment(tail));
            assert(spec_le_value(inc) == 0 + 256 * ((t + 1) % p));
            if t + 1 < p {
                assert((t + 1) % p == t + 1) by (nonlinear_arith) requires 0 <= t + 1 < p;
                assert((256 * (t + 1)) % (256 * p) == 256 * (t + 1)) by (nonlinear_arith)
                    requires 0 <= t + 1 < p;
            } else {
                assert((t + 1) % p == 0) by (nonlinear_arith) requires t + 1 == p, p > 0;
                assert((256 * p) % (256 * p) == 0) by (nonlinear_arith) requires p > 0;
            }
        } else {
            assert(inc.drop_first() =~= tail);
            assert(spec_le_value(inc) == bytes[0] + 1 + 256 * t);
            assert((bytes[0] + 1 + 256 * t) % (256 * p) == bytes[0] + 1 + 256 * t) by (nonlinear_arith)
                requires bytes[0] < 255, 0 <= t < p;
        }
    }
}

/// Multiply a little-endian `uint256` by 10 and add one decimal digit.
///
/// On overflow the bytes hold the result reduced modulo `2^256` and the call
/// reports `NodeIdOverflow`.
pub fn multiply_node_id_by_10_and_add(bytes: &mut [u8; 32], digit: u8) -> (r: Result<(), DataAvailabilityError>)
    ensures
        spec_le_value(final(bytes)@) == (spec_le_value(old(bytes)@) * 10 + digit) as int % spec_byte_space(32),
        r is Ok <==> spec_le_value(old(bytes)@) * 10 + digit < spec_byte_space(32),
        r matches Err(e) ==> e == DataAvailabilityError::NodeIdOverflow,
{
    let ghost start = bytes@;
    let mut carry: u16 = digit as u16;
    let mut i: usize = 0;
    proof {
        assert(pow(256, 0) == 1) by { reveal(pow); }
        assert(bytes@.subrange(0, 0) =~= Seq::<u8>::empty());
        assert(start.subrange(0, 0) =~= Seq::<u8>::empty());
    }
    while i < 32
        invariant
            i <= 32,
            bytes@.len() == 32,
            start.len() == 32,
            carry <= 265,
            forall|j: int| i <= j < 32 ==> bytes@[j] == start[j],
            spec_le_value(bytes@.subrange(0, i as int)) + carry * pow(256, i as nat)
                == spec_le_value(start.subrange(0, i as int)) * 10 + digit,
        decreases 32 - i,
    {
        let ob = bytes[i];
        let next: u16 = (ob as u16) * 10 + carry;
        let nb: u8 = (next % 256) as u8;
        let ghost before = bytes@;
        bytes[i] = nb;
        proof {
            assert(bytes@.subrange(0, i as int) =~= before.subrange(0, i as int));
            assert(bytes@.subrange(0, i + 1) =~= before.subrange(0, i as int).push(nb));
            assert(start.subrange(0, i + 1) =~= start.subrange(0, i as int).push(ob));
            lemma_le_value_push(before.subrange(0, i as int), nb);
            lemma_le_value_push(start.subrange(0, i as int), ob);
            let p = pow(256, i as nat);
            assert(pow(256, (i + 1) as nat) == 256 * p) by { reveal(pow); }
            let c2 = next / 256;
            assert(next == nb + 256 * c2);
            assert(nb * p + c2 * (256 * p) == next * p) by (nonlinear_arith)
                requires next == nb + 256 * c2;
            assert(next * p == ob * 10 * p + carry * p) by (nonlinear_arith)
                requires next == ob * 10 + carry;
            assert((spec_le_value(start.subrange(0, i as int)) + ob * p) * 10
                == spec_le_value(start.subrange(0, i as int)) * 10 + ob * 10 * p) by (nonlinear_arith);
        }
        carry = next / 256;
        i = i + 1;
    }
    proof {
        assert(bytes@.subrange(0, 32) =~= bytes@);
        assert(start.subrange(0, 32) =~= start);
        lemma_le_value_bound(bytes@);
        let v = spec_le_value(bytes@);
        let p = pow(256, 32);
        let total = spec_le_value(start) * 10 + digit;
        assert(v + carry * p == total);
        assert(total % p == v) by (nonlinear_arith)
            requires v + carry * p == total, 0 <= v < p, carry >= 0;
        assert(carry == 0 <==> total < p) by (nonlinear_arith)
            requires v + carry * p == total, 0 <= v < p, carry >= 0;
    }
    if carry != 0 {
        return Err(DataAvailabilityError::NodeIdOverflow);
    }
    Ok(())
}

/// Increment a little-endian `uint256`, wrapping to zero on overflow.
pub fn increment_node_id(bytes: &mut [u8; 32])
    ensures
        final(bytes)@ == spec_le_increment(old(bytes)@),
        spec_le_value(final(bytes)@) == (spec_le_value(old(bytes)@) + 1) as int % spec_byte_space(32),
{
    let ghost start = bytes@;
    let mut i: usize = 0;
    loop
        invariant_except_break
            i <= 32,
            bytes@.len() == 32,
            start.len() == 32,
            forall|j: int| 0 <= j < i ==> start[j] == 255 && bytes@[j] == 0,
            forall|j: int| i <= j < 32 ==> bytes@[j] == start[j],
        ensures
            bytes@ == spec_le_increment(start),
        decreases 32 - i,
    {
        if i == 32 {
            proof { lemma_increment_after_carries(start, bytes@, 32); }
            break;
        }
        let b = bytes[i];
        assert(b == start[i as int]);
        if b == 255 {
            bytes[i] = 0;
            i = i + 1;
        } else {
            bytes[i] = b + 1;
            proof { lemma_increment_after_carries(start, bytes@, i as int); }
            break;
        }
    }
    proof {
        lemma_le_increment_value(start);
    }
}

/// The increment of a string whose first `k` bytes are all `255`: those
/// bytes become zero and the byte after them, if any, goes up by one.
proof fn lemma_increment_after_carries(start: Seq<u8>, result: Seq<u8>, k: int)
    requires
        0 <= k <= start.len(),
        result.len() == start.len(),
        forall|j: int| 0 <= j < k ==> start[j] == 255 && result[j] == 0,
        k < start.len() ==> start[k] != 255 && result[k] == start[k] + 1,
        forall|j: int| k < j < start.len() ==> result[j] == start[j],
    ensures
        result == spec_le_increment(start),
    decreases k,
{
    if start.len() == 0 {
        assert(result =~= start);
    } else if k == 0 {
        assert(result =~= start.update(0, (start[0] + 1) as u8));
    } else {
        lemma_increment_after_carries(start.drop_first(), result.drop_first(), k - 1);
        assert(result =~= seq![0u8] + result.drop_first());
    }
}

/// Whether `c` has the Unicode `White_Space` property.
pub open spec fn spec_is_unicode_whitespace(c: char) -> bool {
    let n = c as u32;
    ||| 0x09 <= n <= 0x0D
    ||| n == 0x20
    ||| n == 0x85
    ||| n == 0xA0
    ||| n == 0x1680
    ||| 0x2000 <= n <= 0x200A
    ||| n == 0x2028
    ||| n == 0x2029
    ||| n == 0x202F
    ||| n == 0x205F
    ||| n == 0x3000
}

/// `s` without its leading whitespace.
pub open spec fn spec_trim_start(s: Seq<char>) -> Seq<char>
    decreases s.len(),
{
    if s.len() > 0 && spec_is_unicode_whitespace(s[0]) {
        spec_trim_start(s.drop_first())
    } else {
        s
    }
}

/// `s` without its trailing whitespace.
pub open spec fn spec_trim_end(s: Seq<char>) -> Seq<char>
    decreases s.len(),
{
    if s.len() > 0 && spec_is_unicode_whitespace(s.last()) {
        spec_trim_end(s.drop_last())
    } else {
        s
    }
}

/// `s` without leading and trailing whitespace.
pub open spec fn spec_trim(s: Seq<char>) -> Seq<char> {
    spec_trim_end(spec_trim_start(s))
}

/// `str::trim`: the documentation defines whitespace by the Unicode
/// `White_Space` property and removes it from both ends.
#[verifier::external_body]
pub(crate) fn trim_whitespace(s: &str) -> (r: &str)
    ensures
        r@ == spec_trim(s@),
{
    s.trim()
}

/// Read decimal digits left to right into a number below `2^256`, failing
/// on the first non-digit or on the first digit that overflows.
pub open spec fn spec_parse_decimal(s: Seq<char>) -> Result<nat, DataAvailabilityError>
    decreases s.len(),
{
    if s.len() == 0 {
        Ok(0)
    } else {
        match spec_parse_decimal(s.drop_last()) {
            Err(e) => Err(e),
            Ok(v) => {
                let c = s.last();
                if !('0' <= c && c <= '9') {
                    Err(DataAvailabilityError::InvalidNodeIdDecimal)
                } else {
                    let w = v * 10 + (c as u32 - 48);
                    if w < spec_byte_space(32) {
                        Ok(w as nat)
                    } else {
                        Err(DataAvailabilityError::NodeIdOverflow)
                    }
                }
            },
        }
    }
}

/// Parse a decimal `uint256` node identifier into little-endian bytes.
///
/// Surrounding whitespace is ignored; an empty remainder is invalid.
pub fn node_id_from_decimal(decimal: &str) -> (r: Result<NodeId, DataAvailabilityError>)
    ensures
        spec_trim(decimal@).len() == 0 ==> r == Err::<NodeId, DataAvailabilityError>(
            DataAvailabilityError::InvalidNodeIdDecimal,
        ),
        spec_trim(decimal@).len() > 0 ==> match spec_parse_decimal(spec_trim(decimal@)) {
            Ok(v) => r matches Ok(n) && spec_le_value(n.0@) == v,
            Err(e) => r == Err::<NodeId, DataAvailabilityError>(e),
        },
{
    let mut out = [0u8; 32];
    let trimmed = trim_whitespace(decimal);
    let n = trimmed.unicode_len();
    if n == 0 {
        return Err(DataAvailabilityError::InvalidNodeIdDecimal);
    }
    proof {
        assert(trimmed@.subrange(0, 0) =~= Seq::<char>::empty());
        assert(out@ =~= Seq::new(32, |j: int| 0u8));
        lemma_le_value_zeros(out@);
    }
    let mut i: usize = 0;
    while i < n
        invariant
            i <= n,
            n == trimmed@.len(),
            trimmed@ == spec_trim(decimal@),
            spec_parse_decimal(trimmed@.subrange(0, i as int)) == Ok::<nat, DataAvailabilityError>(
                spec_le_value(out@),
            ),
        decreases n - i,
    {
        let c = trimmed.get_char(i);
        assert(trimmed@.subrange(0, i + 1).drop_last() =~= trimmed@.subrange(0, i as int));
        assert(trimmed@.subrange(0, i + 1).last() == c);
        if !(c >= '0' && c <= '9') {
            proof { lemma_parse_error_sticks(trimmed@, i + 1); }
            return Err(DataAvailabilityError::InvalidNodeIdDecimal);
        }
        let digit: u8 = ((c as u32) - 48) as u8;
        let ghost before = spec_le_value(out@) as int;
        assert(digit as int == c as u32 - 48);
        match multiply_node_id_by_10_and_add(&mut out, digit) {
            Err(e) => {
                proof { lemma_parse_error_sticks(trimmed@, i + 1); }
                return Err(e);
            },
            Ok(()) => {
                proof {
                    let w = before * 10 + digit;
                    let p = spec_byte_space(32);
                    assert(w % p == w) by (nonlinear_arith) requires 0 <= w < p;
                }
            },
        }
        i = i + 1;
    }
    assert(trimmed@.subrange(0, n as int) =~= trimmed@);
    Ok(NodeId::from_le_bytes(out))
}

/// Once a prefix fails to parse, every longer prefix fails the same way.
proof fn lemma_parse_error_sticks(s: Seq<char>, k: int)
    requires
        0 <= k <= s.len(),
        spec_parse_decimal(s.subrange(0, k)) is Err,
    ensures
        spec_parse_decimal(s) == spec_parse_decimal(s.subrange(0, k)),
    decreases s.len() - k,
{
    if k < s.len() {
        assert(s.subrange(0, k + 1).drop_last() =~= s.subrange(0, k));
        lemma_parse_error_sticks(s, k + 1);
    } else {
        assert(s.subrange(0, k) =~= s);
    }
}

/// A string of zero bytes stands for zero.
proof fn lemma_le_value_zeros(bytes: Seq<u8>)
    requires
        forall|j: int| 0 <= j < bytes.len() ==> bytes[j] == 0,
    ensures
        spec_le_value(bytes) == 0,
    decreases bytes.len(),
{
    if bytes.len() > 0 {
        lemma_le_value_zeros(bytes.drop_first());
    }
}

/// The node identifier bytes after `k` increments.
pub open spec fn spec_custody_id(node_id: Seq<u8>, k: nat) -> Seq<u8>
    decreases k,
{
    if k == 0 {
        node_id
    } else {
        spec_le_increment(spec_custody_id(node_id, (k - 1) as nat))
    }
}

/// The custody group drawn at attempt `k`: the little-endian `u64` at the
/// head of the SHA-256 digest of the `k`-th identifier, modulo the group count.
pub open spec fn spec_custody_group_at(node_id: Seq<u8>, k: nat) -> u64 {
    (spec_u64_from_le(spec_sha256(spec_custody_id(node_id, k)).subrange(0, 8)) % NUMBER_OF_CUSTODY_GROUPS) as u64
}

/// The distinct groups drawn in the first `k` attempts, in order of first
/// appearance.
pub open spec fn spec_distinct_groups(node_id: Seq<u8>, k: nat) -> Seq<u64>
    decreases k,
{
    if k == 0 {
        Seq::empty()
    } else {
        let prefix = spec_distinct_groups(node_id, (k - 1) as nat);
        let g = spec_custody_group_at(node_id, (k - 1) as nat);
        if prefix.contains(g) {
            prefix
        } else {
            prefix.push(g)
        }
    }
}

/// Whether `k` is the first attempt count at which `count` distinct groups
/// have been drawn.
pub open spec fn spec_custody_search_stops_at(node_id: Seq<u8>, count: u64, k: nat) -> bool {
    &&& spec_distinct_groups(node_id, k).len() == count
    &&& forall|j: nat| j < k ==> #[trigger] spec_distinct_groups(node_id, j).len() < count
}

/// The members of `groups` below `n`, in increasing order.
pub open spec fn spec_sorted_members(groups: Seq<u64>, n: nat) -> Seq<CustodyIndex>
    decreases n,
{
    if n == 0 {
        Seq::empty()
    } else {
        let prefix = spec_sorted_members(groups, (n - 1) as nat);
        if groups.contains((n - 1) as u64) {
            prefix.push(CustodyIndex((n - 1) as u64))
        } else {
            prefix
        }
    }
}

/// Return the custody groups assigned to a node identifier.
///
/// Groups are drawn by hashing the node identifier and its successors until
/// `custody_group_count` distinct groups are found; they come back in
/// increasing order.
pub fn get_custody_groups(node_id: NodeId, custody_group_count: u64) -> (r: Result<Vec<CustodyIndex>, DataAvailabilityError>)
    ensures
        custody_group_count > NUMBER_OF_CUSTODY_GROUPS ==> r == Err::<Vec<CustodyIndex>, DataAvailabilityError>(
            DataAvailabilityError::TooManyCustodyGroups {
                requested: custody_group_count,
                limit: NUMBER_OF_CUSTODY_GROUPS,
            },
        ),
        custody_group_count == NUMBER_OF_CUSTODY_GROUPS ==> (r matches Ok(v)
            && v@ == Seq::new(NUMBER_OF_CUSTODY_GROUPS as nat, |i: int| CustodyIndex(i as u64))),
        custody_group_count < NUMBER_OF_CUSTODY_GROUPS ==> match r {
            Ok(v) => exists|k: nat| #[trigger] spec_custody_search_stops_at(node_id.0@, custody_group_count, k)
                && v@ == spec_sorted_members(spec_distinct_groups(node_id.0@, k), NUMBER_OF_CUSTODY_GROUPS as nat),
            Err(e) => e == DataAvailabilityError::CustodySearchExhausted && forall|j: nat| j <= u64::MAX
                ==> #[trigger] spec_distinct_groups(node_id.0@, j).len() < custody_group_count,
        },
{
    if custody_group_count > NUMBER_OF_CUSTODY_GROUPS {
        return Err(DataAvailabilityError::TooManyCustodyGroups {
            requested: custody_group_count,
            limit: NUMBER_OF_CUSTODY_GROUPS,
        });
    }
    if custody_group_count == NUMBER_OF_CUSTODY_GROUPS {
        let mut all: Vec<CustodyIndex> = Vec::new();
        let mut g: u64 = 0;
        while g < NUMBER_OF_CUSTODY_GROUPS
            invariant
                g <= NUMBER_OF_CUSTODY_GROUPS,
                all@ == Seq::new(g as nat, |i: int| CustodyIndex(i as u64)),
            decreases NUMBER_OF_CUSTODY_GROUPS - g,
        {
            all.push(CustodyIndex(g));
            g = g + 1;
            assert(all@ =~= Seq::new(g as nat, |i: int| CustodyIndex(i as u64)));
        }
        return Ok(all);
    }
    let ghost node = node_id.0@;
    let mut current_id = node_id.to_le_bytes();
    let mut seen = [false; 128];
    let mut found: u64 = 0;
    let mut attempts: u64 = 0;
    while found < custody_group_count
        invariant
            custody_group_count < NUMBER_OF_CUSTODY_GROUPS,
            node == node_id.0@,
            current_id@ == spec_custody_id(node, attempts as nat),
            found == spec_distinct_groups(node, attempts as nat).len(),
            found <= custody_group_count,
            forall|g: int| 0 <= g < 128 ==> #[trigger] seen@[g] == spec_distinct_groups(node, attempts as nat).contains(g as u64),
            forall|j: nat| j < attempts ==> #[trigger] spec_distinct_groups(node, j).len() < custody_group_count,
        decreases u64::MAX - attempts,
    {
        if attempts == u64::MAX {
            proof {
                assert forall|j: nat| j <= u64::MAX implies #[trigger] spec_distinct_groups(node, j).len() < custody_group_count by {
                    if j < attempts {
                    } else {
                        assert(j == attempts);
                    }
                }
            }
            return Err(DataAvailabilityError::CustodySearchExhausted);
        }
        let digest = sha256_digest(&current_id);
        let group = read_u64_le(&digest, 0) % NUMBER_OF_CUSTODY_GROUPS;
        let ghost k = attempts as nat;
        assert(group == spec_custody_group_at(node, k));
        assert(digest@.subrange(0, 8) =~= spec_sha256(current_id@).subrange(0, 8));
        let gi = group as usize;
        if !seen[gi] {
            seen[gi] = true;
            found = found + 1;
        }
        proof {
            let prev = spec_distinct_groups(node, k);
            assert(spec_distinct_groups(node, k + 1) == if prev.contains(group) { prev } else { prev.push(group) });
            assert forall|g: int| 0 <= g < 128 implies #[trigger] seen@[g] == spec_distinct_groups(node, k + 1).contains(g as u64) by {
                if !prev.contains(group) {
                    assert(prev.push(group).contains(g as u64) == (prev.contains(g as u64) || g as u64 == group)) by {
                        if prev.push(group).contains(g as u64) {
                            let w = choose|w: int| 0 <= w < prev.push(group).len() && prev.push(group)[w] == g as u64;
                            if w < prev.len() {
                                assert(prev[w] == g as u64);
                            }
                        }
                        if prev.contains(g as u64) {
                            let w = choose|w: int| 0 <= w < prev.len() && prev[w] == g as u64;
                            assert(prev.push(group)[w] == g as u64);
                        }
                        if g as u64 == group {
                            assert(prev.push(group)[prev.len() as int] == group);
                        }
                    }
                }
            }
            assert forall|j: nat| j < k + 1 implies #[trigger] spec_distinct_groups(node, j).len() < custody_group_count by {
                if j < k {
                } else {
                    assert(j == k);
                }
            }
        }
        increment_node_id(&mut current_id);
        attempts = attempts + 1;
    }
    let ghost k = attempts as nat;
    assert(spec_custody_search_stops_at(node, custody_group_count, k));
    let mut out: Vec<CustodyIndex> = Vec::new();
    let mut g: u64 = 0;
    while g < NUMBER_OF_CUSTODY_GROUPS
        invariant
            g <= NUMBER_OF_CUSTODY_GROUPS,
            forall|h: int| 0 <= h < 128 ==> #[trigger] seen@[h] == spec_distinct_groups(node, k).contains(h as u64),
            out@ == spec_sorted_members(spec_distinct_groups(node, k), g as nat),
        decreases NUMBER_OF_CUSTODY_GROUPS - g,
    {
        if seen[g as usize] {
            out.push(CustodyIndex(g));
        }
        g = g + 1;
    }
    Ok(out)
}

/// Return the columns assigned to a custody group.
pub fn compute_columns_for_custody_group(custody_group: CustodyIndex) -> (r: Result<Vec<ColumnIndex>, DataAvailabilityError>)
    ensures
        custody_group.0 >= NUMBER_OF_CUSTODY_GROUPS ==> r == Err::<Vec<ColumnIndex>, DataAvailabilityError>(
            DataAvailabilityError::CustodyGroupOutOfRange { index: custody_group.0, limit: NUMBER_OF_CUSTODY_GROUPS },
        ),
        custody_group.0 < NUMBER_OF_CUSTODY_GROUPS ==> (r matches Ok(v) && v@ == Seq::new(
            (NUMBER_OF_COLUMNS / NUMBER_OF_CUSTODY_GROUPS) as nat,
            |i: int| ColumnIndex((NUMBER_OF_CUSTODY_GROUPS * i + custody_group.0) as u64),
        )),
{
    if custody_group.0 >= NUMBER_OF_CUSTODY_GROUPS {
        return Err(DataAvailabilityError::CustodyGroupOutOfRange {
            index: custody_group.0,
            limit: NUMBER_OF_CUSTODY_GROUPS,
        });
    }
    let columns_per_group = NUMBER_OF_COLUMNS / NUMBER_OF_CUSTODY_GROUPS;
    let mut out: Vec<ColumnIndex> = Vec::new();
    let mut i: u64 = 0;
    while i < columns_per_group
        invariant
            columns_per_group == NUMBER_OF_COLUMNS / NUMBER_OF_CUSTODY_GROUPS,
            i <= columns_per_group,
            custody_group.0 < NUMBER_OF_CUSTODY_GROUPS,
            out@ == Seq::new(i as nat, |j: int| ColumnIndex((NUMBER_OF_CUSTODY_GROUPS * j + custody_group.0) as u64)),
        decreases columns_per_group - i,
    {
        out.push(ColumnIndex(NUMBER_OF_CUSTODY_GROUPS * i + custody_group.0));
        i = i + 1;
        assert(out@ =~= Seq::new(i as nat, |j: int| ColumnIndex((NUMBER_OF_CUSTODY_GROUPS * j + custody_group.0) as u64)));
    }
    Ok(out)
}

/// Return the maximum number of data-column sidecars in a request.
pub fn compute_max_request_data_column_sidecars() -> (r: u64)
    ensures
        r == MAX_REQUEST_BLOCKS_DENEB * NUMBER_OF_COLUMNS,
{
    MAX_REQUEST_BLOCKS_DENEB * NUMBER_OF_COLUMNS
}

/// Return the subnet for a data-column sidecar.
pub fn compute_subnet_for_data_column_sidecar(column_index: ColumnIndex) -> (r: SubnetId)
    ensures
        r.0 == column_index.0 % DATA_COLUMN_SIDECAR_SUBNET_COUNT,
{
    SubnetId(column_index.0 % DATA_COLUMN_SIDECAR_SUBNET_COUNT)
}

/// The first row-shape problem at or after row `i`, if any: a row whose
/// cell and proof counts differ, or that does not cover every column.
pub open spec fn spec_check_rows_from(rows: Seq<(Vec<Cell>, Vec<KZGProof>)>, i: int) -> Result<(), DataAvailabilityError>
    decreases rows.len() - i,
{
    if i < 0 || i >= rows.len() {
        Ok(())
    } else {
        let cells = rows[i].0@.len();
        let proofs = rows[i].1@.len();
        if cells != proofs {
            Err(DataAvailabilityError::CellsProofsLengthMismatch {
                row: i as usize,
                cells: cells as usize,
                proofs: proofs as usize,
            })
        } else if cells != NUMBER_OF_COLUMNS {
            Err(DataAvailabilityError::CellsProofsColumnCountMismatch {
                row: i as usize,
                expected: NUMBER_OF_COLUMNS as usize,
                cells: cells as usize,
                proofs: proofs as usize,
            })
        } else {
            spec_check_rows_from(rows, i + 1)
        }
    }
}

/// The outcome of validating blob rows: too many rows, else the first
/// malformed row, else success.
pub open spec fn spec_validate_rows(rows: Seq<(Vec<Cell>, Vec<KZGProof>)>) -> Result<(), DataAvailabilityError> {
    if rows.len() > MAX_BLOB_COMMITMENTS_PER_BLOCK {
        Err(DataAvailabilityError::TooManyBlobRows {
            rows: rows.len() as usize,
            limit: MAX_BLOB_COMMITMENTS_PER_BLOCK as usize,
        })
    } else {
        spec_check_rows_from(rows, 0)
    }
}

/// When every row checks out, every row has a cell and a proof per column.
proof fn lemma_valid_rows_cover_columns(rows: Seq<(Vec<Cell>, Vec<KZGProof>)>, i: int)
    requires
        0 <= i <= rows.len(),
        spec_check_rows_from(rows, i) is Ok,
    ensures
        forall|r: int| i <= r < rows.len() ==> #[trigger] rows[r].0@.len() == NUMBER_OF_COLUMNS
            && rows[r].1@.len() == NUMBER_OF_COLUMNS,
    decreases rows.len() - i,
{
    if i < rows.len() {
        lemma_valid_rows_cover_columns(rows, i + 1);
    }
}

/// Validate cell/proof row shape before sidecar construction.
pub fn validate_cells_and_kzg_proofs(cells_and_kzg_proofs: &[(Vec<Cell>, Vec<KZGProof>)]) -> (r: Result<(), DataAvailabilityError>)
    ensures
        r == spec_validate_rows(cells_and_kzg_proofs@),
{
    let n = cells_and_kzg_proofs.len();
    if n as u64 > MAX_BLOB_COMMITMENTS_PER_BLOCK {
        return Err(DataAvailabilityError::TooManyBlobRows {
            rows: n,
            limit: MAX_BLOB_COMMITMENTS_PER_BLOCK as usize,
        });
    }
    let mut row: usize = 0;
    while row < n
        invariant
            row <= n,
            n == cells_and_kzg_proofs@.len(),
            n <= MAX_BLOB_COMMITMENTS_PER_BLOCK,
            spec_check_rows_from(cells_and_kzg_proofs@, 0) == spec_check_rows_from(cells_and_kzg_proofs@, row as int),
        decreases n - row,
    {
        let cells = cells_and_kzg_proofs[row].0.len();
        let proofs = cells_and_kzg_proofs[row].1.len();
        if cells != proofs {
            return Err(DataAvailabilityError::CellsProofsLengthMismatch { row, cells, proofs });
        }
        if cells as u64 != NUMBER_OF_COLUMNS || proofs as u64 != NUMBER_OF_COLUMNS {
            return Err(DataAvailabilityError::CellsProofsColumnCountMismatch {
                row,
                expected: NUMBER_OF_COLUMNS as usize,
                cells,
                proofs,
            });
        }
        row = row + 1;
    }
    Ok(())
}

/// Whether `sidecars` are the columns of `rows` for the block `(root, slot)`:
/// sidecar `c` carries column index `c` and, row by row, cell `c` and proof
/// `c` of each row.
pub open spec fn spec_is_column_split(
    sidecars: Seq<DataColumnSidecar>,
    beacon_block_root: Root,
    slot: Slot,
    rows: Seq<(Vec<Cell>, Vec<KZGProof>)>,
) -> bool {
    &&& sidecars.len() == NUMBER_OF_COLUMNS
    &&& forall|c: int| 0 <= c < NUMBER_OF_COLUMNS ==> {
        let sc = #[trigger] sidecars[c];
        &&& sc.index == ColumnIndex(c as u64)
        &&& sc.slot == slot
        &&& sc.beacon_block_root == beacon_block_root
        &&& sc.column@ == Seq::new(rows.len(), |r: int| rows[r].0@[c])
        &&& sc.kzg_proofs@ == Seq::new(rows.len(), |r: int| rows[r].1@[c])
    }
}

/// Column `c` of the rows: cell `c` and proof `c` of each row, in row order.
fn column_of_rows(cells_and_kzg_proofs: &[(Vec<Cell>, Vec<KZGProof>)], c: usize) -> (r: (Vec<Cell>, Vec<KZGProof>))
    requires
        c < NUMBER_OF_COLUMNS,
        forall|q: int|
            0 <= q < cells_and_kzg_proofs@.len() ==> #[trigger] cells_and_kzg_proofs@[q].0@.len() == NUMBER_OF_COLUMNS
                && cells_and_kzg_proofs@[q].1@.len() == NUMBER_OF_COLUMNS,
    ensures
        r.0@ == Seq::new(cells_and_kzg_proofs@.len(), |q: int| cells_and_kzg_proofs@[q].0@[c as int]),
        r.1@ == Seq::new(cells_and_kzg_proofs@.len(), |q: int| cells_and_kzg_proofs@[q].1@[c as int]),
{
    let ghost rows = cells_and_kzg_proofs@;
    let n = cells_and_kzg_proofs.len();
    let mut column: Vec<Cell> = Vec::new();
    let mut proofs: Vec<KZGProof> = Vec::new();
    let mut r: usize = 0;
    while r < n
        invariant
            r <= n,
            c < NUMBER_OF_COLUMNS,
            rows == cells_and_kzg_proofs@,
            n == rows.len(),
            forall|q: int| 0 <= q < rows.len() ==> #[trigger] rows[q].0@.len() == NUMBER_OF_COLUMNS
                && rows[q].1@.len() == NUMBER_OF_COLUMNS,
            column@ == Seq::new(r as nat, |q: int| rows[q].0@[c as int]),
            proofs@ == Seq::new(r as nat, |q: int| rows[q].1@[c as int]),
        decreases n - r,
    {
        assert(rows[r as int].0@.len() == NUMBER_OF_COLUMNS);
        column.push(cells_and_kzg_proofs[r].0[c]);
        proofs.push(cells_and_kzg_proofs[r].1[c]);
        r = r + 1;
        assert(column@ =~= Seq::new(r as nat, |q: int| rows[q].0@[c as int]));
        assert(proofs@ =~= Seq::new(r as nat, |q: int| rows[q].1@[c as int]));
    }
    (column, proofs)
}

/// Assemble data-column sidecars from blob-row cells and proofs.
pub fn get_data_column_sidecars(
    beacon_block_root: Root,
    slot: Slot,
    cells_and_kzg_proofs: &[(Vec<Cell>, Vec<KZGProof>)],
) -> (r: Result<Vec<DataColumnSidecar>, DataAvailabilityError>)
    ensures
        match spec_validate_rows(cells_and_kzg_proofs@) {
            Err(e) => r == Err::<Vec<DataColumnSidecar>, DataAvailabilityError>(e),
            Ok(()) => r matches Ok(v) && spec_is_column_split(v@, beacon_block_root, slot, cells_and_kzg_proofs@),
        },
{
    match validate_cells_and_kzg_proofs(cells_and_kzg_proofs) {
        Err(e) => {
            return Err(e);
        },
        Ok(()) => {},
    }
    let ghost rows = cells_and_kzg_proofs@;
    proof { lemma_valid_rows_cover_columns(rows, 0); }
    let n = cells_and_kzg_proofs.len();
    let mut sidecars: Vec<DataColumnSidecar> = Vec::new();
    let mut c: usize = 0;
    while c < NUMBER_OF_COLUMNS as usize
        invariant
            c <= NUMBER_OF_COLUMNS,
            rows == cells_and_kzg_proofs@,
            n == rows.len(),
            forall|r: int| 0 <= r < rows.len() ==> #[trigger] rows[r].0@.len() == NUMBER_OF_COLUMNS
                && rows[r].1@.len() == NUMBER_OF_COLUMNS,
            sidecars@.len() == c,
            forall|k: int| 0 <= k < c ==> {
                let sc = #[trigger] sidecars@[k];
                &&& sc.index == ColumnIndex(k as u64)
                &&& sc.slot == slot
                &&& sc.beacon_block_root == beacon_block_root
                &&& sc.column@ == Seq::new(rows.len(), |r: int| rows[r].0@[k])
                &&& sc.kzg_proofs@ == Seq::new(rows.len(), |r: int| rows[r].1@[k])
            },
        decreases NUMBER_OF_COLUMNS - c,
    {
        let (column, proofs) = column_of_rows(cells_and_kzg_proofs, c);
        let sidecar = DataColumnSidecar {
            index: ColumnIndex(c as u64),
            column: List { items: column },
            kzg_proofs: List { items: proofs },
            slot,
            beacon_block_root,
        };
        let ghost before = sidecars@;
        sidecars.push(sidecar);
        proof {
            assert forall|k: int| 0 <= k < c + 1 implies {
                let sc = #[trigger] sidecars@[k];
                &&& sc.index == ColumnIndex(k as u64)
                &&& sc.slot == slot
                &&& sc.beacon_block_root == beacon_block_root
                &&& sc.column@ == Seq::new(rows.len(), |r: int| rows[r].0@[k])
                &&& sc.kzg_proofs@ == Seq::new(rows.len(), |r: int| rows[r].1@[k])
            } by {
                if k < c {
                    assert(sidecars@[k] == before[k]);
                }
            }
        }
        c = c + 1;
    }
    Ok(sidecars)
}

/// Build the column sidecars of a signed block from the cells and proofs of
/// each of its blob rows, keyed by the block's hash-tree-root.
pub fn get_data_column_sidecars_from_block(
    signed_block: &crate::containers::block::SignedBeaconBlock,
    cells_and_kzg_proofs: &[(Vec<Cell>, Vec<KZGProof>)],
) -> (r: Result<Vec<DataColumnSidecar>, DataAvailabilityError>)
    requires
        signed_block.message.spec_fields_wf(),
    ensures
        match spec_validate_rows(cells_and_kzg_proofs@) {
            Err(e) => r == Err::<Vec<DataColumnSidecar>, DataAvailabilityError>(e),
            Ok(()) => r matches Ok(v) && exists|root: Root|
                root.0@ == signed_block.message.spec_root() && #[trigger] spec_is_column_split(
                    v@,
                    root,
                    signed_block.message.slot,
                    cells_and_kzg_proofs@,
                ),
        },
{
    let node = match signed_block.message.hash_tree_root() {
        Ok(n) => n,
        Err(e) => {
            return Err(DataAvailabilityError::Merkleization(e));
        },
    };
    let block_root = Root::from_node(node);
    get_data_column_sidecars(block_root, signed_block.message.slot, cells_and_kzg_proofs)
}

/// Rebuild sidecars from one known sidecar and full blob-row cells and proofs.
pub fn get_data_column_sidecars_from_column_sidecar(
    sidecar: &DataColumnSidecar,
    cells_and_kzg_proofs: &[(Vec<Cell>, Vec<KZGProof>)],
) -> (r: Result<Vec<DataColumnSidecar>, DataAvailabilityError>)
    ensures
        match spec_validate_rows(cells_and_kzg_proofs@) {
            Err(e) => r == Err::<Vec<DataColumnSidecar>, DataAvailabilityError>(e),
            Ok(()) => r matches Ok(v) && spec_is_column_split(
                v@,
                sidecar.beacon_block_root,
                sidecar.slot,
                cells_and_kzg_proofs@,
            ),
        },
{
    get_data_column_sidecars(sidecar.beacon_block_root, sidecar.slot, cells_and_kzg_proofs)
}

/// Verify the shape of a data column sidecar against block commitments.
pub fn verify_data_column_sidecar(
    sidecar: &DataColumnSidecar,
    kzg_commitments: &List<KZGCommitment, MAX_BLOB_COMMITMENTS_PER_BLOCK>,
) -> (r: bool)
    ensures
        r == (sidecar.index.0 < NUMBER_OF_COLUMNS
            && sidecar.column@.len() > 0
            && sidecar.column@.len() == kzg_commitments@.len()
            && sidecar.column@.len() == sidecar.kzg_proofs@.len()),
{
    if sidecar.index.0 >= NUMBER_OF_COLUMNS {
        return false;
    }
    if sidecar.column.is_empty() {
        return false;
    }
    if sidecar.column.len() != kzg_commitments.len() {
        return false;
    }
    if sidecar.column.len() != sidecar.kzg_proofs.len() {
        return false;
    }
    true
}

/// The number of set bits.
pub open spec fn spec_count_ones(bits: Seq<bool>) -> nat
    decreases bits.len(),
{
    if bits.len() == 0 {
        0
    } else {
        spec_count_ones(bits.drop_last()) + if bits.last() { 1nat } else { 0nat }
    }
}

/// Count the set bits of a bitlist.
pub fn bitlist_count_ones<const N: u64>(bits: &Bitlist<N>) -> (r: usize)
    ensures
        r == spec_count_ones(bits@),
{
    let n = bits.bits.len();
    let mut count: usize = 0;
    let mut i: usize = 0;
    while i < n
        invariant
            i <= n,
            n == bits@.len(),
            count == spec_count_ones(bits@.subrange(0, i as int)),
            count <= i,
        decreases n - i,
    {
        assert(bits@.subrange(0, i + 1).drop_last() =~= bits@.subrange(0, i as int));
        if bits.bits[i] {
            count = count + 1;
        }
        i = i + 1;
    }
    assert(bits@.subrange(0, n as int) =~= bits@);
    count
}

/// Verify the shape of a partial data column sidecar.
pub fn verify_partial_data_column_sidecar(
    sidecar: &PartialDataColumnSidecar,
    kzg_commitments: &List<KZGCommitment, MAX_BLOB_COMMITMENTS_PER_BLOCK>,
) -> (r: bool)
    ensures
        r == (sidecar.cells_present_bitmap@.len() == kzg_commitments@.len()
            && spec_count_ones(sidecar.cells_present_bitmap@) > 0
            && sidecar.partial_column@.len() == sidecar.kzg_proofs@.len()
            && sidecar.partial_column@.len() == spec_count_ones(sidecar.cells_present_bitmap@)),
{
    if sidecar.cells_present_bitmap.len() != kzg_commitments.len() {
        return false;
    }
    let ones = bitlist_count_ones(&sidecar.cells_present_bitmap);
    if ones == 0 {
        return false;
    }
    if sidecar.partial_column.len() != sidecar.kzg_proofs.len() {
        return false;
    }
    if sidecar.partial_column.len() != ones {
        return false;
    }
    true
}

/// Return the encoded partial data-column group identifier: the version
/// byte followed by the SSZ encoding of the identifier.
pub fn partial_data_column_group_id_bytes(group_id: &PartialDataColumnGroupID) -> (r: Result<Vec<u8>, DataAvailabilityError>)
    ensures
        r matches Ok(b) && b@ == seq![PARTIAL_DATA_COLUMN_GROUP_ID_VERSION] + group_id.spec_ssz(),
{
    let mut bytes: Vec<u8> = Vec::new();
    bytes.push(PARTIAL_DATA_COLUMN_GROUP_ID_VERSION);
    let ghost head = bytes@;
    match group_id.serialize(&mut bytes) {
        Ok(_) => {},
        Err(e) => {
            return Err(DataAvailabilityError::SszSerialize(e));
        },
    }
    assert(head =~= seq![PARTIAL_DATA_COLUMN_GROUP_ID_VERSION]);
    Ok(bytes)
}

/// Each custody draw reads the first eight bytes of the digest of its
/// identifier as a little-endian number and reduces it modulo the number of
/// custody groups.
pub proof fn lemma_custody_draw_reads_digest_head(node_id: Seq<u8>, k: nat)
    ensures
        ({
            let h = spec_sha256(spec_custody_id(node_id, k)).subrange(0, 8);
            spec_custody_group_at(node_id, k) as int == (h[0] as int + 0x100 * h[1] + 0x1_0000 * h[2] + 0x100_0000
                * h[3] + 0x1_0000_0000 * h[4] + 0x100_0000_0000 * h[5] + 0x1_0000_0000_0000 * h[6]
                + 0x100_0000_0000_0000 * h[7]) % 128
        }),
{
    let h = spec_sha256(spec_custody_id(node_id, k)).subrange(0, 8);
    let b0 = h[0];
    let b1 = h[1];
    let b2 = h[2];
    let b3 = h[3];
    let b4 = h[4];
    let b5 = h[5];
    let b6 = h[6];
    let b7 = h[7];
    assert((b0 as u64) | ((b1 as u64) << 8) | ((b2 as u64) << 16) | ((b3 as u64) << 24) | ((b4 as u64) << 32) | ((
    b5 as u64) << 40) | ((b6 as u64) << 48) | ((b7 as u64) << 56) == b0 + 0x100 * b1 + 0x1_0000 * b2 + 0x100_0000
        * b3 + 0x1_0000_0000 * b4 + 0x100_0000_0000 * b5 + 0x1_0000_0000_0000 * b6 + 0x100_0000_0000_0000 * b7)
        by (bit_vector);
}

/// The `k`-th custody identifier is the node identifier plus `k`, read as a
/// little-endian number that wraps at its width.
pub proof fn lemma_custody_id_counts_up(node_id: Seq<u8>, k: nat)
    ensures
        spec_custody_id(node_id, k).len() == node_id.len(),
        spec_le_value(spec_custody_id(node_id, k)) as int == (spec_le_value(node_id) + k) as int % pow(256, node_id.len()),
    decreases k,
{
    if k == 0 {
        lemma_le_value_bound(node_id);
        vstd::arithmetic::div_mod::lemma_small_mod(spec_le_value(node_id), pow(256, node_id.len()) as nat);
    } else {
        let prev = spec_custody_id(node_id, (k - 1) as nat);
        lemma_custody_id_counts_up(node_id, (k - 1) as nat);
        lemma_le_increment_value(prev);
        lemma_le_value_bound(node_id);
        vstd::arithmetic::power::lemma_pow_positive(256, node_id.len());
        vstd::arithmetic::div_mod::lemma_add_mod_noop_right(
            1,
            spec_le_value(node_id) + k - 1,
            pow(256, node_id.len()),
        );
    }
}

/// The sorted members of `groups` below `n` are strictly increasing, all
/// below `n`, and hold each number below `n` exactly when `groups` does.
pub proof fn lemma_sorted_members(groups: Seq<u64>, n: nat)
    requires
        n <= u64::MAX + 1,
    ensures
        forall|i: int, j: int|
            0 <= i < j < spec_sorted_members(groups, n).len() ==> (#[trigger] spec_sorted_members(groups, n)[i]).0
                < (#[trigger] spec_sorted_members(groups, n)[j]).0,
        forall|i: int| 0 <= i < spec_sorted_members(groups, n).len() ==> (#[trigger] spec_sorted_members(groups, n)[i]).0 < n,
        forall|x: u64| x < n ==> (groups.contains(x) <==> #[trigger] spec_sorted_members(groups, n).contains(CustodyIndex(x))),
    decreases n,
{
    if n > 0 {
        let m = (n - 1) as nat;
        lemma_sorted_members(groups, m);
        let prefix = spec_sorted_members(groups, m);
        let s = spec_sorted_members(groups, n);
        assert forall|x: u64| x < n implies (groups.contains(x) <==> #[trigger] s.contains(CustodyIndex(x))) by {
            if x < m {
                if s.contains(CustodyIndex(x)) {
                    let i = choose|i: int| 0 <= i < s.len() && s[i] == CustodyIndex(x);
                    if i < prefix.len() {
                        assert(prefix[i] == CustodyIndex(x));
                    }
                }
                if prefix.contains(CustodyIndex(x)) {
                    let i = choose|i: int| 0 <= i < prefix.len() && prefix[i] == CustodyIndex(x);
                    assert(s[i] == CustodyIndex(x));
                }
            } else {
                assert(x == m);
                if groups.contains(x) {
                    assert(s[s.len() - 1] == CustodyIndex(x));
                } else {
                    assert(s == prefix);
                    if s.contains(CustodyIndex(x)) {
                        let i = choose|i: int| 0 <= i < s.len() && s[i] == CustodyIndex(x);
                        assert(prefix[i].0 < m);
                    }
                }
            }
        }
    }
}

} // verus!
