//! Encoding, decoding and merkleization of a homogeneous sequence of items,
//! the common core of SSZ lists and vectors.
//!
//! Fixed-size items encode back to back. Variable-size items encode as a
//! table of 4-byte offsets, one per item and each counted from the start of
//! the table, followed by the items' encodings in order.
use vstd::prelude::*;
use vstd::slice::slice_subrange;

use super::codec::{
    depth_for_limit, lemma_concat_from_cuts, lemma_concat_len, lemma_concat_piece,
    lemma_le32_from_bytes, lemma_le32_roundtrip, lemma_prefix_len_mono, lemma_prefix_len_nonneg,
    merkleize_chunks_to_depth, push_le32, read_le32, spec_concat, spec_le32, spec_le32_value,
    spec_merkleize_limit, spec_prefix_len, SszCodec,
};
use super::error::DeserializeError;
use super::merkle::{nodes_view, pack_bytes, spec_pack};

verus! {

/// Whether every item respects its type's bounds.
pub open spec fn spec_items_wf<T: SszCodec>(items: Seq<T>) -> bool {
    forall|i: int| 0 <= i < items.len() ==> #[trigger] items[i].spec_wf()
}

/// The items' encodings, in order.
pub open spec fn spec_item_encodings<T: SszCodec>(items: Seq<T>) -> Seq<Seq<u8>> {
    Seq::new(items.len(), |i: int| items[i].spec_encoding())
}

/// The offset table for variable-size items with the given encodings.
pub open spec fn spec_offset_pieces(encs: Seq<Seq<u8>>) -> Seq<Seq<u8>> {
    Seq::new(encs.len(), |i: int| spec_le32((4 * encs.len() + spec_prefix_len(encs, i)) as nat))
}

/// The SSZ encoding of a sequence of items.
pub open spec fn spec_seq_encoding<T: SszCodec>(items: Seq<T>) -> Seq<u8> {
    let encs = spec_item_encodings(items);
    if T::spec_fixed_size() is Some {
        spec_concat(encs)
    } else {
        spec_concat(spec_offset_pieces(encs) + encs)
    }
}

/// The chunks a sequence of items is merkleized from: packed encodings for
/// basic items, the items' roots otherwise.
pub open spec fn spec_seq_chunks<T: SszCodec>(items: Seq<T>) -> Seq<Seq<u8>> {
    if T::spec_packed() {
        spec_pack(spec_concat(spec_item_encodings(items)))
    } else {
        Seq::new(items.len(), |i: int| items[i].spec_tree_root())
    }
}

/// How many chunks `n` items may take: `n` unless they are packed.
pub open spec fn spec_chunk_limit<T: SszCodec>(n: nat) -> nat {
    if T::spec_packed() {
        match T::spec_fixed_size() {
            Some(s) => ((n * s + 31) / 32) as nat,
            None => n,
        }
    } else {
        n
    }
}

/// The merkle root of a sequence of at most `limit` items.
pub open spec fn spec_seq_root<T: SszCodec>(items: Seq<T>, limit: nat) -> Seq<u8> {
    spec_merkleize_limit(spec_seq_chunks(items), spec_chunk_limit::<T>(limit))
}

/// Prefix lengths of pieces that all have length `s`.
pub proof fn lemma_prefix_len_uniform(pieces: Seq<Seq<u8>>, s: nat, k: int)
    requires
        0 <= k <= pieces.len(),
        forall|i: int| 0 <= i < pieces.len() ==> #[trigger] pieces[i].len() == s,
    ensures
        spec_prefix_len(pieces, k) == k * s,
    decreases k,
{
    if k > 0 {
        lemma_prefix_len_uniform(pieces, s, k - 1);
        assert((k - 1) * s + s == k * s) by (nonlinear_arith);
    }
}

/// Prefix lengths of two sequences laid end to end.
pub proof fn lemma_prefix_len_append(a: Seq<Seq<u8>>, b: Seq<Seq<u8>>, k: int)
    requires
        a.len() <= k <= a.len() + b.len(),
    ensures
        spec_prefix_len(a + b, k) == spec_prefix_len(a, a.len() as int) + spec_prefix_len(b, k - a.len()),
        forall|j: int| 0 <= j <= a.len() ==> #[trigger] spec_prefix_len(a + b, j) == spec_prefix_len(a, j),
    decreases k,
{
    assert forall|j: int| 0 <= j <= a.len() implies #[trigger] spec_prefix_len(a + b, j) == spec_prefix_len(a, j) by {
        lemma_prefix_len_append_front(a, b, j);
    }
    if k > a.len() {
        lemma_prefix_len_append(a, b, k - 1);
        assert((a + b)[k - 1] == b[k - 1 - a.len()]);
    }
}

/// Prefix lengths within the first sequence of two laid end to end.
proof fn lemma_prefix_len_append_front(a: Seq<Seq<u8>>, b: Seq<Seq<u8>>, j: int)
    requires
        0 <= j <= a.len(),
    ensures
        spec_prefix_len(a + b, j) == spec_prefix_len(a, j),
    decreases j,
{
    if j > 0 {
        lemma_prefix_len_append_front(a, b, j - 1);
        assert((a + b)[j - 1] == a[j - 1]);
    }
}

/// Append each item's encoding.
fn encode_each<T: SszCodec>(items: &[T], buffer: &mut Vec<u8>)
    requires
        spec_items_wf(items@),
        forall|i: int| 0 <= i < items@.len() ==> #[trigger] items@[i].spec_encoding().len() <= u32::MAX,
    ensures
        final(buffer)@ == old(buffer)@ + spec_concat(spec_item_encodings(items@)),
{
    let ghost encs = spec_item_encodings(items@);
    let ghost start = buffer@;
    let n = items.len();
    let mut i: usize = 0;
    while i < n
        invariant
            n == items@.len(),
            i <= n,
            encs == spec_item_encodings(items@),
            spec_items_wf(items@),
            forall|k: int| 0 <= k < items@.len() ==> #[trigger] items@[k].spec_encoding().len() <= u32::MAX,
            buffer@ == start + spec_concat(encs.subrange(0, i as int)),
        decreases n - i,
    {
        assert(items@[i as int].spec_wf());
        items[i].ssz_encode(buffer);
        proof {
            assert(encs.subrange(0, i + 1).drop_last() =~= encs.subrange(0, i as int));
        }
        i = i + 1;
    }
    assert(encs.subrange(0, n as int) =~= encs);
}

/// Every item's encoding fits in the whole encoding.
proof fn lemma_item_encodings_fit<T: SszCodec>(items: Seq<T>)
    ensures
        forall|i: int| 0 <= i < items.len() ==> #[trigger] items[i].spec_encoding().len()
            <= spec_seq_encoding(items).len(),
{
    let encs = spec_item_encodings(items);
    assert forall|i: int| 0 <= i < items.len() implies #[trigger] items[i].spec_encoding().len()
        <= spec_seq_encoding(items).len() by {
        lemma_prefix_len_nonneg(encs, i);
        if T::spec_fixed_size() is Some {
            lemma_concat_piece(encs, i);
        } else {
            let all = spec_offset_pieces(encs) + encs;
            lemma_concat_piece(all, encs.len() + i);
            lemma_prefix_len_nonneg(all, encs.len() + i);
            assert(all[encs.len() + i] == encs[i]);
        }
    }
}

/// Append the encoding of a sequence of items.
pub fn encode_items<T: SszCodec>(items: &[T], buffer: &mut Vec<u8>)
    requires
        spec_items_wf(items@),
        spec_seq_encoding(items@).len() <= u32::MAX,
    ensures
        final(buffer)@ == old(buffer)@ + spec_seq_encoding(items@),
{
    proof { lemma_item_encodings_fit(items@); }
    let ghost encs = spec_item_encodings(items@);
    match T::ssz_fixed_size() {
        Some(_) => {
            encode_each(items, buffer);
        },
        None => {
            let ghost offs = spec_offset_pieces(encs);
            let ghost start = buffer@;
            let n = items.len();
            proof {
                lemma_concat_len(offs + encs);
                lemma_prefix_len_append(offs, encs, (offs.len() + encs.len()) as int);
                lemma_prefix_len_uniform(offs, 4, offs.len() as int);
                assert(4 * n + spec_prefix_len(encs, n as int) <= u32::MAX);
            }
            let mut body: Vec<u8> = Vec::new();
            let mut starts: Vec<usize> = Vec::new();
            let mut i: usize = 0;
            while i < n
                invariant
                    n == items@.len(),
                    i <= n,
                    encs == spec_item_encodings(items@),
                    spec_items_wf(items@),
                    forall|k: int| 0 <= k < items@.len() ==> #[trigger] items@[k].spec_encoding().len() <= u32::MAX,
                    4 * n + spec_prefix_len(encs, n as int) <= u32::MAX,
                    body@ == spec_concat(encs.subrange(0, i as int)),
                    body@.len() == spec_prefix_len(encs, i as int),
                    starts@.len() == i,
                    forall|k: int| 0 <= k < i ==> #[trigger] starts@[k] == spec_prefix_len(encs, k),
                decreases n - i,
            {
                proof {
                    lemma_prefix_len_mono(encs, i as int, n as int);
                }
                starts.push(body.len());
                assert(items@[i as int].spec_wf());
                items[i].ssz_encode(&mut body);
                proof {
                    assert(encs.subrange(0, i + 1).drop_last() =~= encs.subrange(0, i as int));
                }
                i = i + 1;
            }
            assert(encs.subrange(0, n as int) =~= encs);
            let mut j: usize = 0;
            while j < n
                invariant
                    n == items@.len(),
                    j <= n,
                    encs == spec_item_encodings(items@),
                    offs == spec_offset_pieces(encs),
                    4 * n + spec_prefix_len(encs, n as int) <= u32::MAX,
                    starts@.len() == n,
                    forall|k: int| 0 <= k < n ==> #[trigger] starts@[k] == spec_prefix_len(encs, k),
                    buffer@ == start + spec_concat(offs.subrange(0, j as int)),
                decreases n - j,
            {
                proof {
                    lemma_prefix_len_mono(encs, j as int, n as int);
                }
                let off = (4 * n + starts[j]) as u32;
                push_le32(buffer, off);
                proof {
                    assert(offs.subrange(0, j + 1).drop_last() =~= offs.subrange(0, j as int));
                }
                j = j + 1;
            }
            assert(offs.subrange(0, n as int) =~= offs);
            buffer.append(&mut body);
            proof {
                lemma_concat_append(offs, encs);
            }
        },
    }
}

/// The concatenation of two sequences laid end to end.
pub proof fn lemma_concat_append(a: Seq<Seq<u8>>, b: Seq<Seq<u8>>)
    ensures
        spec_concat(a + b) == spec_concat(a) + spec_concat(b),
    decreases b.len(),
{
    if b.len() == 0 {
        assert(a + b =~= a);
        assert(spec_concat(a) + spec_concat(b) =~= spec_concat(a));
    } else {
        assert((a + b).drop_last() =~= a + b.drop_last());
        lemma_concat_append(a, b.drop_last());
        assert(spec_concat(a) + spec_concat(b) =~= spec_concat(a) + spec_concat(b.drop_last()) + b.last());
    }
}

/// Where a fixed-size item sits in the encoding of a sequence.
pub proof fn lemma_fixed_encoding_facts<T: SszCodec>(w: Seq<T>, s: nat)
    requires
        T::spec_fixed_size() == Some(s),
        spec_items_wf(w),
    ensures
        spec_seq_encoding(w).len() == w.len() * s,
        forall|k: int| 0 <= k < w.len() ==> spec_seq_encoding(w).subrange(k * s, k * s + s)
            == #[trigger] w[k].spec_encoding(),
{
    let encs = spec_item_encodings(w);
    assert forall|i: int| 0 <= i < encs.len() implies #[trigger] encs[i].len() == s by {
        T::lemma_shape(&w[i]);
    }
    lemma_concat_len(encs);
    lemma_prefix_len_uniform(encs, s, w.len() as int);
    assert forall|k: int| 0 <= k < w.len() implies spec_seq_encoding(w).subrange(k * s, k * s + s)
        == #[trigger] w[k].spec_encoding() by {
        lemma_concat_piece(encs, k);
        lemma_prefix_len_uniform(encs, s, k);
    }
}

/// Decode back-to-back items of size `s`.
fn decode_fixed_items<T: SszCodec>(bytes: &[u8], s: usize, max: u64) -> (r: Result<Vec<T>, DeserializeError>)
    requires
        T::spec_fixed_size() == Some(s as nat),
    ensures
        r matches Ok(v) ==> v@.len() <= max && spec_items_wf(v@) && spec_seq_encoding(v@) == bytes@,
        r matches Ok(v) ==> forall|w: Seq<T>| spec_items_wf(w) && #[trigger] spec_seq_encoding(w) == bytes@
            ==> w.len() == v@.len(),
        bytes@.len() <= u32::MAX && (exists|w: Seq<T>| w.len() <= max && spec_items_wf(w)
            && #[trigger] spec_seq_encoding(w) == bytes@) ==> r is Ok,
{
    let len = bytes.len();
    proof { T::lemma_layout(); }
    proof {
        assert forall|w: Seq<T>| spec_items_wf(w) && #[trigger] spec_seq_encoding(w) == bytes@
            implies w.len() * s == len by {
            lemma_fixed_encoding_facts(w, s as nat);
        }
    }
    if len % s != 0 {
        proof {
            if exists|w: Seq<T>| w.len() <= max && spec_items_wf(w) && #[trigger] spec_seq_encoding(w) == bytes@ {
                let w = choose|w: Seq<T>| w.len() <= max && spec_items_wf(w) && #[trigger] spec_seq_encoding(w) == bytes@;
                assert((w.len() * s) % (s as int) == 0) by (nonlinear_arith) requires s > 0;
            }
        }
        assert(len % s <= len) by (nonlinear_arith) requires s > 0;
        return Err(DeserializeError::AdditionalInput { provided: len, expected: len - len % s });
    }
    let count = len / s;
    proof {
        assert(count * s == len) by (nonlinear_arith) requires count == len / s, len % s == 0, s > 0;
        assert forall|w: Seq<T>| spec_items_wf(w) && #[trigger] spec_seq_encoding(w) == bytes@
            implies w.len() == count by {
            assert(w.len() * s == len);
            assert(w.len() == count) by (nonlinear_arith) requires w.len() * s == len, count * s == len, s > 0;
        }
    }
    if count as u64 > max {
        return Err(DeserializeError::TooManyItems { count, limit: max });
    }
    let mut out: Vec<T> = Vec::new();
    let mut i: usize = 0;
    while i < count
        invariant
            T::spec_fixed_size() == Some(s as nat),
            s > 0,
            len == bytes@.len(),
            count * s == len,
            count <= max,
            i <= count,
            out@.len() == i,
            spec_items_wf(out@),
            forall|k: int| 0 <= k < i ==> #[trigger] out@[k].spec_encoding() == bytes@.subrange(k * s, k * s + s),
            forall|w: Seq<T>| spec_items_wf(w) && #[trigger] spec_seq_encoding(w) == bytes@ ==> w.len() == count,
        decreases count - i,
    {
        proof {
            assert(i * s + s <= count * s) by (nonlinear_arith) requires i < count, s > 0;
        }
        let piece = slice_subrange(bytes, i * s, i * s + s);
        match T::ssz_decode(piece) {
            Ok(x) => {
                out.push(x);
            },
            Err(e) => {
                proof {
                    if exists|w: Seq<T>| w.len() <= max && spec_items_wf(w) && #[trigger] spec_seq_encoding(w) == bytes@ {
                        let w = choose|w: Seq<T>| w.len() <= max && spec_items_wf(w) && #[trigger] spec_seq_encoding(w) == bytes@;
                        lemma_fixed_encoding_facts(w, s as nat);
                        assert(w[i as int].spec_wf());
                        assert(w[i as int].spec_encoding() == piece@);
                    }
                }
                return Err(e);
            },
        }
        i = i + 1;
    }
    proof {
        let encs = spec_item_encodings(out@);
        assert forall|k: int| 0 <= k < encs.len() implies #[trigger] encs[k].len() == s by {
            T::lemma_shape(&out@[k]);
        }
        lemma_prefix_len_uniform(encs, s as nat, count as int);
        assert forall|k: int| 0 <= k < encs.len() implies bytes@.subrange(
            spec_prefix_len(encs, k) as int,
            spec_prefix_len(encs, k) + encs[k].len(),
        ) == #[trigger] encs[k] by {
            lemma_prefix_len_uniform(encs, s as nat, k);
        }
        lemma_concat_from_cuts(bytes@, encs);
    }
    Ok(out)
}

/// Where the offsets and items sit in the encoding of a non-empty sequence of
/// variable-size items.
proof fn lemma_variable_encoding_facts<T: SszCodec>(w: Seq<T>)
    requires
        T::spec_fixed_size() is None,
        w.len() > 0,
        spec_seq_encoding(w).len() <= u32::MAX,
    ensures
        ({
            let e = spec_seq_encoding(w);
            let encs = spec_item_encodings(w);
            let n = w.len() as int;
            &&& e.len() == 4 * n + spec_prefix_len(encs, n)
            &&& forall|k: int| 0 <= k < n ==> spec_le32_value(#[trigger] e.subrange(4 * k, 4 * k + 4))
                == 4 * n + spec_prefix_len(encs, k)
            &&& forall|k: int| 0 <= k < n ==> e.subrange(
                4 * n + spec_prefix_len(encs, k),
                4 * n + spec_prefix_len(encs, k + 1),
            ) == #[trigger] encs[k]
            &&& forall|j: int, k: int| 0 <= j <= k <= n ==> #[trigger] spec_prefix_len(encs, j)
                <= #[trigger] spec_prefix_len(encs, k)
        }),
{
    let e = spec_seq_encoding(w);
    let encs = spec_item_encodings(w);
    let offs = spec_offset_pieces(encs);
    let all = offs + encs;
    let n = w.len() as int;
    lemma_concat_len(all);
    lemma_prefix_len_append(offs, encs, 2 * n);
    lemma_prefix_len_uniform(offs, 4, n);
    assert forall|k: int| 0 <= k < n implies spec_le32_value(#[trigger] e.subrange(4 * k, 4 * k + 4))
        == 4 * n + spec_prefix_len(encs, k) by {
        lemma_concat_piece(all, k);
        lemma_prefix_len_uniform(offs, 4, k);
        lemma_prefix_len_mono(encs, k, n);
        assert(all[k] == offs[k]);
        lemma_le32_roundtrip((4 * n + spec_prefix_len(encs, k)) as nat);
    }
    assert forall|k: int| 0 <= k < n implies e.subrange(
        4 * n + spec_prefix_len(encs, k),
        4 * n + spec_prefix_len(encs, k + 1),
    ) == #[trigger] encs[k] by {
        lemma_concat_piece(all, n + k);
        lemma_prefix_len_append(offs, encs, n + k);
        assert(all[n + k] == encs[k]);
    }
    assert forall|j: int, k: int| 0 <= j <= k <= n implies #[trigger] spec_prefix_len(encs, j)
        <= #[trigger] spec_prefix_len(encs, k) by {
        lemma_prefix_len_mono(encs, j, k);
    }
}

/// The offsets a non-empty sequence of variable-size items is encoded with.
pub open spec fn spec_expected_offsets<T: SszCodec>(w: Seq<T>) -> Seq<int> {
    Seq::new(w.len(), |k: int| 4 * w.len() + spec_prefix_len(spec_item_encodings(w), k))
}

/// Read the offset table of `count` items, checking that it starts at the
/// end of the table, never goes backwards and stays inside the input.
fn read_offsets(bytes: &[u8], count: usize, Ghost(expected): Ghost<Option<Seq<int>>>) -> (r: Result<Vec<usize>, DeserializeError>)
    requires
        count > 0,
        4 * count <= bytes@.len(),
        spec_le32_value(bytes@.subrange(0, 4)) == 4 * count,
        expected matches Some(e) ==> {
            &&& e.len() == count
            &&& forall|k: int| 0 <= k < count ==> spec_le32_value(#[trigger] bytes@.subrange(4 * k, 4 * k + 4)) == e[k]
            &&& forall|j: int, k: int| 0 <= j <= k < count ==> #[trigger] e[j] <= #[trigger] e[k]
            &&& forall|k: int| 0 <= k < count ==> #[trigger] e[k] <= bytes@.len()
        },
    ensures
        r matches Ok(v) ==> {
            &&& v@.len() == count
            &&& v@[0] == 4 * count
            &&& forall|k: int| 0 <= k < count ==> #[trigger] v@[k] as int == spec_le32_value(bytes@.subrange(4 * k, 4 * k + 4))
            &&& forall|k: int| 0 <= k < count ==> #[trigger] v@[k] <= bytes@.len()
            &&& forall|j: int, k: int| 0 <= j <= k < count ==> #[trigger] v@[j] <= #[trigger] v@[k]
        },
        expected is Some ==> r is Ok,
{
    let len = bytes.len();
    let first = 4 * count;
    let mut offsets: Vec<usize> = Vec::new();
    let mut i: usize = 0;
    let mut prev: usize = first;
    while i < count
        invariant
            len == bytes@.len(),
            first == 4 * count,
            4 * count <= len,
            spec_le32_value(bytes@.subrange(0, 4)) == 4 * count,
            i <= count,
            offsets@.len() == i,
            prev == (if i == 0 { first as int } else { offsets@[i - 1] as int }),
            forall|k: int| 0 <= k < i ==> #[trigger] offsets@[k] as int == spec_le32_value(bytes@.subrange(4 * k, 4 * k + 4)),
            forall|k: int| 0 <= k < i ==> #[trigger] offsets@[k] <= len,
            forall|j: int, k: int| 0 <= j <= k < i ==> #[trigger] offsets@[j] <= #[trigger] offsets@[k],
            i > 0 ==> offsets@[0] == first,
            expected matches Some(e) ==> {
                &&& e.len() == count
                &&& forall|k: int| 0 <= k < count ==> spec_le32_value(#[trigger] bytes@.subrange(4 * k, 4 * k + 4)) == e[k]
                &&& forall|j: int, k: int| 0 <= j <= k < count ==> #[trigger] e[j] <= #[trigger] e[k]
                &&& forall|k: int| 0 <= k < count ==> #[trigger] e[k] <= len
            },
        decreases count - i,
    {
        let o = read_le32(bytes, 4 * i) as usize;
        if o < prev || o > len {
            proof {
                if expected is Some {
                    let e = expected->Some_0;
                    assert(e[i as int] == o);
                    if i > 0 {
                        assert(e[i - 1] == offsets@[i - 1]);
                        assert(e[i - 1] <= e[i as int]);
                    } else {
                        assert(bytes@.subrange(0, 4) == bytes@.subrange(4 * 0int, 4 * 0int + 4));
                    }
                }
            }
            return Err(DeserializeError::InvalidOffset(o));
        }
        proof {
            if i == 0 {
                assert(bytes@.subrange(0, 4) == bytes@.subrange(4 * 0int, 4 * 0int + 4));
            }
        }
        offsets.push(o);
        prev = o;
        i = i + 1;
    }
    Ok(offsets)
}

/// The end of item `q`: the next offset, or the end of the input.
pub open spec fn spec_item_end(offsets: Seq<usize>, q: int, len: int) -> int {
    if q + 1 < offsets.len() {
        offsets[q + 1] as int
    } else {
        len
    }
}

/// Decode each item from the bytes between its offset and the next.
fn decode_slices<T: SszCodec>(bytes: &[u8], offsets: &Vec<usize>, Ghost(expected): Ghost<Option<Seq<T>>>) -> (r: Result<Vec<T>, DeserializeError>)
    requires
        forall|k: int| 0 <= k < offsets@.len() ==> #[trigger] offsets@[k] <= bytes@.len(),
        forall|j: int, k: int| 0 <= j <= k < offsets@.len() ==> #[trigger] offsets@[j] <= #[trigger] offsets@[k],
        expected matches Some(w) ==> {
            &&& w.len() == offsets@.len()
            &&& spec_items_wf(w)
            &&& bytes@.len() <= u32::MAX
            &&& forall|q: int| 0 <= q < w.len() ==> bytes@.subrange(
                offsets@[q] as int,
                spec_item_end(offsets@, q, bytes@.len() as int),
            ) == #[trigger] w[q].spec_encoding()
        },
    ensures
        r matches Ok(v) ==> {
            &&& v@.len() == offsets@.len()
            &&& spec_items_wf(v@)
            &&& forall|q: int| 0 <= q < v@.len() ==> #[trigger] v@[q].spec_encoding() == bytes@.subrange(
                offsets@[q] as int,
                spec_item_end(offsets@, q, bytes@.len() as int),
            )
        },
        expected is Some ==> r is Ok,
{
    let len = bytes.len();
    let count = offsets.len();
    let mut out: Vec<T> = Vec::new();
    let mut k: usize = 0;
    while k < count
        invariant
            len == bytes@.len(),
            count == offsets@.len(),
            k <= count,
            forall|q: int| 0 <= q < count ==> #[trigger] offsets@[q] <= len,
            forall|j: int, q: int| 0 <= j <= q < count ==> #[trigger] offsets@[j] <= #[trigger] offsets@[q],
            out@.len() == k,
            spec_items_wf(out@),
            forall|q: int| 0 <= q < k ==> #[trigger] out@[q].spec_encoding() == bytes@.subrange(
                offsets@[q] as int,
                spec_item_end(offsets@, q, len as int),
            ),
            expected matches Some(w) ==> {
                &&& w.len() == count
                &&& spec_items_wf(w)
                &&& len <= u32::MAX
                &&& forall|q: int| 0 <= q < w.len() ==> bytes@.subrange(
                    offsets@[q] as int,
                    spec_item_end(offsets@, q, len as int),
                ) == #[trigger] w[q].spec_encoding()
            },
        decreases count - k,
    {
        let start = offsets[k];
        let end = if k + 1 < count { offsets[k + 1] } else { len };
        let piece = slice_subrange(bytes, start, end);
        match T::ssz_decode(piece) {
            Ok(x) => {
                out.push(x);
            },
            Err(e) => {
                proof {
                    if expected is Some {
                        let w = expected->Some_0;
                        assert(w[k as int].spec_wf());
                        assert(w[k as int].spec_encoding() == piece@);
                    }
                }
                return Err(e);
            },
        }
        k = k + 1;
    }
    Ok(out)
}

/// Decode variable-size items behind their offset table.
fn decode_variable_items<T: SszCodec>(bytes: &[u8], max: u64) -> (r: Result<Vec<T>, DeserializeError>)
    requires
        T::spec_fixed_size() is None,
    ensures
        r matches Ok(v) ==> v@.len() <= max && spec_items_wf(v@) && spec_seq_encoding(v@) == bytes@,
        r matches Ok(v) ==> forall|w: Seq<T>| spec_items_wf(w) && #[trigger] spec_seq_encoding(w) == bytes@
            && bytes@.len() <= u32::MAX ==> w.len() == v@.len(),
        bytes@.len() <= u32::MAX && (exists|w: Seq<T>| w.len() <= max && spec_items_wf(w)
            && #[trigger] spec_seq_encoding(w) == bytes@) ==> r is Ok,
{
    let len = bytes.len();
    proof {
        assert forall|w: Seq<T>| spec_items_wf(w) && #[trigger] spec_seq_encoding(w) == bytes@
            && bytes@.len() <= u32::MAX && w.len() > 0 implies {
                &&& bytes@.len() >= 4
                &&& spec_le32_value(bytes@.subrange(0, 4)) == 4 * w.len()
                &&& 4 * w.len() <= bytes@.len()
            } by {
            lemma_variable_encoding_facts(w);
            lemma_prefix_len_nonneg(spec_item_encodings(w), w.len() as int);
            assert(bytes@.subrange(0, 4) == bytes@.subrange(4 * 0int, 4 * 0int + 4));
        }
        assert forall|w: Seq<T>| #[trigger] spec_seq_encoding(w) == bytes@ && w.len() == 0 implies bytes@.len() == 0 by {
            assert(spec_offset_pieces(spec_item_encodings(w)) + spec_item_encodings(w) =~= Seq::<Seq<u8>>::empty());
        }
    }
    if len == 0 {
        let out: Vec<T> = Vec::new();
        proof {
            let encs = spec_item_encodings(out@);
            assert(spec_offset_pieces(encs) + encs =~= Seq::<Seq<u8>>::empty());
        }
        return Ok(out);
    }
    if len < 4 {
        return Err(DeserializeError::ExpectedFurtherInput { provided: len, expected: 4 });
    }
    let first = read_le32(bytes, 0) as usize;
    proof {
        if bytes@.len() <= u32::MAX && exists|w: Seq<T>| w.len() <= max && spec_items_wf(w)
            && #[trigger] spec_seq_encoding(w) == bytes@ {
            let w = choose|w: Seq<T>| w.len() <= max && spec_items_wf(w) && #[trigger] spec_seq_encoding(w) == bytes@;
            if w.len() == 0 {
                assert(bytes@.len() == 0);
            }
            assert(first == 4 * w.len());
        }
    }
    if first % 4 != 0 || first == 0 || first > len {
        return Err(DeserializeError::InvalidOffset(first));
    }
    let count = first / 4;
    if count as u64 > max {
        return Err(DeserializeError::TooManyItems { count, limit: max });
    }
    let ghost has_witness = bytes@.len() <= u32::MAX && exists|w: Seq<T>| w.len() <= max && spec_items_wf(w)
        && #[trigger] spec_seq_encoding(w) == bytes@;
    let ghost wit: Seq<T> = choose|w: Seq<T>| w.len() <= max && spec_items_wf(w) && #[trigger] spec_seq_encoding(w) == bytes@;
    proof {
        if has_witness {
            lemma_variable_encoding_facts(wit);
            assert(wit.len() == count);
        }
    }
    let offsets = match read_offsets(bytes, count, Ghost(if has_witness { Some(spec_expected_offsets(wit)) } else { None })) {
        Ok(o) => o,
        Err(e) => {
            return Err(e);
        },
    };
    proof {
        if has_witness {
            let encs = spec_item_encodings(wit);
            assert forall|q: int| 0 <= q < wit.len() implies bytes@.subrange(
                offsets@[q] as int,
                spec_item_end(offsets@, q, len as int),
            ) == #[trigger] wit[q].spec_encoding() by {
                assert(offsets@[q] == 4 * wit.len() + spec_prefix_len(encs, q));
                if q + 1 < count {
                    assert(offsets@[q + 1] == 4 * wit.len() + spec_prefix_len(encs, q + 1));
                }
                assert(encs[q] == wit[q].spec_encoding());
            }
        }
    }
    let out = match decode_slices(bytes, &offsets, Ghost(if has_witness { Some(wit) } else { None })) {
        Ok(o) => o,
        Err(e) => {
            return Err(e);
        },
    };
    proof {
        lemma_offsets_give_encoding(bytes@, offsets@, out@);
    }
    Ok(out)
}

/// Items decoded from the slices an offset table marks out, with the table
/// read from the input, encode back to the input.
proof fn lemma_offsets_give_encoding<T: SszCodec>(bytes: Seq<u8>, offsets: Seq<usize>, out: Seq<T>)
    requires
        T::spec_fixed_size() is None,
        offsets.len() > 0,
        out.len() == offsets.len(),
        offsets[0] == 4 * offsets.len(),
        forall|k: int| 0 <= k < offsets.len() ==> #[trigger] offsets[k] as int == spec_le32_value(bytes.subrange(4 * k, 4 * k + 4)),
        forall|k: int| 0 <= k < offsets.len() ==> #[trigger] offsets[k] <= bytes.len(),
        forall|j: int, k: int| 0 <= j <= k < offsets.len() ==> #[trigger] offsets[j] <= #[trigger] offsets[k],
        forall|q: int| 0 <= q < out.len() ==> #[trigger] out[q].spec_encoding() == bytes.subrange(
            offsets[q] as int,
            spec_item_end(offsets, q, bytes.len() as int),
        ),
    ensures
        spec_seq_encoding(out) == bytes,
{
    let encs = spec_item_encodings(out);
    let n = out.len() as int;
    assert forall|k: int| 0 <= k < n implies #[trigger] encs[k] == bytes.subrange(
        offsets[k] as int,
        spec_item_end(offsets, k, bytes.len() as int),
    ) && encs[k].len() == spec_item_end(offsets, k, bytes.len() as int) - offsets[k] by {
        assert(encs[k] == out[k].spec_encoding());
        if k + 1 < n {
            assert(offsets[k] <= offsets[k + 1]);
        }
    }
    assert forall|q: int| 0 <= q <= n implies #[trigger] spec_prefix_len(encs, q)
        == (if q < n { offsets[q] as int } else { bytes.len() as int }) - 4 * n by {
        lemma_items_start_at_offsets(encs, offsets, 4 * n, bytes.len() as int, q);
    }
    lemma_offset_table_concat(bytes, offsets, encs);
}

/// A byte string made of an offset table read from it and the items the
/// table marks out is the table's encoding followed by the items.
proof fn lemma_offset_table_concat(bytes: Seq<u8>, offsets: Seq<usize>, encs: Seq<Seq<u8>>)
    requires
        offsets.len() > 0,
        encs.len() == offsets.len(),
        forall|k: int| 0 <= k < offsets.len() ==> #[trigger] offsets[k] as int == spec_le32_value(bytes.subrange(4 * k, 4 * k + 4)),
        4 * offsets.len() <= bytes.len(),
        forall|q: int| 0 <= q <= encs.len() ==> #[trigger] spec_prefix_len(encs, q)
            == (if q < encs.len() { offsets[q] as int } else { bytes.len() as int }) - 4 * offsets.len(),
        forall|k: int| 0 <= k < encs.len() ==> #[trigger] encs[k] == bytes.subrange(
            offsets[k] as int,
            spec_item_end(offsets, k, bytes.len() as int),
        ),
    ensures
        bytes == spec_concat(spec_offset_pieces(encs) + encs),
{
    let offs = spec_offset_pieces(encs);
    let all = offs + encs;
    let n = encs.len() as int;
    lemma_prefix_len_uniform(offs, 4, n);
    lemma_prefix_len_append(offs, encs, 2 * n);
    assert forall|q: int| 0 <= q < all.len() implies bytes.subrange(
        spec_prefix_len(all, q) as int,
        spec_prefix_len(all, q) + all[q].len(),
    ) == #[trigger] all[q] by {
        if q < n {
            assert(spec_prefix_len(encs, q) == offsets[q] - 4 * n);
            lemma_offset_piece_at(bytes, offsets, encs, q);
        } else {
            lemma_item_piece_at(bytes, offsets, encs, q - n);
        }
    }
    lemma_concat_from_cuts(bytes, all);
}

/// Offset-table entry `q` is the `q`-th 4-byte word of the input.
proof fn lemma_offset_piece_at(bytes: Seq<u8>, offsets: Seq<usize>, encs: Seq<Seq<u8>>, q: int)
    requires
        0 <= q < offsets.len(),
        encs.len() == offsets.len(),
        offsets[q] as int == spec_le32_value(bytes.subrange(4 * q, 4 * q + 4)),
        spec_prefix_len(encs, q) == offsets[q] - 4 * offsets.len(),
        4 * offsets.len() <= bytes.len(),
    ensures
        ({
            let offs = spec_offset_pieces(encs);
            let all = offs + encs;
            bytes.subrange(spec_prefix_len(all, q) as int, spec_prefix_len(all, q) + all[q].len()) == all[q]
        }),
{
    let offs = spec_offset_pieces(encs);
    let all = offs + encs;
    let n = encs.len() as int;
    lemma_prefix_len_uniform(offs, 4, q);
    lemma_prefix_len_append(offs, encs, n);
    lemma_prefix_len_uniform(offs, 4, n);
    let sub = bytes.subrange(4 * q, 4 * q + 4);
    lemma_le32_from_bytes(sub);
    assert(all[q] == offs[q]);
    assert(offs[q] == spec_le32((4 * n + spec_prefix_len(encs, q)) as nat));
    assert(spec_prefix_len(all, q) == 4 * q);
}

/// Item `q` sits in the input where its offset says.
proof fn lemma_item_piece_at(bytes: Seq<u8>, offsets: Seq<usize>, encs: Seq<Seq<u8>>, q: int)
    requires
        0 <= q < offsets.len(),
        encs.len() == offsets.len(),
        forall|k: int| 0 <= k <= encs.len() ==> #[trigger] spec_prefix_len(encs, k)
            == (if k < encs.len() { offsets[k] as int } else { bytes.len() as int }) - 4 * offsets.len(),
        encs[q] == bytes.subrange(offsets[q] as int, spec_item_end(offsets, q, bytes.len() as int)),
    ensures
        ({
            let offs = spec_offset_pieces(encs);
            let all = offs + encs;
            let n = encs.len() as int;
            bytes.subrange(spec_prefix_len(all, n + q) as int, spec_prefix_len(all, n + q) + all[n + q].len()) == all[n + q]
        }),
{
    let offs = spec_offset_pieces(encs);
    let all = offs + encs;
    let n = encs.len() as int;
    lemma_prefix_len_uniform(offs, 4, n);
    lemma_prefix_len_append(offs, encs, n + q);
    assert(all[n + q] == encs[q]);
    assert(spec_prefix_len(encs, q) == offsets[q] - 4 * n);
    assert(spec_prefix_len(encs, q + 1) == spec_prefix_len(encs, q) + encs[q].len());
}

/// Item `q` of a decoded sequence starts `offsets[q] - first` bytes into the
/// item area, when each item spans from its offset to the next.
proof fn lemma_items_start_at_offsets(encs: Seq<Seq<u8>>, offsets: Seq<usize>, first: int, len: int, q: int)
    requires
        encs.len() == offsets.len(),
        encs.len() > 0,
        offsets[0] == first,
        0 <= q <= encs.len(),
        forall|j: int, k: int| 0 <= j <= k < offsets.len() ==> #[trigger] offsets[j] <= #[trigger] offsets[k],
        forall|k: int| 0 <= k < offsets.len() ==> #[trigger] offsets[k] <= len,
        forall|k: int| 0 <= k < encs.len() ==> #[trigger] encs[k].len() == spec_item_end(offsets, k, len) - offsets[k],
    ensures
        spec_prefix_len(encs, q) == (if q < encs.len() { offsets[q] as int } else { len }) - first,
    decreases q,
{
    if q > 0 {
        lemma_items_start_at_offsets(encs, offsets, first, len, q - 1);
    }
}

/// Decode a sequence of at most `max` items.
pub fn decode_items<T: SszCodec>(bytes: &[u8], max: u64) -> (r: Result<Vec<T>, DeserializeError>)
    ensures
        r matches Ok(v) ==> v@.len() <= max && spec_items_wf(v@) && spec_seq_encoding(v@) == bytes@,
        r matches Ok(v) ==> forall|w: Seq<T>| spec_items_wf(w) && #[trigger] spec_seq_encoding(w) == bytes@
            && bytes@.len() <= u32::MAX ==> w.len() == v@.len(),
        bytes@.len() <= u32::MAX && (exists|w: Seq<T>| w.len() <= max && spec_items_wf(w)
            && #[trigger] spec_seq_encoding(w) == bytes@) ==> r is Ok,
{
    proof { T::lemma_layout(); }
    match T::ssz_fixed_size() {
        Some(s) => decode_fixed_items(bytes, s, max),
        None => decode_variable_items(bytes, max),
    }
}

/// The number of chunks `limit` packed items of `s` bytes may take.
fn packed_chunk_limit(limit: u64, s: usize) -> (r: u64)
    requires
        s == 1 || s == 8,
    ensures
        r == (limit * s + 31) / 32,
{
    if s == 1 {
        let total: u128 = limit as u128 + 31;
        (total / 32) as u64
    } else {
        let total: u128 = (limit as u128) * 8 + 31;
        (total / 32) as u64
    }
}

/// The hash-tree-root of a sequence of at most `limit` items.
pub fn items_root<T: SszCodec>(items: &[T], limit: u64) -> (r: [u8; 32])
    requires
        spec_items_wf(items@),
    ensures
        r@ == spec_seq_root(items@, limit as nat),
{
    proof { T::lemma_layout(); }
    if T::ssz_packed() {
        let s = match T::ssz_fixed_size() {
            Some(s) => s,
            None => 1,
        };
        let depth = depth_for_limit(packed_chunk_limit(limit, s));
        let mut bytes: Vec<u8> = Vec::new();
        proof {
            assert forall|i: int| 0 <= i < items@.len() implies #[trigger] items@[i].spec_encoding().len() <= u32::MAX by {
                T::lemma_shape(&items@[i]);
            }
        }
        encode_each(items, &mut bytes);
        let chunks = pack_bytes(bytes.as_slice());
        merkleize_chunks_to_depth(chunks, depth)
    } else {
        let depth = depth_for_limit(limit);
        let mut chunks: Vec<[u8; 32]> = Vec::new();
        let n = items.len();
        let mut i: usize = 0;
        while i < n
            invariant
                n == items@.len(),
                i <= n,
                spec_items_wf(items@),
                nodes_view(chunks@) =~= Seq::new(i as nat, |k: int| items@[k].spec_tree_root()),
            decreases n - i,
        {
            assert(items@[i as int].spec_wf());
            let node = items[i].ssz_root();
            let ghost before = chunks@;
            chunks.push(node.0);
            proof {
                assert(chunks@ == before.push(node.0));
                assert(nodes_view(before).len() == before.len());
                assert(before.len() == i);
                assert(node.0@ == items@[i as int].spec_tree_root());
                assert forall|k: int| 0 <= k < i + 1 implies #[trigger] nodes_view(chunks@)[k] == items@[k].spec_tree_root() by {
                    assert(nodes_view(chunks@)[k] == chunks@[k]@);
                    if k < i {
                        assert(chunks@[k] == before[k]);
                        assert(nodes_view(before)[k] == before[k]@);
                        assert(nodes_view(before)[k] == items@[k].spec_tree_root());
                    } else {
                        assert(chunks@[k] == node.0);
                    }
                }
            }
            i = i + 1;
            assert(nodes_view(chunks@) =~= Seq::new(i as nat, |k: int| items@[k].spec_tree_root()));
        }
        merkleize_chunks_to_depth(chunks, depth)
    }
}

} // verus!
