//! Containers with variable-size fields.
//!
//! A container encodes as a head and a tail. The head holds, in field order,
//! the encoding of each fixed-size field and a 4-byte offset for each
//! variable-size one; the tail holds the variable-size fields' encodings in
//! order. Each offset counts from the start of the container to where that
//! field's encoding begins.
use vstd::prelude::*;

use super::codec::{
    lemma_concat_from_cuts, lemma_concat_len, lemma_concat_piece, lemma_le32_from_bytes,
    lemma_le32_roundtrip, lemma_prefix_len_mono, lemma_prefix_len_nonneg, push_le32, read_le32,
    spec_concat, spec_le32, spec_le32_value, spec_prefix_len, SszCodec,
};
use super::error::DeserializeError;
use super::sequence::{lemma_prefix_len_append, lemma_prefix_len_uniform};

verus! {

/// A field's place in a container encoding: whether it is variable-size, and
/// its encoding.
pub type FieldPart = (bool, Seq<u8>);

/// The tail pieces: the encodings of variable-size fields, empty for the others.
pub open spec fn spec_tail_pieces(parts: Seq<FieldPart>) -> Seq<Seq<u8>> {
    Seq::new(parts.len(), |i: int| if parts[i].0 { parts[i].1 } else { Seq::empty() })
}

/// The head pieces for a head of `head_len` bytes: fixed-size encodings, and
/// for variable-size fields the offset of their encoding.
pub open spec fn spec_head_pieces(parts: Seq<FieldPart>, head_len: int) -> Seq<Seq<u8>> {
    Seq::new(
        parts.len(),
        |i: int| if parts[i].0 {
            spec_le32((head_len + spec_prefix_len(spec_tail_pieces(parts), i)) as nat)
        } else {
            parts[i].1
        },
    )
}

/// The encoding of a container whose fields have the given parts and whose
/// head is `head_len` bytes long.
pub open spec fn spec_container_encoding(parts: Seq<FieldPart>, head_len: int) -> Seq<u8> {
    spec_concat(spec_head_pieces(parts, head_len) + spec_tail_pieces(parts))
}

/// Whether `parts` fit a field layout: `sizes[i]` is field `i`'s fixed size,
/// or zero for a variable-size field.
pub open spec fn spec_layout_matches(sizes: Seq<usize>, parts: Seq<FieldPart>) -> bool {
    &&& parts.len() == sizes.len()
    &&& forall|i: int| 0 <= i < parts.len() ==> (#[trigger] parts[i].0 <==> sizes[i] == 0)
    &&& forall|i: int| 0 <= i < parts.len() && sizes[i] > 0 ==> #[trigger] parts[i].1.len() == sizes[i]
}

/// The bytes field `i` takes in the head.
pub open spec fn spec_head_size(sizes: Seq<usize>, i: int) -> int {
    if sizes[i] == 0 {
        4
    } else {
        sizes[i] as int
    }
}

/// Where field `i` starts in the head.
pub open spec fn spec_head_pos(sizes: Seq<usize>, i: int) -> int
    decreases i,
{
    if i <= 0 {
        0
    } else {
        spec_head_pos(sizes, i - 1) + spec_head_size(sizes, i - 1)
    }
}

/// The head length of a layout.
pub open spec fn spec_layout_head_len(sizes: Seq<usize>) -> int {
    spec_head_pos(sizes, sizes.len() as int)
}

/// Head positions grow with the field index.
proof fn lemma_head_pos_mono(sizes: Seq<usize>, j: int, k: int)
    requires
        0 <= j <= k <= sizes.len(),
    ensures
        0 <= spec_head_pos(sizes, j) <= spec_head_pos(sizes, k),
        j < k ==> spec_head_pos(sizes, j) + spec_head_size(sizes, j) <= spec_head_pos(sizes, k),
    decreases k - j,
{
    if j < k {
        lemma_head_pos_mono(sizes, j, k - 1);
        if j == k - 1 {
        }
    } else {
        lemma_head_pos_nonneg(sizes, j);
    }
}

/// Head positions are never negative.
proof fn lemma_head_pos_nonneg(sizes: Seq<usize>, j: int)
    ensures
        0 <= spec_head_pos(sizes, j),
    decreases j,
{
    if j > 0 {
        lemma_head_pos_nonneg(sizes, j - 1);
    }
}

/// The head pieces of matching parts take the layout's head positions.
proof fn lemma_head_prefix(sizes: Seq<usize>, parts: Seq<FieldPart>, head_len: int, i: int)
    requires
        spec_layout_matches(sizes, parts),
        0 <= i <= parts.len(),
    ensures
        spec_prefix_len(spec_head_pieces(parts, head_len), i) == spec_head_pos(sizes, i),
    decreases i,
{
    if i > 0 {
        lemma_head_prefix(sizes, parts, head_len, i - 1);
        let hp = spec_head_pieces(parts, head_len);
        if parts[i - 1].0 {
            assert(hp[i - 1].len() == 4);
        }
    }
}

/// The pieces a container's encoding is cut into, laid end to end.
pub open spec fn spec_container_pieces(parts: Seq<FieldPart>, head_len: int) -> Seq<Seq<u8>> {
    spec_head_pieces(parts, head_len) + spec_tail_pieces(parts)
}

/// Where each field sits in a container encoding.
pub proof fn lemma_container_encoding_facts(sizes: Seq<usize>, parts: Seq<FieldPart>)
    requires
        spec_layout_matches(sizes, parts),
    ensures
        ({
            let h = spec_layout_head_len(sizes);
            let e = spec_container_encoding(parts, h);
            let tail = spec_tail_pieces(parts);
            let k = parts.len() as int;
            &&& e.len() == h + spec_prefix_len(tail, k)
            &&& forall|i: int| 0 <= i < k && !parts[i].0 ==> e.subrange(
                spec_head_pos(sizes, i),
                spec_head_pos(sizes, i) + sizes[i],
            ) == #[trigger] parts[i].1
            &&& forall|i: int| 0 <= i < k && parts[i].0 ==> #[trigger] e.subrange(
                spec_head_pos(sizes, i),
                spec_head_pos(sizes, i) + 4,
            ) == spec_le32((h + spec_prefix_len(tail, i)) as nat)
            &&& forall|i: int| 0 <= i < k && parts[i].0 ==> e.subrange(
                h + spec_prefix_len(tail, i),
                h + spec_prefix_len(tail, i + 1),
            ) == #[trigger] parts[i].1
            &&& forall|i: int| 0 <= i < k && !parts[i].0 ==> #[trigger] spec_prefix_len(tail, i + 1)
                == spec_prefix_len(tail, i)
            &&& forall|j: int, i: int| 0 <= j <= i <= k ==> 0 <= #[trigger] spec_prefix_len(tail, j)
                <= #[trigger] spec_prefix_len(tail, i)
        }),
{
    let h = spec_layout_head_len(sizes);
    let tail = spec_tail_pieces(parts);
    let head = spec_head_pieces(parts, h);
    let all = head + tail;
    let k = parts.len() as int;
    lemma_concat_len(all);
    lemma_prefix_len_append(head, tail, 2 * k);
    lemma_head_prefix(sizes, parts, h, k);
    assert forall|i: int| 0 <= i < k && !parts[i].0 implies spec_container_encoding(parts, h).subrange(
        spec_head_pos(sizes, i),
        spec_head_pos(sizes, i) + sizes[i],
    ) == #[trigger] parts[i].1 by {
        lemma_concat_piece(all, i);
        lemma_prefix_len_append(head, tail, k);
        lemma_head_prefix(sizes, parts, h, i);
        assert(all[i] == head[i]);
    }
    assert forall|i: int| 0 <= i < k && parts[i].0 implies #[trigger] spec_container_encoding(parts, h).subrange(
        spec_head_pos(sizes, i),
        spec_head_pos(sizes, i) + 4,
    ) == spec_le32((h + spec_prefix_len(tail, i)) as nat) by {
        lemma_concat_piece(all, i);
        lemma_prefix_len_append(head, tail, k);
        lemma_head_prefix(sizes, parts, h, i);
        assert(all[i] == head[i]);
    }
    assert forall|i: int| 0 <= i < k && parts[i].0 implies spec_container_encoding(parts, h).subrange(
        h + spec_prefix_len(tail, i),
        h + spec_prefix_len(tail, i + 1),
    ) == #[trigger] parts[i].1 by {
        lemma_concat_piece(all, k + i);
        lemma_prefix_len_append(head, tail, k + i);
        assert(all[k + i] == tail[i]);
    }
    assert forall|j: int, i: int| 0 <= j <= i <= k implies 0 <= #[trigger] spec_prefix_len(tail, j)
        <= #[trigger] spec_prefix_len(tail, i) by {
        lemma_prefix_len_mono(tail, j, i);
    }
}

/// Bytes cut along a layout into fields with the given parts, with offsets
/// that match where the variable-size fields were cut, are the container
/// encoding of those parts.
#[verifier::spinoff_prover]
#[verifier::rlimit(60)]
proof fn lemma_container_from_cuts(bytes: Seq<u8>, sizes: Seq<usize>, parts: Seq<FieldPart>, bounds: Seq<int>)
    requires
        spec_layout_matches(sizes, parts),
        bounds.len() == parts.len() + 1,
        forall|i: int| 0 <= i <= parts.len() ==> 0 <= #[trigger] bounds[i] <= bytes.len(),
        bounds[0] == spec_layout_head_len(sizes),
        bounds[parts.len() as int] == bytes.len(),
        spec_layout_head_len(sizes) <= bytes.len(),
        forall|i: int| 0 <= i < parts.len() ==> #[trigger] bounds[i] <= bounds[i + 1],
        forall|i: int| 0 <= i < parts.len() && !parts[i].0 ==> #[trigger] bounds[i] == bounds[i + 1]
            && parts[i].1 == bytes.subrange(spec_head_pos(sizes, i), spec_head_pos(sizes, i) + sizes[i]),
        forall|i: int| 0 <= i < parts.len() && parts[i].0 ==> #[trigger] parts[i].1 == bytes.subrange(bounds[i], bounds[i + 1])
            && spec_le32_value(bytes.subrange(spec_head_pos(sizes, i), spec_head_pos(sizes, i) + 4)) == bounds[i],
    ensures
        bytes == spec_container_encoding(parts, spec_layout_head_len(sizes)),
{
    let h = spec_layout_head_len(sizes);
    let tail = spec_tail_pieces(parts);
    let head = spec_head_pieces(parts, h);
    let all = head + tail;
    let k = parts.len() as int;
    assert forall|j: int| 0 <= j < parts.len() && parts[j].0 implies #[trigger] parts[j].1.len() == bounds[j + 1] - bounds[j] by {
        assert(bounds[j] <= bounds[j + 1]);
        assert(0 <= bounds[j] && bounds[j + 1] <= bytes.len());
    }
    assert forall|i: int| 0 <= i <= k implies #[trigger] spec_prefix_len(tail, i) == bounds[i] - h by {
        lemma_tail_prefix_bounds(parts, bounds, h, i);
    }
    lemma_head_prefix(sizes, parts, h, k);
    lemma_prefix_len_append(head, tail, 2 * k);
    assert forall|q: int| 0 <= q < all.len() implies bytes.subrange(
        spec_prefix_len(all, q) as int,
        spec_prefix_len(all, q) + all[q].len(),
    ) == #[trigger] all[q] by {
        if q < k {
            if parts[q].0 {
                assert(parts[q].1 == bytes.subrange(bounds[q], bounds[q + 1]));
            } else {
                assert(bounds[q] == bounds[q + 1]);
            }
            lemma_head_piece_at(bytes, sizes, parts, bounds, q);
        } else {
            let i = q - k;
            assert(bounds[i] <= bounds[i + 1]);
            lemma_tail_piece_at(bytes, sizes, parts, bounds, i);
        }
    }
    lemma_concat_from_cuts(bytes, all);
}

/// Head piece `q` sits at field `q`'s head position.
proof fn lemma_head_piece_at(bytes: Seq<u8>, sizes: Seq<usize>, parts: Seq<FieldPart>, bounds: Seq<int>, q: int)
    requires
        spec_layout_matches(sizes, parts),
        0 <= q < parts.len(),
        bounds.len() == parts.len() + 1,
        spec_layout_head_len(sizes) <= bytes.len(),
        forall|i: int| 0 <= i <= parts.len() ==> #[trigger] spec_prefix_len(spec_tail_pieces(parts), i) == bounds[i] - spec_layout_head_len(sizes),
        !parts[q].0 ==> parts[q].1 == bytes.subrange(spec_head_pos(sizes, q), spec_head_pos(sizes, q) + sizes[q]),
        parts[q].0 ==> spec_le32_value(bytes.subrange(spec_head_pos(sizes, q), spec_head_pos(sizes, q) + 4)) == bounds[q],
    ensures
        ({
            let h = spec_layout_head_len(sizes);
            let all = spec_head_pieces(parts, h) + spec_tail_pieces(parts);
            bytes.subrange(spec_prefix_len(all, q) as int, spec_prefix_len(all, q) + all[q].len()) == all[q]
        }),
{
    let h = spec_layout_head_len(sizes);
    let tail = spec_tail_pieces(parts);
    let head = spec_head_pieces(parts, h);
    let k = parts.len() as int;
    lemma_prefix_len_append(head, tail, k);
    lemma_head_prefix(sizes, parts, h, q);
    lemma_head_pos_mono(sizes, q, k);
    assert((head + tail)[q] == head[q]);
    if parts[q].0 {
        let sub = bytes.subrange(spec_head_pos(sizes, q), spec_head_pos(sizes, q) + 4);
        lemma_le32_from_bytes(sub);
        assert(spec_prefix_len(tail, q) == bounds[q] - h);
        assert(head[q] == spec_le32((h + spec_prefix_len(tail, q)) as nat));
    }
}

/// Tail piece `q` sits between field `q`'s bounds.
proof fn lemma_tail_piece_at(bytes: Seq<u8>, sizes: Seq<usize>, parts: Seq<FieldPart>, bounds: Seq<int>, q: int)
    requires
        spec_layout_matches(sizes, parts),
        0 <= q < parts.len(),
        bounds.len() == parts.len() + 1,
        forall|i: int| 0 <= i <= parts.len() ==> #[trigger] spec_prefix_len(spec_tail_pieces(parts), i) == bounds[i] - spec_layout_head_len(sizes),
        spec_prefix_len(spec_head_pieces(parts, spec_layout_head_len(sizes)), parts.len() as int) == spec_layout_head_len(sizes),
        parts[q].0 ==> parts[q].1 == bytes.subrange(bounds[q], bounds[q + 1]),
        0 <= bounds[q] <= bounds[q + 1] <= bytes.len(),
        !parts[q].0 ==> bounds[q] == bounds[q + 1],
    ensures
        ({
            let h = spec_layout_head_len(sizes);
            let all = spec_head_pieces(parts, h) + spec_tail_pieces(parts);
            let k = parts.len() as int;
            bytes.subrange(spec_prefix_len(all, k + q) as int, spec_prefix_len(all, k + q) + all[k + q].len()) == all[k + q]
        }),
{
    let h = spec_layout_head_len(sizes);
    let tail = spec_tail_pieces(parts);
    let head = spec_head_pieces(parts, h);
    let k = parts.len() as int;
    lemma_prefix_len_append(head, tail, k + q);
    assert((head + tail)[k + q] == tail[q]);
    assert(spec_prefix_len(tail, q) == bounds[q] - h);
    assert(spec_prefix_len(head + tail, k + q) == bounds[q]);
    if !parts[q].0 {
        assert(tail[q] =~= Seq::<u8>::empty());
        assert(bytes.subrange(bounds[q], bounds[q]) =~= Seq::<u8>::empty());
    }
}

/// The tail pieces before field `i` end where field `i`'s bound says.
proof fn lemma_tail_prefix_bounds(parts: Seq<FieldPart>, bounds: Seq<int>, h: int, i: int)
    requires
        bounds.len() == parts.len() + 1,
        bounds[0] == h,
        0 <= i <= parts.len(),
        forall|j: int| 0 <= j < parts.len() && !parts[j].0 ==> #[trigger] bounds[j] == bounds[j + 1],
        forall|j: int| 0 <= j < parts.len() && parts[j].0 ==> #[trigger] parts[j].1.len() == bounds[j + 1] - bounds[j],
    ensures
        spec_prefix_len(spec_tail_pieces(parts), i) == bounds[i] - h,
    decreases i,
{
    if i > 0 {
        lemma_tail_prefix_bounds(parts, bounds, h, i - 1);
    }
}

/// The head length of a layout.
pub fn layout_head_len(sizes: &[usize]) -> (r: usize)
    requires
        spec_layout_head_len(sizes@) <= usize::MAX,
    ensures
        r == spec_layout_head_len(sizes@),
{
    let n = sizes.len();
    let mut pos: usize = 0;
    let mut i: usize = 0;
    while i < n
        invariant
            n == sizes@.len(),
            i <= n,
            pos == spec_head_pos(sizes@, i as int),
            spec_layout_head_len(sizes@) <= usize::MAX,
        decreases n - i,
    {
        proof { lemma_head_pos_mono(sizes@, i as int, n as int); }
        pos = pos + if sizes[i] == 0 { 4 } else { sizes[i] };
        i = i + 1;
    }
    pos
}

/// Whether byte ranges mark out a container's fields along a layout.
pub open spec fn spec_ranges_fit(bytes: Seq<u8>, sizes: Seq<usize>, ranges: Seq<(usize, usize)>, parts: Seq<FieldPart>) -> bool {
    &&& spec_layout_matches(sizes, parts)
    &&& ranges.len() == parts.len()
    &&& forall|i: int| 0 <= i < parts.len() ==> #[trigger] parts[i].1 == bytes.subrange(ranges[i].0 as int, ranges[i].1 as int)
}

/// Read the offset word of each variable-size field; fixed-size fields get zero.
fn read_field_offsets(bytes: &[u8], sizes: &[usize], head_len: usize) -> (r: Vec<usize>)
    requires
        head_len == spec_layout_head_len(sizes@),
        head_len <= bytes@.len(),
    ensures
        r@.len() == sizes@.len(),
        forall|i: int| 0 <= i < sizes@.len() && sizes@[i] == 0 ==> #[trigger] r@[i] as int
            == spec_le32_value(bytes@.subrange(spec_head_pos(sizes@, i), spec_head_pos(sizes@, i) + 4)),
{
    let n = sizes.len();
    let mut out: Vec<usize> = Vec::new();
    let mut pos: usize = 0;
    let mut i: usize = 0;
    while i < n
        invariant
            n == sizes@.len(),
            head_len == spec_layout_head_len(sizes@),
            head_len <= bytes@.len(),
            i <= n,
            pos == spec_head_pos(sizes@, i as int),
            out@.len() == i,
            forall|j: int| 0 <= j < i && sizes@[j] == 0 ==> #[trigger] out@[j] as int
                == spec_le32_value(bytes@.subrange(spec_head_pos(sizes@, j), spec_head_pos(sizes@, j) + 4)),
        decreases n - i,
    {
        proof { lemma_head_pos_mono(sizes@, i as int, n as int); }
        if sizes[i] == 0 {
            let o = read_le32(bytes, pos) as usize;
            out.push(o);
            pos = pos + 4;
        } else {
            out.push(0);
            pos = pos + sizes[i];
        }
        i = i + 1;
    }
    out
}

/// The bounds of the fields' tail pieces: field `i`'s tail piece spans from
/// bound `i` to bound `i + 1`; the last bound is the input's end.
pub open spec fn spec_field_bounds(sizes: Seq<usize>, offsets: Seq<usize>, len: int, i: int) -> int
    decreases sizes.len() - i,
{
    if i >= sizes.len() || i < 0 {
        len
    } else if sizes[i] == 0 {
        offsets[i] as int
    } else {
        spec_field_bounds(sizes, offsets, len, i + 1)
    }
}

/// The bounds an encoding's offsets give are where its tail pieces start.
proof fn lemma_bounds_of_encoding(sizes: Seq<usize>, parts: Seq<FieldPart>, offsets: Seq<usize>, h: int, i: int)
    requires
        spec_layout_matches(sizes, parts),
        offsets.len() == sizes.len(),
        0 <= i <= sizes.len(),
        forall|j: int| 0 <= j < sizes.len() && sizes[j] == 0 ==> #[trigger] offsets[j] as int
            == h + spec_prefix_len(spec_tail_pieces(parts), j),
        forall|j: int| 0 <= j < sizes.len() && sizes[j] > 0 ==> #[trigger] spec_prefix_len(spec_tail_pieces(parts), j + 1)
            == spec_prefix_len(spec_tail_pieces(parts), j),
    ensures
        spec_field_bounds(sizes, offsets, h + spec_prefix_len(spec_tail_pieces(parts), sizes.len() as int), i)
            == h + spec_prefix_len(spec_tail_pieces(parts), i),
    decreases sizes.len() - i,
{
    if i < sizes.len() && sizes[i] > 0 {
        lemma_bounds_of_encoding(sizes, parts, offsets, h, i + 1);
    }
}

/// Whether the field bounds never run backwards.
pub open spec fn spec_bounds_monotone(sizes: Seq<usize>, offsets: Seq<usize>, len: int) -> bool {
    forall|q: int| 0 <= q < sizes.len() ==> #[trigger] spec_field_bounds(sizes, offsets, len, q)
        <= spec_field_bounds(sizes, offsets, len, q + 1)
}

/// The field bounds, last to first, checking that they never run backwards.
fn field_bounds_rev(sizes: &[usize], offsets: &Vec<usize>, len: usize) -> (r: Option<Vec<usize>>)
    requires
        offsets@.len() == sizes@.len(),
    ensures
        r is Some <==> spec_bounds_monotone(sizes@, offsets@, len as int),
        r matches Some(b) ==> b@.len() == sizes@.len() + 1 && forall|q: int| 0 <= q <= sizes@.len()
            ==> #[trigger] b@[sizes@.len() - q] == spec_field_bounds(sizes@, offsets@, len as int, q),
{
    let n = sizes.len();
    let mut bound: usize = len;
    let mut out: Vec<usize> = Vec::new();
    out.push(len);
    let mut i: usize = n;
    while i > 0
        invariant
            n == sizes@.len(),
            offsets@.len() == n,
            i <= n,
            bound == spec_field_bounds(sizes@, offsets@, len as int, i as int),
            out@.len() == n - i + 1,
            forall|k: int| i <= k <= n ==> #[trigger] out@[n - k] == spec_field_bounds(sizes@, offsets@, len as int, k),
            forall|k: int| i <= k < n ==> #[trigger] spec_field_bounds(sizes@, offsets@, len as int, k)
                <= spec_field_bounds(sizes@, offsets@, len as int, k + 1),
        decreases i,
    {
        let j = i - 1;
        if sizes[j] == 0 {
            let o = offsets[j];
            if o > bound {
                assert(!(spec_field_bounds(sizes@, offsets@, len as int, j as int)
                    <= spec_field_bounds(sizes@, offsets@, len as int, j + 1)));
                return None;
            }
            bound = o;
        }
        out.push(bound);
        i = j;
    }
    Some(out)
}

/// Each field's byte range: its head slot when fixed-size, its tail piece
/// otherwise.
pub open spec fn spec_field_range(sizes: Seq<usize>, offsets: Seq<usize>, len: int, q: int) -> (usize, usize) {
    if sizes[q] > 0 {
        (spec_head_pos(sizes, q) as usize, (spec_head_pos(sizes, q) + sizes[q]) as usize)
    } else {
        (spec_field_bounds(sizes, offsets, len, q) as usize, spec_field_bounds(sizes, offsets, len, q + 1) as usize)
    }
}

/// The byte range of every field.
fn field_ranges(sizes: &[usize], offsets: &Vec<usize>, bounds_rev: &Vec<usize>, len: usize, head_len: usize) -> (r: Vec<(usize, usize)>)
    requires
        head_len == spec_layout_head_len(sizes@),
        offsets@.len() == sizes@.len(),
        bounds_rev@.len() == sizes@.len() + 1,
        forall|q: int| 0 <= q <= sizes@.len() ==> #[trigger] bounds_rev@[sizes@.len() - q]
            == spec_field_bounds(sizes@, offsets@, len as int, q),
    ensures
        r@.len() == sizes@.len(),
        forall|q: int| 0 <= q < sizes@.len() ==> #[trigger] r@[q] == spec_field_range(sizes@, offsets@, len as int, q),
{
    let n = sizes.len();
    let mut ranges: Vec<(usize, usize)> = Vec::new();
    let mut pos: usize = 0;
    let mut k: usize = 0;
    while k < n
        invariant
            n == sizes@.len(),
            head_len == spec_layout_head_len(sizes@),
            k <= n,
            pos == spec_head_pos(sizes@, k as int),
            bounds_rev@.len() == n + 1,
            forall|q: int| 0 <= q <= n ==> #[trigger] bounds_rev@[n - q] == spec_field_bounds(sizes@, offsets@, len as int, q),
            ranges@.len() == k,
            forall|q: int| 0 <= q < k ==> #[trigger] ranges@[q] == spec_field_range(sizes@, offsets@, len as int, q),
        decreases n - k,
    {
        proof { lemma_head_pos_mono(sizes@, k as int, n as int); }
        if sizes[k] == 0 {
            let lo = bounds_rev[n - k];
            let hi = bounds_rev[n - k - 1];
            assert(bounds_rev@[n - (k + 1)] == spec_field_bounds(sizes@, offsets@, len as int, k + 1));
            assert(n - k - 1 == n - (k + 1));
            ranges.push((lo, hi));
            pos = pos + 4;
        } else {
            ranges.push((pos, pos + sizes[k]));
            pos = pos + sizes[k];
        }
        k = k + 1;
    }
    ranges
}

/// Parts cut from the field ranges of an input whose bounds check out give
/// back the input.
#[verifier::spinoff_prover]
#[verifier::rlimit(60)]
proof fn lemma_split_sound(bytes: Seq<u8>, sizes: Seq<usize>, offsets: Seq<usize>, ranges: Seq<(usize, usize)>, parts: Seq<FieldPart>)
    requires
        spec_layout_head_len(sizes) <= bytes.len(),
        bytes.len() <= usize::MAX,
        offsets.len() == sizes.len(),
        forall|i: int| 0 <= i < sizes.len() && sizes[i] == 0 ==> #[trigger] offsets[i] as int
            == spec_le32_value(bytes.subrange(spec_head_pos(sizes, i), spec_head_pos(sizes, i) + 4)),
        spec_bounds_monotone(sizes, offsets, bytes.len() as int),
        spec_field_bounds(sizes, offsets, bytes.len() as int, 0) == spec_layout_head_len(sizes),
        ranges.len() == sizes.len(),
        forall|q: int| 0 <= q < sizes.len() ==> #[trigger] ranges[q] == spec_field_range(sizes, offsets, bytes.len() as int, q),
        spec_ranges_fit(bytes, sizes, ranges, parts),
    ensures
        bytes == spec_container_encoding(parts, spec_layout_head_len(sizes)),
{
    let len = bytes.len() as int;
    let n = sizes.len() as int;
    lemma_bounds_range(sizes, offsets, len);
    let bounds = Seq::new((n + 1) as nat, |q: int| spec_field_bounds(sizes, offsets, len, q));
    assert forall|q: int| 0 <= q < parts.len() && !parts[q].0 implies #[trigger] bounds[q] == bounds[q + 1]
        && parts[q].1 == bytes.subrange(spec_head_pos(sizes, q), spec_head_pos(sizes, q) + sizes[q]) by {
        lemma_head_pos_mono(sizes, q, n);
        assert(sizes[q] != 0);
        assert(spec_field_bounds(sizes, offsets, len, q) == spec_field_bounds(sizes, offsets, len, q + 1));
        assert(ranges[q] == spec_field_range(sizes, offsets, len, q));
        assert(parts[q].1 == bytes.subrange(ranges[q].0 as int, ranges[q].1 as int));
    }
    assert forall|q: int| 0 <= q < parts.len() && parts[q].0 implies #[trigger] parts[q].1 == bytes.subrange(bounds[q], bounds[q + 1])
        && spec_le32_value(bytes.subrange(spec_head_pos(sizes, q), spec_head_pos(sizes, q) + 4)) == bounds[q] by {
        assert(sizes[q] == 0);
        assert(ranges[q] == spec_field_range(sizes, offsets, len, q));
        assert(0 <= spec_field_bounds(sizes, offsets, len, q) <= len);
        assert(0 <= spec_field_bounds(sizes, offsets, len, q + 1) <= len);
        assert(parts[q].1 == bytes.subrange(ranges[q].0 as int, ranges[q].1 as int));
        assert(spec_field_bounds(sizes, offsets, len, q) == offsets[q] as int);
    }
    lemma_head_pos_nonneg(sizes, n);
    assert forall|i: int| 0 <= i <= parts.len() implies 0 <= #[trigger] bounds[i] <= bytes.len() by {
        assert(bounds[i] == spec_field_bounds(sizes, offsets, len, i));
        assert(spec_field_bounds(sizes, offsets, len, 0) <= spec_field_bounds(sizes, offsets, len, i) <= len);
    }
    assert forall|q: int| 0 <= q < parts.len() implies #[trigger] bounds[q] <= bounds[q + 1] by {
        assert(spec_field_bounds(sizes, offsets, len, q) <= spec_field_bounds(sizes, offsets, len, q + 1));
    }
    lemma_container_from_cuts(bytes, sizes, parts, bounds);
}

/// The offsets and bounds of a container encoding are where its tail pieces
/// start, so the bounds check out and each range holds its part.
#[verifier::spinoff_prover]
proof fn lemma_split_complete(bytes: Seq<u8>, sizes: Seq<usize>, offsets: Seq<usize>, parts: Seq<FieldPart>)
    requires
        bytes.len() <= u32::MAX,
        spec_layout_matches(sizes, parts),
        spec_container_encoding(parts, spec_layout_head_len(sizes)) == bytes,
        offsets.len() == sizes.len(),
        forall|i: int| 0 <= i < sizes.len() && sizes[i] == 0 ==> #[trigger] offsets[i] as int
            == spec_le32_value(bytes.subrange(spec_head_pos(sizes, i), spec_head_pos(sizes, i) + 4)),
    ensures
        spec_bounds_monotone(sizes, offsets, bytes.len() as int),
        spec_field_bounds(sizes, offsets, bytes.len() as int, 0) == spec_layout_head_len(sizes),
        forall|q: int| 0 <= q < sizes.len() ==> parts[q].1 == bytes.subrange(
            #[trigger] spec_field_range(sizes, offsets, bytes.len() as int, q).0 as int,
            spec_field_range(sizes, offsets, bytes.len() as int, q).1 as int,
        ),
{
    let h = spec_layout_head_len(sizes);
    let n = sizes.len() as int;
    let len = bytes.len() as int;
    lemma_container_encoding_facts(sizes, parts);
    let tail = spec_tail_pieces(parts);
    assert forall|j: int| 0 <= j < n && sizes[j] == 0 implies #[trigger] offsets[j] as int == h + spec_prefix_len(tail, j) by {
        lemma_prefix_len_mono(tail, j, n);
        lemma_head_pos_nonneg(sizes, n);
        assert(h + spec_prefix_len(tail, j) <= len);
        assert(parts[j].0);
        assert(bytes.subrange(spec_head_pos(sizes, j), spec_head_pos(sizes, j) + 4) == spec_le32((h + spec_prefix_len(tail, j)) as nat));
        lemma_le32_roundtrip((h + spec_prefix_len(tail, j)) as nat);
    }
    assert forall|i: int| 0 <= i <= n implies #[trigger] spec_field_bounds(sizes, offsets, len, i) == h + spec_prefix_len(tail, i) by {
        lemma_bounds_of_encoding(sizes, parts, offsets, h, i);
    }
    assert forall|q: int| 0 <= q < n implies #[trigger] spec_field_bounds(sizes, offsets, len, q)
        <= spec_field_bounds(sizes, offsets, len, q + 1) by {
        assert(spec_field_bounds(sizes, offsets, len, q + 1) == h + spec_prefix_len(tail, q + 1));
    }
    assert(spec_field_bounds(sizes, offsets, len, 0) == h + spec_prefix_len(tail, 0));
    assert forall|q: int| 0 <= q < n implies parts[q].1 == bytes.subrange(
        #[trigger] spec_field_range(sizes, offsets, len, q).0 as int,
        spec_field_range(sizes, offsets, len, q).1 as int,
    ) by {
        lemma_head_pos_mono(sizes, q, n);
        if sizes[q] == 0 {
            assert(spec_field_bounds(sizes, offsets, len, q + 1) == h + spec_prefix_len(tail, q + 1));
            lemma_prefix_len_nonneg(tail, q);
        }
    }
}

/// Cut a container encoding into its fields' byte ranges along a layout,
/// checking the offsets of the variable-size fields.
///
/// Parts taken from the ranges, whatever they hold, give back the input as
/// their container encoding; and the encoding of any parts that fit the
/// layout is accepted, with each range holding its part.
#[verifier::spinoff_prover]
pub fn split_container(bytes: &[u8], sizes: &[usize]) -> (r: Result<Vec<(usize, usize)>, DeserializeError>)
    requires
        spec_layout_head_len(sizes@) <= usize::MAX,
    ensures
        r matches Ok(ranges) ==> {
            &&& ranges@.len() == sizes@.len()
            &&& forall|i: int| 0 <= i < ranges@.len() ==> #[trigger] ranges@[i].0 <= ranges@[i].1 <= bytes@.len()
            &&& forall|parts: Seq<FieldPart>| #[trigger] spec_ranges_fit(bytes@, sizes@, ranges@, parts)
                ==> bytes@ == spec_container_encoding(parts, spec_layout_head_len(sizes@))
        },
        forall|parts: Seq<FieldPart>| bytes@.len() <= u32::MAX && spec_layout_matches(sizes@, parts)
            && #[trigger] spec_container_encoding(parts, spec_layout_head_len(sizes@)) == bytes@
            ==> (r matches Ok(ranges) && spec_ranges_fit(bytes@, sizes@, ranges@, parts)),
{
    let len = bytes.len();
    let head_len = layout_head_len(sizes);
    proof {
        assert forall|parts: Seq<FieldPart>| bytes@.len() <= u32::MAX && spec_layout_matches(sizes@, parts)
            && #[trigger] spec_container_encoding(parts, spec_layout_head_len(sizes@)) == bytes@
            implies head_len <= len by {
            lemma_container_encoding_facts(sizes@, parts);
            lemma_prefix_len_nonneg(spec_tail_pieces(parts), parts.len() as int);
        }
    }
    if len < head_len {
        return Err(DeserializeError::ExpectedFurtherInput { provided: len, expected: head_len });
    }
    let offsets = read_field_offsets(bytes, sizes, head_len);
    proof {
        assert forall|parts: Seq<FieldPart>| bytes@.len() <= u32::MAX && spec_layout_matches(sizes@, parts)
            && #[trigger] spec_container_encoding(parts, spec_layout_head_len(sizes@)) == bytes@
            implies spec_bounds_monotone(sizes@, offsets@, len as int)
                && spec_field_bounds(sizes@, offsets@, len as int, 0) == head_len by {
            lemma_split_complete(bytes@, sizes@, offsets@, parts);
        }
    }
    let bounds_rev = match field_bounds_rev(sizes, &offsets, len) {
        Some(b) => b,
        None => {
            return Err(DeserializeError::InvalidOffset(len));
        },
    };
    let first = bounds_rev[sizes.len()];
    assert(first == spec_field_bounds(sizes@, offsets@, len as int, 0)) by {
        assert(bounds_rev@[sizes@.len() - 0] == spec_field_bounds(sizes@, offsets@, len as int, 0));
    }
    if first != head_len {
        return Err(DeserializeError::InvalidOffset(first));
    }
    let ranges = field_ranges(sizes, &offsets, &bounds_rev, len, head_len);
    proof {
        lemma_bounds_range(sizes@, offsets@, len as int);
        assert forall|i: int| 0 <= i < ranges@.len() implies #[trigger] ranges@[i].0 <= ranges@[i].1 <= bytes@.len() by {
            lemma_head_pos_mono(sizes@, i, sizes@.len() as int);
            assert(ranges@[i] == spec_field_range(sizes@, offsets@, len as int, i));
            assert(spec_field_bounds(sizes@, offsets@, len as int, i) <= spec_field_bounds(sizes@, offsets@, len as int, i + 1));
            assert(0 <= spec_field_bounds(sizes@, offsets@, len as int, i));
        }
        assert forall|parts: Seq<FieldPart>| #[trigger] spec_ranges_fit(bytes@, sizes@, ranges@, parts)
            implies bytes@ == spec_container_encoding(parts, spec_layout_head_len(sizes@)) by {
            lemma_split_sound(bytes@, sizes@, offsets@, ranges@, parts);
        }
        assert forall|parts: Seq<FieldPart>| bytes@.len() <= u32::MAX && spec_layout_matches(sizes@, parts)
            && #[trigger] spec_container_encoding(parts, spec_layout_head_len(sizes@)) == bytes@
            implies spec_ranges_fit(bytes@, sizes@, ranges@, parts) by {
            lemma_split_complete(bytes@, sizes@, offsets@, parts);
            assert forall|q: int| 0 <= q < parts.len() implies #[trigger] parts[q].1 == bytes@.subrange(ranges@[q].0 as int, ranges@[q].1 as int) by {
                assert(ranges@[q] == spec_field_range(sizes@, offsets@, len as int, q));
            }
        }
    }
    Ok(ranges)
}

/// Field bounds lie between the start of the tail and the end of the input.
proof fn lemma_bounds_range(sizes: Seq<usize>, offsets: Seq<usize>, len: int)
    requires
        forall|q: int| 0 <= q < sizes.len() ==> #[trigger] spec_field_bounds(sizes, offsets, len, q)
            <= spec_field_bounds(sizes, offsets, len, q + 1),
    ensures
        forall|q: int| 0 <= q <= sizes.len() ==> spec_field_bounds(sizes, offsets, len, 0)
            <= #[trigger] spec_field_bounds(sizes, offsets, len, q) <= len,
{
    assert forall|q: int| 0 <= q <= sizes.len() implies spec_field_bounds(sizes, offsets, len, 0)
        <= #[trigger] spec_field_bounds(sizes, offsets, len, q) <= len by {
        lemma_bounds_between(sizes, offsets, len, 0, q);
        lemma_bounds_between(sizes, offsets, len, q, sizes.len() as int);
    }
}

/// Field bounds never decrease.
proof fn lemma_bounds_between(sizes: Seq<usize>, offsets: Seq<usize>, len: int, a: int, b: int)
    requires
        0 <= a <= b <= sizes.len(),
        forall|q: int| 0 <= q < sizes.len() ==> #[trigger] spec_field_bounds(sizes, offsets, len, q)
            <= spec_field_bounds(sizes, offsets, len, q + 1),
    ensures
        spec_field_bounds(sizes, offsets, len, a) <= spec_field_bounds(sizes, offsets, len, b),
    decreases b - a,
{
    if a < b {
        lemma_bounds_between(sizes, offsets, len, a + 1, b);
    }
}

/// Where the parts' pieces stand in the encoding they make, for encoders
/// that write the fields one at a time.
pub proof fn lemma_container_part_bounds(sizes: Seq<usize>, parts: Seq<FieldPart>)
    requires
        spec_layout_matches(sizes, parts),
    ensures
        ({
            let h = spec_layout_head_len(sizes);
            let e = spec_container_encoding(parts, h);
            let tail = spec_tail_pieces(parts);
            &&& h >= 0
            &&& forall|i: int| 0 <= i < parts.len() ==> #[trigger] parts[i].1.len() <= e.len()
            &&& forall|i: int| 0 <= i <= parts.len() ==> h + #[trigger] spec_prefix_len(tail, i) <= e.len()
        }),
{
    let h = spec_layout_head_len(sizes);
    let e = spec_container_encoding(parts, h);
    let tail = spec_tail_pieces(parts);
    let k = parts.len() as int;
    lemma_container_encoding_facts(sizes, parts);
    lemma_head_pos_nonneg(sizes, k);
    assert forall|i: int| 0 <= i < parts.len() implies #[trigger] parts[i].1.len() <= e.len() by {
        lemma_head_pos_mono(sizes, i, k);
        lemma_prefix_len_mono(tail, i + 1, k);
        if parts[i].0 {
            assert(e.subrange(h + spec_prefix_len(tail, i), h + spec_prefix_len(tail, i + 1)) == parts[i].1);
        } else {
            assert(e.subrange(spec_head_pos(sizes, i), spec_head_pos(sizes, i) + sizes[i]) == parts[i].1);
        }
    }
    assert forall|i: int| 0 <= i <= parts.len() implies h + #[trigger] spec_prefix_len(tail, i) <= e.len() by {
        lemma_prefix_len_mono(tail, i, k);
    }
}

/// With only fixed-size fields, the encoding is exactly the head.
pub proof fn lemma_container_all_fixed(sizes: Seq<usize>, parts: Seq<FieldPart>)
    requires
        spec_layout_matches(sizes, parts),
        forall|i: int| 0 <= i < sizes.len() ==> #[trigger] sizes[i] > 0,
    ensures
        spec_container_encoding(parts, spec_layout_head_len(sizes)).len() == spec_layout_head_len(sizes),
{
    lemma_container_encoding_facts(sizes, parts);
    let tail = spec_tail_pieces(parts);
    assert(tail =~= Seq::new(parts.len(), |i: int| Seq::<u8>::empty()));
    lemma_prefix_len_uniform(tail, 0, parts.len() as int);
}

/// The first `i` head pieces of the final parts, for an encoder part way through.
pub open spec fn spec_head_so_far(parts: Seq<FieldPart>, h: int, i: int) -> Seq<u8> {
    spec_concat(spec_head_pieces(parts, h).subrange(0, i))
}

/// The first `i` tail pieces of the final parts.
pub open spec fn spec_tail_so_far(parts: Seq<FieldPart>, i: int) -> Seq<u8> {
    spec_concat(spec_tail_pieces(parts).subrange(0, i))
}

/// Extending the pieces written so far by one.
proof fn lemma_so_far_step(pieces: Seq<Seq<u8>>, i: int)
    requires
        0 <= i < pieces.len(),
    ensures
        spec_concat(pieces.subrange(0, i + 1)) == spec_concat(pieces.subrange(0, i)) + pieces[i],
        spec_concat(pieces.subrange(0, i)).len() == spec_prefix_len(pieces, i),
{
    assert(pieces.subrange(0, i + 1).drop_last() =~= pieces.subrange(0, i));
    lemma_concat_len(pieces.subrange(0, i));
    lemma_prefix_of_subrange(pieces, i, i);
}

/// Prefix lengths of a leading part of the pieces.
proof fn lemma_prefix_of_subrange(pieces: Seq<Seq<u8>>, i: int, j: int)
    requires
        0 <= j <= i <= pieces.len(),
    ensures
        spec_prefix_len(pieces.subrange(0, i), j) == spec_prefix_len(pieces, j),
    decreases j,
{
    if j > 0 {
        lemma_prefix_of_subrange(pieces, i, j - 1);
    }
}

/// The pieces all written.
pub proof fn lemma_so_far_done(parts: Seq<FieldPart>, h: int)
    ensures
        spec_head_so_far(parts, h, parts.len() as int) + spec_tail_so_far(parts, parts.len() as int)
            == spec_container_encoding(parts, h),
{
    let head = spec_head_pieces(parts, h);
    let tail = spec_tail_pieces(parts);
    assert(head.subrange(0, parts.len() as int) =~= head);
    assert(tail.subrange(0, parts.len() as int) =~= tail);
    super::sequence::lemma_concat_append(head, tail);
}

/// Write field `i`, a fixed-size one, into the head.
pub fn encode_fixed_field<T: SszCodec>(
    x: &T,
    head: &mut Vec<u8>,
    tail: &Vec<u8>,
    Ghost(sizes): Ghost<Seq<usize>>,
    Ghost(parts): Ghost<Seq<FieldPart>>,
    Ghost(i): Ghost<int>,
)
    requires
        spec_layout_matches(sizes, parts),
        spec_container_encoding(parts, spec_layout_head_len(sizes)).len() <= u32::MAX,
        0 <= i < parts.len(),
        parts[i] == (false, x.spec_encoding()),
        x.spec_wf(),
        old(head)@ == spec_head_so_far(parts, spec_layout_head_len(sizes), i),
        tail@ == spec_tail_so_far(parts, i),
    ensures
        final(head)@ == spec_head_so_far(parts, spec_layout_head_len(sizes), i + 1),
        tail@ == spec_tail_so_far(parts, i + 1),
{
    proof {
        lemma_so_far_step(spec_head_pieces(parts, spec_layout_head_len(sizes)), i);
        lemma_so_far_step(spec_tail_pieces(parts), i);
        assert(spec_tail_pieces(parts)[i] =~= Seq::<u8>::empty());
        lemma_container_part_bounds(sizes, parts);
        assert(parts[i].1.len() <= spec_container_encoding(parts, spec_layout_head_len(sizes)).len());
    }
    x.ssz_encode(head);
}

/// Write field `i`, a variable-size one: its offset into the head, its
/// encoding into the tail.
pub fn encode_variable_field<T: SszCodec>(
    x: &T,
    head: &mut Vec<u8>,
    tail: &mut Vec<u8>,
    head_len: usize,
    Ghost(sizes): Ghost<Seq<usize>>,
    Ghost(parts): Ghost<Seq<FieldPart>>,
    Ghost(i): Ghost<int>,
)
    requires
        spec_layout_matches(sizes, parts),
        head_len == spec_layout_head_len(sizes),
        spec_container_encoding(parts, spec_layout_head_len(sizes)).len() <= u32::MAX,
        0 <= i < parts.len(),
        parts[i] == (true, x.spec_encoding()),
        x.spec_wf(),
        old(head)@ == spec_head_so_far(parts, head_len as int, i),
        old(tail)@ == spec_tail_so_far(parts, i),
    ensures
        final(head)@ == spec_head_so_far(parts, head_len as int, i + 1),
        final(tail)@ == spec_tail_so_far(parts, i + 1),
{
    proof {
        lemma_so_far_step(spec_head_pieces(parts, head_len as int), i);
        lemma_so_far_step(spec_tail_pieces(parts), i);
        lemma_container_part_bounds(sizes, parts);
        assert(parts[i].1.len() <= spec_container_encoding(parts, spec_layout_head_len(sizes)).len());
        assert(head_len + spec_prefix_len(spec_tail_pieces(parts), i) <= spec_container_encoding(parts, spec_layout_head_len(sizes)).len());
    }
    let offset = head_len + tail.len();
    push_le32(head, offset as u32);
    x.ssz_encode(tail);
}

/// Decode field `i` from its byte range; when `expected` holds a
/// well-formed value encoded there, decoding succeeds.
pub fn decode_field<T: SszCodec>(bytes: &[u8], ranges: &Vec<(usize, usize)>, i: usize, Ghost(expected): Ghost<Option<T>>) -> (r: Result<T, DeserializeError>)
    requires
        i < ranges@.len(),
        forall|k: int| 0 <= k < ranges@.len() ==> #[trigger] ranges@[k].0 <= ranges@[k].1 <= bytes@.len(),
        expected matches Some(w) ==> w.spec_wf() && w.spec_encoding() == bytes@.subrange(ranges@[i as int].0 as int, ranges@[i as int].1 as int)
            && bytes@.len() <= u32::MAX,
    ensures
        r matches Ok(x) ==> x.spec_wf() && x.spec_encoding() == bytes@.subrange(ranges@[i as int].0 as int, ranges@[i as int].1 as int),
        expected is Some ==> r is Ok,
{
    let (lo, hi) = ranges[i];
    let piece = vstd::slice::slice_subrange(bytes, lo, hi);
    T::ssz_decode(piece)
}

} // verus!
