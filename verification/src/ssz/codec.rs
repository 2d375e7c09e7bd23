//! The SSZ codec interface shared by every encodable type, with the pieces
//! that composite encodings are built from: 4-byte offsets, concatenation of
//! parts, merkleization up to a fixed tree depth and length mix-in.
use vstd::prelude::*;

use super::basic::{
    deserialize_bool, deserialize_u64, deserialize_u8, lemma_u64_from_le_roundtrip,
    lemma_u64_le_roundtrip, serialize_bool, serialize_bytes, serialize_u64, serialize_u8,
    spec_bool_root, spec_deserialize_bool, spec_u64_le, spec_u64_root, spec_u8_root, bool_byte, zeros,
};
use super::error::DeserializeError;
use super::merkle::{
    hash_pair, hash_layer, merkleize_byte_sequence, nodes_view, spec_hash_pair,
    spec_merkleize_bytes, zero_hash, empty_chunk, Node,
};

verus! {

/// A type with an SSZ encoding and hash-tree-root.
///
/// `spec_wf` is the bound a value must respect to be encodable (list
/// lengths within their limits); the decoder only ever produces values that
/// respect it.
pub trait SszCodec: Sized {
    /// The encoded size when every value has the same one; `None` for
    /// variable-size types.
    spec fn spec_fixed_size() -> Option<nat>;

    /// Whether values are packed into shared chunks when they sit in a list or
    /// vector (basic integers and booleans), rather than each contributing its
    /// own hash-tree-root.
    spec fn spec_packed() -> bool;

    /// Whether the value respects its type's bounds.
    spec fn spec_wf(&self) -> bool;

    /// The SSZ encoding.
    spec fn spec_encoding(&self) -> Seq<u8>;

    /// The hash-tree-root.
    spec fn spec_tree_root(&self) -> Seq<u8>;

    /// Fixed sizes are positive; packed values are one or eight bytes.
    proof fn lemma_layout()
        ensures
            Self::spec_fixed_size() matches Some(n) ==> n > 0,
            Self::spec_packed() ==> (Self::spec_fixed_size() == Some(1nat) || Self::spec_fixed_size() == Some(8nat)),
    ;

    /// Fixed-size values encode to exactly their size.
    proof fn lemma_shape(x: &Self)
        requires
            x.spec_wf(),
        ensures
            Self::spec_fixed_size() matches Some(n) ==> x.spec_encoding().len() == n,
    ;

    /// `spec_fixed_size`, at run time.
    fn ssz_fixed_size() -> (r: Option<usize>)
        ensures
            r matches Some(n) ==> Self::spec_fixed_size() == Some(n as nat),
            r is None ==> Self::spec_fixed_size() is None,
    ;

    /// `spec_packed`, at run time.
    fn ssz_packed() -> (r: bool)
        ensures
            r == Self::spec_packed(),
    ;

    /// Append the encoding; offsets inside it must fit in four bytes.
    fn ssz_encode(&self, buffer: &mut Vec<u8>)
        requires
            self.spec_wf(),
            self.spec_encoding().len() <= u32::MAX,
        ensures
            final(buffer)@ == old(buffer)@ + self.spec_encoding(),
    ;

    /// Decode a value from exactly the given bytes.
    ///
    /// Whatever it returns encodes back to `bytes`; and it accepts the
    /// encoding of every well-formed value whose offsets fit in four bytes.
    fn ssz_decode(bytes: &[u8]) -> (r: Result<Self, DeserializeError>)
        ensures
            r matches Ok(v) ==> v.spec_wf() && v.spec_encoding() == bytes@,
            bytes@.len() <= u32::MAX && (exists|v: Self| v.spec_wf() && #[trigger] v.spec_encoding() == bytes@)
                ==> r is Ok,
    ;

    /// The hash-tree-root.
    fn ssz_root(&self) -> (r: Node)
        requires
            self.spec_wf(),
        ensures
            r.0@ == self.spec_tree_root(),
    ;
}

/// The concatenation of byte strings, in order.
pub open spec fn spec_concat(pieces: Seq<Seq<u8>>) -> Seq<u8>
    decreases pieces.len(),
{
    if pieces.len() == 0 {
        Seq::empty()
    } else {
        spec_concat(pieces.drop_last()) + pieces.last()
    }
}

/// The total length of the first `k` pieces.
pub open spec fn spec_prefix_len(pieces: Seq<Seq<u8>>, k: int) -> int
    decreases k,
{
    if k <= 0 {
        0
    } else {
        spec_prefix_len(pieces, k - 1) + pieces[k - 1].len()
    }
}

/// The concatenation of the first `k` pieces has their total length.
pub proof fn lemma_concat_len(pieces: Seq<Seq<u8>>)
    ensures
        spec_concat(pieces).len() == spec_prefix_len(pieces, pieces.len() as int),
    decreases pieces.len(),
{
    if pieces.len() > 0 {
        lemma_concat_len(pieces.drop_last());
        lemma_prefix_len_drop_last(pieces, pieces.len() - 1);
    }
}

/// Prefix lengths only look at the pieces they cover.
pub proof fn lemma_prefix_len_drop_last(pieces: Seq<Seq<u8>>, k: int)
    requires
        0 <= k <= pieces.len() - 1,
    ensures
        spec_prefix_len(pieces.drop_last(), k) == spec_prefix_len(pieces, k),
    decreases k,
{
    if k > 0 {
        lemma_prefix_len_drop_last(pieces, k - 1);
    }
}

/// Prefix lengths are never negative.
pub proof fn lemma_prefix_len_nonneg(pieces: Seq<Seq<u8>>, k: int)
    ensures
        0 <= spec_prefix_len(pieces, k),
    decreases k,
{
    if k > 0 {
        lemma_prefix_len_nonneg(pieces, k - 1);
    }
}

/// Prefix lengths grow with the prefix.
pub proof fn lemma_prefix_len_mono(pieces: Seq<Seq<u8>>, j: int, k: int)
    requires
        0 <= j <= k <= pieces.len(),
    ensures
        0 <= spec_prefix_len(pieces, j) <= spec_prefix_len(pieces, k),
    decreases k - j,
{
    lemma_prefix_len_nonneg(pieces, j);
    if j < k {
        lemma_prefix_len_mono(pieces, j, k - 1);
    }
}

/// Piece `i` sits in the concatenation right after the pieces before it.
pub proof fn lemma_concat_piece(pieces: Seq<Seq<u8>>, i: int)
    requires
        0 <= i < pieces.len(),
    ensures
        spec_prefix_len(pieces, i) + pieces[i].len() <= spec_concat(pieces).len(),
        spec_concat(pieces).subrange(
            spec_prefix_len(pieces, i) as int,
            spec_prefix_len(pieces, i) + pieces[i].len(),
        ) == pieces[i],
    decreases pieces.len(),
{
    let n = pieces.len() as int;
    let front = pieces.drop_last();
    lemma_concat_len(front);
    lemma_concat_len(pieces);
    if i == n - 1 {
        lemma_prefix_len_drop_last(pieces, i);
        assert(spec_concat(pieces).subrange(spec_prefix_len(pieces, i) as int, spec_prefix_len(pieces, i) + pieces[i].len())
            =~= pieces[i]);
    } else {
        lemma_concat_piece(front, i);
        lemma_prefix_len_drop_last(pieces, i);
        lemma_prefix_len_drop_last(pieces, i + 1);
        lemma_prefix_len_mono(front, i + 1, n - 1);
        lemma_prefix_len_nonneg(pieces, i);
        let a = spec_prefix_len(pieces, i);
        let b = a + pieces[i].len();
        assert(front[i] == pieces[i]);
        assert(spec_prefix_len(front, i + 1) == b);
        assert(spec_concat(pieces) == spec_concat(front) + pieces.last());
        assert(b <= spec_concat(front).len());
        assert(spec_concat(pieces).subrange(a, b) =~= spec_concat(front).subrange(a, b));
    }
}

/// A byte string cut into consecutive segments equal to the pieces, with
/// nothing left over, is their concatenation.
pub proof fn lemma_concat_from_cuts(bytes: Seq<u8>, pieces: Seq<Seq<u8>>)
    requires
        spec_prefix_len(pieces, pieces.len() as int) == bytes.len(),
        forall|i: int| 0 <= i < pieces.len() ==> bytes.subrange(
            spec_prefix_len(pieces, i) as int,
            spec_prefix_len(pieces, i) + pieces[i].len(),
        ) == #[trigger] pieces[i],
    ensures
        bytes == spec_concat(pieces),
    decreases pieces.len(),
{
    let n = pieces.len() as int;
    if n == 0 {
        assert(bytes =~= Seq::<u8>::empty());
    } else {
        let front = pieces.drop_last();
        let cut = spec_prefix_len(pieces, n - 1);
        lemma_prefix_len_drop_last(pieces, n - 1);
        lemma_prefix_len_nonneg(pieces, n - 1);
        assert(cut + pieces[n - 1].len() == bytes.len());
        assert forall|i: int| 0 <= i < front.len() implies bytes.subrange(0, cut as int).subrange(
            spec_prefix_len(front, i) as int,
            spec_prefix_len(front, i) + front[i].len(),
        ) == #[trigger] front[i] by {
            lemma_prefix_len_drop_last(pieces, i);
            lemma_prefix_len_drop_last(pieces, i + 1);
            lemma_prefix_len_mono(pieces, i + 1, n - 1);
            lemma_prefix_len_nonneg(pieces, i);
            let a = spec_prefix_len(pieces, i);
            let b = a + pieces[i].len();
            assert(front[i] == pieces[i]);
            assert(bytes.subrange(a, b) == pieces[i]);
            assert(bytes.subrange(0, cut as int).subrange(a, b) =~= bytes.subrange(a, b));
        }
        lemma_prefix_len_drop_last(pieces, n - 1);
        lemma_concat_from_cuts(bytes.subrange(0, cut as int), front);
        assert(bytes.subrange(cut as int, bytes.len() as int) == pieces[n - 1]);
        assert(bytes =~= bytes.subrange(0, cut as int) + pieces[n - 1]);
    }
}

/// The 4-byte little-endian encoding of an offset.
pub open spec fn spec_le32(n: nat) -> Seq<u8> {
    seq![
        (n % 256) as u8,
        ((n / 256) % 256) as u8,
        ((n / 65536) % 256) as u8,
        ((n / 16777216) % 256) as u8,
    ]
}

/// The number 4 little-endian bytes stand for.
pub open spec fn spec_le32_value(b: Seq<u8>) -> nat {
    (b[0] + 256 * b[1] + 65536 * b[2] + 16777216 * b[3]) as nat
}

/// Offsets below `2^32` are read back as written.
pub proof fn lemma_le32_roundtrip(n: nat)
    requires
        n <= u32::MAX,
    ensures
        spec_le32_value(spec_le32(n)) == n,
        spec_le32(n).len() == 4,
{
    let b = spec_le32(n);
    assert(b[0] == n % 256);
    assert(b[1] == (n / 256) % 256);
    assert(b[2] == (n / 65536) % 256);
    assert(b[3] == (n / 16777216) % 256) by (nonlinear_arith) requires n <= u32::MAX, b[3] == ((n / 16777216) % 256) as u8;
    assert(n % 256 + 256 * ((n / 256) % 256) + 65536 * ((n / 65536) % 256) + 16777216 * ((n / 16777216) % 256) == n)
        by (nonlinear_arith) requires n <= u32::MAX;
}

/// Four bytes are the encoding of the number they stand for.
pub proof fn lemma_le32_from_bytes(b: Seq<u8>)
    requires
        b.len() == 4,
    ensures
        spec_le32(spec_le32_value(b)) == b,
        spec_le32_value(b) <= u32::MAX,
{
    let n = spec_le32_value(b);
    let (b0, b1, b2, b3) = (b[0] as int, b[1] as int, b[2] as int, b[3] as int);
    assert(n % 256 == b0 && (n / 256) % 256 == b1 && (n / 65536) % 256 == b2 && (n / 16777216) % 256 == b3
        && n <= u32::MAX) by (nonlinear_arith)
        requires
            n == b0 + 256 * b1 + 65536 * b2 + 16777216 * b3,
            0 <= b0 < 256, 0 <= b1 < 256, 0 <= b2 < 256, 0 <= b3 < 256,
    ;
    assert(spec_le32(n) =~= b);
}

/// Append a 4-byte little-endian offset.
pub fn push_le32(buffer: &mut Vec<u8>, x: u32)
    ensures
        final(buffer)@ == old(buffer)@ + spec_le32(x as nat),
{
    buffer.push((x % 256) as u8);
    buffer.push(((x / 256) % 256) as u8);
    buffer.push(((x / 65536) % 256) as u8);
    buffer.push(((x / 16777216) % 256) as u8);
    assert(buffer@ =~= old(buffer)@ + spec_le32(x as nat));
}

/// Read a 4-byte little-endian offset at `pos`.
pub fn read_le32(bytes: &[u8], pos: usize) -> (r: u32)
    requires
        pos + 4 <= bytes@.len(),
    ensures
        r == spec_le32_value(bytes@.subrange(pos as int, pos + 4)),
{
    let b0 = bytes[pos] as u32;
    let b1 = bytes[pos + 1] as u32;
    let b2 = bytes[pos + 2] as u32;
    let b3 = bytes[pos + 3] as u32;
    b0 + 256 * b1 + 65536 * b2 + 16777216 * b3
}

/// The depth of the smallest full binary tree with at least `limit` leaves.
pub open spec fn spec_depth_for(limit: nat) -> nat
    decreases limit,
{
    if limit <= 1 {
        0
    } else {
        1 + spec_depth_for(((limit + 1) / 2) as nat)
    }
}

/// Root of `nodes` taken as the layer at `depth`, hashed up with zero
/// subtrees to the layer at `target`.
pub open spec fn merkleize_to_depth(nodes: Seq<Seq<u8>>, depth: nat, target: nat) -> Seq<u8>
    decreases target - depth,
{
    if depth >= target {
        if nodes.len() == 0 {
            zero_hash(depth)
        } else {
            nodes[0]
        }
    } else {
        merkleize_to_depth(hash_layer(nodes, depth), depth + 1, target)
    }
}

/// The SSZ merkle root of `chunks` in a tree sized for `limit` chunks.
pub open spec fn spec_merkleize_limit(chunks: Seq<Seq<u8>>, limit: nat) -> Seq<u8> {
    merkleize_to_depth(chunks, 0, spec_depth_for(limit))
}

/// A root mixed with a length: the hash of the root and the length as a
/// 32-byte little-endian number.
pub open spec fn spec_mix_in_length(root: Seq<u8>, len: nat) -> Seq<u8> {
    spec_hash_pair(root, spec_u64_le(len as u64) + zeros(24))
}

/// `spec_depth_for`, at run time.
pub fn depth_for_limit(limit: u64) -> (r: usize)
    ensures
        r == spec_depth_for(limit as nat),
        r <= 64,
{
    proof {
        vstd::arithmetic::power2::lemma2_to64();
        lemma_depth_pow(limit as nat, 64);
    }
    depth_for_limit_rec(limit)
}

/// `spec_depth_for`, by the same recursion.
fn depth_for_limit_rec(limit: u64) -> (r: usize)
    requires
        spec_depth_for(limit as nat) <= 64,
    ensures
        r == spec_depth_for(limit as nat),
    decreases limit,
{
    if limit <= 1 {
        0
    } else {
        let half = limit / 2 + limit % 2;
        assert(half == (limit + 1) / 2);
        1 + depth_for_limit_rec(half)
    }
}

/// A number at most `2^k` needs depth at most `k`.
pub proof fn lemma_depth_pow(n: nat, k: nat)
    requires
        n <= vstd::arithmetic::power2::pow2(k),
    ensures
        spec_depth_for(n) <= k,
    decreases k,
{
    if n > 1 {
        if k == 0 {
            vstd::arithmetic::power2::lemma2_to64();
        } else {
            vstd::arithmetic::power2::lemma_pow2_unfold(k);
            lemma_depth_pow(((n + 1) / 2) as nat, (k - 1) as nat);
        }
    }
}

/// The merkle root of `chunks` in a tree of the given depth.
pub fn merkleize_chunks_to_depth(chunks: Vec<[u8; 32]>, depth: usize) -> (r: [u8; 32])
    ensures
        r@ == merkleize_to_depth(nodes_view(chunks@), 0, depth as nat),
{
    let mut layer = chunks;
    let mut zero = empty_chunk();
    let mut d: usize = 0;
    assert(zero@ =~= zero_hash(0));
    let ghost whole = nodes_view(chunks@);
    while d < depth
        invariant
            d <= depth,
            zero@ == zero_hash(d as nat),
            merkleize_to_depth(nodes_view(layer@), d as nat, depth as nat) == merkleize_to_depth(whole, 0, depth as nat),
        decreases depth - d,
    {
        let next = next_layer_at(&layer, &zero, Ghost(d as nat));
        zero = hash_pair(&zero, &zero);
        layer = next;
        d = d + 1;
    }
    if layer.len() == 0 {
        zero
    } else {
        layer[0]
    }
}

/// The next layer up of a layer at `depth` whose zero subtree is `zero`.
fn next_layer_at(layer: &Vec<[u8; 32]>, zero: &[u8; 32], Ghost(depth): Ghost<nat>) -> (r: Vec<[u8; 32]>)
    requires
        zero@ == zero_hash(depth),
    ensures
        nodes_view(r@) =~= hash_layer(nodes_view(layer@), depth),
{
    let ghost target = hash_layer(nodes_view(layer@), depth);
    let mut next: Vec<[u8; 32]> = Vec::new();
    let mut i: usize = 0;
    let n = layer.len();
    while i < n
        invariant
            n == layer@.len(),
            i <= n,
            i % 2 == 0 || i == n,
            next@.len() == (i + 1) / 2,
            zero@ == zero_hash(depth),
            target == hash_layer(nodes_view(layer@), depth),
            forall|k: int| 0 <= k < next@.len() ==> #[trigger] next@[k]@ == target[k],
        decreases n - i,
    {
        let ghost k = (i / 2) as int;
        if n - i >= 2 {
            let h = hash_pair(&layer[i], &layer[i + 1]);
            assert(target[k] == spec_hash_pair(layer@[i as int]@, layer@[i + 1]@));
            next.push(h);
            i = i + 2;
        } else {
            let h = hash_pair(&layer[i], zero);
            assert(target[k] == spec_hash_pair(layer@[i as int]@, zero_hash(depth)));
            next.push(h);
            i = i + 1;
        }
    }
    next
}

/// Mix a length into a root.
pub fn mix_in_length(root: &[u8; 32], len: u64) -> (r: [u8; 32])
    ensures
        r@ == spec_mix_in_length(root@, len as nat),
{
    let mut chunk = empty_chunk();
    let mut k: usize = 0;
    while k < 8
        invariant
            k <= 8,
            forall|t: int| 0 <= t < k ==> #[trigger] chunk@[t] == spec_u64_le(len)[t],
            forall|t: int| k <= t < 32 ==> #[trigger] chunk@[t] == 0u8,
        decreases 8 - k,
    {
        chunk[k] = ((len >> (8 * k as u64)) & 0xff) as u8;
        k = k + 1;
    }
    assert(chunk@ =~= spec_u64_le(len) + zeros(24));
    hash_pair(root, &chunk)
}

impl SszCodec for u64 {
    open spec fn spec_fixed_size() -> Option<nat> {
        Some(8)
    }

    open spec fn spec_packed() -> bool {
        true
    }

    open spec fn spec_wf(&self) -> bool {
        true
    }

    open spec fn spec_encoding(&self) -> Seq<u8> {
        spec_u64_le(*self)
    }

    open spec fn spec_tree_root(&self) -> Seq<u8> {
        spec_u64_root(*self)
    }

    proof fn lemma_layout() {
    }

    proof fn lemma_shape(x: &Self) {
        lemma_u64_le_roundtrip(*x);
    }

    fn ssz_fixed_size() -> (r: Option<usize>) {
        Some(8)
    }

    fn ssz_packed() -> (r: bool) {
        true
    }

    fn ssz_encode(&self, buffer: &mut Vec<u8>) {
        let _ = serialize_u64(*self, buffer);
    }

    fn ssz_decode(bytes: &[u8]) -> (r: Result<Self, DeserializeError>) {
        let r = deserialize_u64(bytes);
        proof {
            if r is Ok {
                lemma_u64_from_le_roundtrip(bytes@);
            }
            if exists|v: u64| v.spec_wf() && #[trigger] v.spec_encoding() == bytes@ {
                let v = choose|v: u64| v.spec_wf() && #[trigger] v.spec_encoding() == bytes@;
                lemma_u64_le_roundtrip(v);
            }
        }
        r
    }

    fn ssz_root(&self) -> (r: Node) {
        match super::basic::hash_tree_root_u64(*self) {
            Ok(n) => n,
            Err(_) => Node([0u8; 32]),
        }
    }
}

impl SszCodec for u8 {
    open spec fn spec_fixed_size() -> Option<nat> {
        Some(1)
    }

    open spec fn spec_packed() -> bool {
        true
    }

    open spec fn spec_wf(&self) -> bool {
        true
    }

    open spec fn spec_encoding(&self) -> Seq<u8> {
        seq![*self]
    }

    open spec fn spec_tree_root(&self) -> Seq<u8> {
        spec_u8_root(*self)
    }

    proof fn lemma_layout() {
    }

    proof fn lemma_shape(x: &Self) {
    }

    fn ssz_fixed_size() -> (r: Option<usize>) {
        Some(1)
    }

    fn ssz_packed() -> (r: bool) {
        true
    }

    fn ssz_encode(&self, buffer: &mut Vec<u8>) {
        let _ = serialize_u8(*self, buffer);
    }

    fn ssz_decode(bytes: &[u8]) -> (r: Result<Self, DeserializeError>) {
        let r = deserialize_u8(bytes);
        proof {
            if r is Ok {
                assert(seq![bytes@[0]] =~= bytes@);
            }
        }
        r
    }

    fn ssz_root(&self) -> (r: Node) {
        match super::basic::hash_tree_root_u8(*self) {
            Ok(n) => n,
            Err(_) => Node([0u8; 32]),
        }
    }
}

impl SszCodec for bool {
    open spec fn spec_fixed_size() -> Option<nat> {
        Some(1)
    }

    open spec fn spec_packed() -> bool {
        true
    }

    open spec fn spec_wf(&self) -> bool {
        true
    }

    open spec fn spec_encoding(&self) -> Seq<u8> {
        seq![bool_byte(*self)]
    }

    open spec fn spec_tree_root(&self) -> Seq<u8> {
        spec_bool_root(*self)
    }

    proof fn lemma_layout() {
    }

    proof fn lemma_shape(x: &Self) {
    }

    fn ssz_fixed_size() -> (r: Option<usize>) {
        Some(1)
    }

    fn ssz_packed() -> (r: bool) {
        true
    }

    fn ssz_encode(&self, buffer: &mut Vec<u8>) {
        let _ = serialize_bool(*self, buffer);
    }

    fn ssz_decode(bytes: &[u8]) -> (r: Result<Self, DeserializeError>) {
        let r = deserialize_bool(bytes);
        proof {
            if r is Ok {
                assert(seq![bool_byte(r->Ok_0)] =~= bytes@);
            }
        }
        r
    }

    fn ssz_root(&self) -> (r: Node) {
        match super::basic::hash_tree_root_bool(*self) {
            Ok(n) => n,
            Err(_) => Node([0u8; 32]),
        }
    }
}

impl SszCodec for [u8; 32] {
    open spec fn spec_fixed_size() -> Option<nat> {
        Some(32)
    }

    open spec fn spec_packed() -> bool {
        false
    }

    open spec fn spec_wf(&self) -> bool {
        true
    }

    open spec fn spec_encoding(&self) -> Seq<u8> {
        self@
    }

    open spec fn spec_tree_root(&self) -> Seq<u8> {
        spec_merkleize_bytes(self@)
    }

    proof fn lemma_layout() {
    }

    proof fn lemma_shape(x: &Self) {
    }

    fn ssz_fixed_size() -> (r: Option<usize>) {
        Some(32)
    }

    fn ssz_packed() -> (r: bool) {
        false
    }

    fn ssz_encode(&self, buffer: &mut Vec<u8>) {
        let _ = serialize_bytes(self, buffer);
    }

    fn ssz_decode(bytes: &[u8]) -> (r: Result<Self, DeserializeError>) {
        super::basic::deserialize_bytes::<32>(bytes)
    }

    fn ssz_root(&self) -> (r: Node) {
        merkleize_byte_sequence(self.as_slice())
    }
}

} // verus!
