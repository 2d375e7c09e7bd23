//! SSZ for bit sequences: bits are packed eight to a byte, least significant
//! bit first. A bitvector has a known length; a bitlist marks its end with one
//! extra set bit, the delimiter.
use vstd::prelude::*;
use vstd::arithmetic::power2::{lemma_pow2_unfold, lemma2_to64, pow2};

use super::codec::{mix_in_length, spec_merkleize_limit, spec_mix_in_length, SszCodec};
use super::collection::{Bitlist, Bitvector};
use super::error::DeserializeError;
use super::merkle::{merkleize_byte_sequence, nodes_view, pack_bytes, spec_pack, Node};

verus! {

/// The number at most eight bits stand for, least significant first.
pub open spec fn spec_bits_value(bits: Seq<bool>) -> nat
    decreases bits.len(),
{
    if bits.len() == 0 {
        0
    } else {
        (if bits[0] { 1nat } else { 0nat }) + 2 * spec_bits_value(bits.drop_first())
    }
}

/// The low `m` bits of `b`, least significant first.
pub open spec fn spec_bits_of(b: nat, m: nat) -> Seq<bool>
    decreases m,
{
    if m == 0 {
        Seq::empty()
    } else {
        seq![b % 2 == 1] + spec_bits_of(b / 2, (m - 1) as nat)
    }
}

/// The bits of byte `j` of a packed bit sequence.
pub open spec fn spec_bit_group(bits: Seq<bool>, j: int) -> Seq<bool> {
    bits.subrange(8 * j, if 8 * j + 8 <= bits.len() { 8 * j + 8 } else { bits.len() as int })
}

/// Bits packed eight to a byte, least significant first, the last byte
/// zero-padded.
pub open spec fn spec_pack_bits(bits: Seq<bool>) -> Seq<u8> {
    Seq::new(((bits.len() + 7) / 8) as nat, |j: int| spec_bits_value(spec_bit_group(bits, j)) as u8)
}

/// Bits stand for a number below two to their count, and the low bits of
/// that number are the bits again.
pub proof fn lemma_bits_value_roundtrip(bits: Seq<bool>)
    ensures
        spec_bits_value(bits) < pow2(bits.len()),
        spec_bits_of(spec_bits_value(bits), bits.len()) == bits,
    decreases bits.len(),
{
    if bits.len() == 0 {
        lemma2_to64();
    } else {
        let rest = bits.drop_first();
        lemma_bits_value_roundtrip(rest);
        lemma_pow2_unfold(bits.len());
        let c: nat = if bits[0] { 1 } else { 0 };
        let v = spec_bits_value(rest);
        assert((c + 2 * v) % 2 == c && (c + 2 * v) / 2 == v) by (nonlinear_arith) requires c <= 1;
        assert(spec_bits_of(c + 2 * v, bits.len()) =~= bits);
    }
}

/// The low `m` bits of `b` stand for `b` modulo two to the `m`.
pub proof fn lemma_bits_of_value(b: nat, m: nat)
    ensures
        spec_bits_value(spec_bits_of(b, m)) == b % pow2(m),
        spec_bits_of(b, m).len() == m,
    decreases m,
{
    if m == 0 {
        lemma2_to64();
    } else {
        lemma_bits_of_value(b / 2, (m - 1) as nat);
        lemma_pow2_unfold(m);
        let p = pow2((m - 1) as nat);
        vstd::arithmetic::power2::lemma_pow2_pos((m - 1) as nat);
        let bits = spec_bits_of(b, m);
        assert(bits.drop_first() =~= spec_bits_of(b / 2, (m - 1) as nat));
        lemma_mod_halving(b as int, p as int);
    }
}

/// `b mod 2p` from its lowest bit and the rest.
proof fn lemma_mod_halving(b: int, p: int)
    requires
        b >= 0,
        p > 0,
    ensures
        b % 2 + 2 * ((b / 2) % p) == b % (2 * p),
{
    let q = b / 2;
    let r = b % 2;
    vstd::arithmetic::div_mod::lemma_fundamental_div_mod(b, 2);
    vstd::arithmetic::div_mod::lemma_fundamental_div_mod(q, p);
    let t = q / p;
    let u = q % p;
    assert(b == t * (2 * p) + (2 * u + r)) by (nonlinear_arith)
        requires b == 2 * q + r, q == p * t + u;
    assert(0 <= 2 * u + r < 2 * p);
    vstd::arithmetic::div_mod::lemma_fundamental_div_mod_converse(b, 2 * p, t, 2 * u + r);
}

/// The first `m` of the low `k` bits are the low `m` bits.
pub proof fn lemma_bits_of_prefix(b: nat, k: nat, m: nat)
    requires
        m <= k,
    ensures
        spec_bits_of(b, k).subrange(0, m as int) == spec_bits_of(b, m),
    decreases m,
{
    lemma_bits_of_value(b, k);
    lemma_bits_of_value(b, m);
    if m > 0 {
        lemma_bits_of_prefix(b / 2, (k - 1) as nat, (m - 1) as nat);
        assert(spec_bits_of(b, k).subrange(0, m as int) =~= seq![b % 2 == 1] + spec_bits_of(b / 2, (k - 1) as nat).subrange(0, m - 1));
    } else {
        assert(spec_bits_of(b, k).subrange(0, 0) =~= Seq::<bool>::empty());
    }
}

/// Bits followed by a set bit stand for their value plus two to their count.
pub proof fn lemma_bits_value_push_true(bits: Seq<bool>)
    ensures
        spec_bits_value(bits.push(true)) == spec_bits_value(bits) + pow2(bits.len()),
    decreases bits.len(),
{
    let pushed = bits.push(true);
    if bits.len() == 0 {
        lemma2_to64();
        assert(pushed.drop_first() =~= Seq::<bool>::empty());
        assert(spec_bits_value(pushed) == 1 + 2 * spec_bits_value(pushed.drop_first()));
    } else {
        assert(pushed.drop_first() =~= bits.drop_first().push(true));
        lemma_bits_value_push_true(bits.drop_first());
        lemma_pow2_unfold(bits.len());
        assert(pushed[0] == bits[0]);
        assert(spec_bits_value(pushed) == (if bits[0] { 1nat } else { 0nat }) + 2 * spec_bits_value(pushed.drop_first()));
    }
}

/// The bits of a byte, least significant first.
fn byte_bits(b: u8, m: usize) -> (r: Vec<bool>)
    requires
        m <= 8,
    ensures
        r@ == spec_bits_of(b as nat, m as nat),
    decreases m,
{
    if m == 0 {
        Vec::new()
    } else {
        let mut out: Vec<bool> = Vec::new();
        out.push(b % 2 == 1);
        let mut rest = byte_bits(b / 2, m - 1);
        out.append(&mut rest);
        assert(out@ =~= spec_bits_of(b as nat, m as nat));
        out
    }
}

/// The byte at most eight bits stand for.
fn bits_byte(bits: &[bool]) -> (r: u8)
    requires
        bits@.len() <= 8,
    ensures
        r == spec_bits_value(bits@),
    decreases bits@.len(),
{
    proof {
        lemma_bits_value_roundtrip(bits@);
        lemma2_to64();
        if bits@.len() < 8 {
            vstd::arithmetic::power2::lemma_pow2_strictly_increases(bits@.len(), 8);
        }
    }
    if bits.len() == 0 {
        0
    } else {
        let rest = vstd::slice::slice_subrange(bits, 1, bits.len());
        assert(rest@ =~= bits@.drop_first());
        let v = bits_byte(rest);
        let c: u8 = if bits[0] { 1 } else { 0 };
        c + 2 * v
    }
}

/// Pack bits into bytes.
pub fn pack_bits(bits: &[bool], buffer: &mut Vec<u8>)
    ensures
        final(buffer)@ == old(buffer)@ + spec_pack_bits(bits@),
{
    let n = bits.len();
    let bytes_len = n / 8 + if n % 8 == 0 { 0 } else { 1 };
    assert(bytes_len == (n + 7) / 8);
    let ghost start = buffer@;
    let mut j: usize = 0;
    while j < bytes_len
        invariant
            n == bits@.len(),
            bytes_len == (n + 7) / 8,
            j <= bytes_len,
            buffer@ == start + spec_pack_bits(bits@).subrange(0, j as int),
        decreases bytes_len - j,
    {
        let lo = 8 * j;
        assert(lo <= n);
        let hi = if n - lo >= 8 { lo + 8 } else { n };
        let group = vstd::slice::slice_subrange(bits, lo, hi);
        assert(group@ == spec_bit_group(bits@, j as int));
        let b = bits_byte(group);
        buffer.push(b);
        proof {
            assert(spec_pack_bits(bits@).subrange(0, j + 1) =~= spec_pack_bits(bits@).subrange(0, j as int).push(b));
        }
        j = j + 1;
    }
    assert(spec_pack_bits(bits@).subrange(0, bytes_len as int) =~= spec_pack_bits(bits@));
}

/// Bit `i` of packed bytes.
pub open spec fn spec_unpacked_bit(bytes: Seq<u8>, i: int) -> bool {
    spec_bits_of(bytes[i / 8] as nat, 8)[i % 8]
}

/// Unpack the first `n` bits of `bytes`: every byte before `full` whole, then
/// `extra` bits of the next.
fn unpack_bits(bytes: &[u8], full: usize, extra: usize) -> (r: Vec<bool>)
    requires
        extra < 8,
        full + (if extra > 0 { 1int } else { 0int }) <= bytes@.len(),
    ensures
        r@.len() == 8 * full + extra,
        forall|i: int| 0 <= i < r@.len() ==> #[trigger] r@[i] == spec_unpacked_bit(bytes@, i),
{
    let mut out: Vec<bool> = Vec::new();
    let mut j: usize = 0;
    while j < full
        invariant
            j <= full,
            full <= bytes@.len(),
            out@.len() == 8 * j,
            forall|i: int| 0 <= i < out@.len() ==> #[trigger] out@[i] == spec_unpacked_bit(bytes@, i),
        decreases full - j,
    {
        let mut group = byte_bits(bytes[j], 8);
        let ghost before = out@;
        proof { lemma_bits_of_value(bytes@[j as int] as nat, 8); }
        out.append(&mut group);
        proof {
            assert forall|i: int| 0 <= i < out@.len() implies #[trigger] out@[i] == spec_unpacked_bit(bytes@, i) by {
                if i >= 8 * j {
                    assert(i / 8 == j && i % 8 == i - 8 * j);
                }
            }
        }
        j = j + 1;
    }
    if extra > 0 {
        let mut group = byte_bits(bytes[full], extra);
        let ghost g = group@;
        proof {
            lemma_bits_of_prefix(bytes@[full as int] as nat, 8, extra as nat);
            lemma_bits_of_value(bytes@[full as int] as nat, extra as nat);
            lemma_bits_of_value(bytes@[full as int] as nat, 8);
        }
        let ghost before = out@;
        out.append(&mut group);
        proof {
            assert forall|i: int| 0 <= i < out@.len() implies #[trigger] out@[i] == spec_unpacked_bit(bytes@, i) by {
                if i >= 8 * full {
                    assert(i / 8 == full && i % 8 == i - 8 * full);
                    assert(out@[i] == g[i - 8 * full]);
                    assert(g == spec_bits_of(bytes@[full as int] as nat, 8).subrange(0, extra as int));
                } else {
                    assert(out@[i] == before[i]);
                }
            }
        }
    }
    out
}

/// `2^k` for `k < 32`.
fn pow2_u32(k: usize) -> (r: u32)
    requires
        k < 32,
    ensures
        r == pow2(k as nat),
{
    let mut p: u32 = 1;
    let mut i: usize = 0;
    proof { lemma2_to64(); }
    while i < k
        invariant
            i <= k < 32,
            p == pow2(i as nat),
        decreases k - i,
    {
        proof {
            lemma_pow2_unfold((i + 1) as nat);
            vstd::arithmetic::power2::lemma_pow2_strictly_increases((i + 1) as nat, 32);
            lemma2_to64();
        }
        p = p * 2;
        i = i + 1;
    }
    p
}

/// Unpacked bits regroup into the bytes they came from.
proof fn lemma_unpacked_group(bytes: Seq<u8>, bits: Seq<bool>, j: int, m: nat)
    requires
        0 <= j < bytes.len(),
        1 <= m <= 8,
        8 * j + m <= bits.len(),
        m < 8 ==> 8 * j + m == bits.len(),
        forall|i: int| 0 <= i < bits.len() ==> #[trigger] bits[i] == spec_unpacked_bit(bytes, i),
    ensures
        spec_bit_group(bits, j) == spec_bits_of(bytes[j] as nat, m),
        spec_bits_value(spec_bit_group(bits, j)) == bytes[j] as nat % pow2(m),
{
    let b = bytes[j] as nat;
    lemma_bits_of_prefix(b, 8, m);
    lemma_bits_of_value(b, 8);
    lemma_bits_of_value(b, m);
    assert forall|k: int| 0 <= k < m implies #[trigger] spec_bit_group(bits, j)[k] == spec_bits_of(b, m)[k] by {
        assert((8 * j + k) / 8 == j && (8 * j + k) % 8 == k);
        assert(spec_bits_of(b, 8).subrange(0, m as int)[k] == spec_bits_of(b, 8)[k]);
    }
    assert(spec_bit_group(bits, j) =~= spec_bits_of(b, m));
}

impl<const N: u64> SszCodec for Bitvector<N> {
    open spec fn spec_fixed_size() -> Option<nat> {
        if N > 0 && (N + 7) / 8 <= u32::MAX {
            Some(((N + 7) / 8) as nat)
        } else {
            None
        }
    }

    open spec fn spec_packed() -> bool {
        false
    }

    open spec fn spec_wf(&self) -> bool {
        self@.len() == N
    }

    open spec fn spec_encoding(&self) -> Seq<u8> {
        spec_pack_bits(self@)
    }

    open spec fn spec_tree_root(&self) -> Seq<u8> {
        spec_merkleize_limit(spec_pack(spec_pack_bits(self@)), ((N + 255) / 256) as nat)
    }

    proof fn lemma_layout() {
    }

    proof fn lemma_shape(x: &Self) {
    }

    fn ssz_fixed_size() -> (r: Option<usize>) {
        let bytes = N / 8 + if N % 8 == 0 { 0 } else { 1 };
        if N > 0 && bytes <= u32::MAX as u64 {
            Some(bytes as usize)
        } else {
            None
        }
    }

    fn ssz_packed() -> (r: bool) {
        false
    }

    fn ssz_encode(&self, buffer: &mut Vec<u8>) {
        pack_bits(self.bits.as_slice(), buffer);
    }

    fn ssz_decode(bytes: &[u8]) -> (r: Result<Self, DeserializeError>) {
        let len = bytes.len();
        let expected: u64 = N / 8 + if N % 8 == 0 { 0 } else { 1 };
        if len as u64 != expected {
            return Err(DeserializeError::WrongItemCount { count: len, expected });
        }
        let full = (N / 8) as usize;
        let extra = (N % 8) as usize;
        let ghost has_witness = exists|v: Self| v.spec_wf() && #[trigger] v.spec_encoding() == bytes@;
        if extra > 0 {
            let limit = pow2_u32(extra);
            let last = bytes[full];
            if last as u32 >= limit {
                proof {
                    if has_witness {
                        let v = choose|v: Self| v.spec_wf() && #[trigger] v.spec_encoding() == bytes@;
                        let g = spec_bit_group(v@, full as int);
                        assert(g.len() == extra);
                        lemma_bits_value_roundtrip(g);
                        assert(bytes@[full as int] == spec_bits_value(g) as u8);
                    }
                }
                return Err(DeserializeError::InvalidByte(last));
            }
        }
        let bits = unpack_bits(bytes, full, extra);
        proof {
            let packed = spec_pack_bits(bits@);
            assert forall|j: int| 0 <= j < len implies #[trigger] packed[j] == bytes@[j] by {
                let m: nat = if j < full { 8 } else { extra as nat };
                lemma_unpacked_group(bytes@, bits@, j, m);
                lemma2_to64();
                vstd::arithmetic::div_mod::lemma_small_mod(bytes@[j] as nat, pow2(m));
            }
            assert(packed =~= bytes@);
        }
        Ok(Bitvector { bits })
    }

    fn ssz_root(&self) -> (r: Node) {
        let mut bytes: Vec<u8> = Vec::new();
        pack_bits(self.bits.as_slice(), &mut bytes);
        let chunks = pack_bytes(bytes.as_slice());
        let limit = N / 256 + if N % 256 == 0 { 0 } else { 1 };
        assert(limit == (N + 255) / 256);
        let depth = super::codec::depth_for_limit(limit);
        Node(super::codec::merkleize_chunks_to_depth(chunks, depth))
    }
}

/// The position of the highest set bit of a non-zero byte.
fn highest_bit(b: u8) -> (r: usize)
    requires
        b > 0,
    ensures
        r < 8,
        pow2(r as nat) <= b < pow2((r + 1) as nat),
{
    proof { lemma2_to64(); }
    let mut h: usize = 7;
    while b < (pow2_u32(h) as u8)
        invariant
            h < 8,
            b < pow2((h + 1) as nat),
            b > 0,
        decreases h,
    {
        proof { lemma2_to64(); }
        h = h - 1;
    }
    h
}

impl<const N: u64> SszCodec for Bitlist<N> {
    open spec fn spec_fixed_size() -> Option<nat> {
        None
    }

    open spec fn spec_packed() -> bool {
        false
    }

    open spec fn spec_wf(&self) -> bool {
        self@.len() <= N
    }

    open spec fn spec_encoding(&self) -> Seq<u8> {
        spec_pack_bits(self@.push(true))
    }

    open spec fn spec_tree_root(&self) -> Seq<u8> {
        spec_mix_in_length(
            spec_merkleize_limit(spec_pack(spec_pack_bits(self@)), ((N + 255) / 256) as nat),
            self@.len(),
        )
    }

    proof fn lemma_layout() {
    }

    proof fn lemma_shape(x: &Self) {
    }

    fn ssz_fixed_size() -> (r: Option<usize>) {
        None
    }

    fn ssz_packed() -> (r: bool) {
        false
    }

    fn ssz_encode(&self, buffer: &mut Vec<u8>) {
        let mut bits: Vec<bool> = Vec::new();
        let n = self.bits.len();
        let mut i: usize = 0;
        while i < n
            invariant
                n == self@.len(),
                i <= n,
                bits@ == self@.subrange(0, i as int),
            decreases n - i,
        {
            bits.push(self.bits[i]);
            i = i + 1;
            assert(bits@ =~= self@.subrange(0, i as int));
        }
        assert(self@.subrange(0, n as int) =~= self@);
        bits.push(true);
        pack_bits(bits.as_slice(), buffer);
    }

    fn ssz_decode(bytes: &[u8]) -> (r: Result<Self, DeserializeError>) {
        let len = bytes.len();
        let ghost has_witness = exists|v: Self| v.spec_wf() && #[trigger] v.spec_encoding() == bytes@;
        let ghost wit = choose|v: Self| v.spec_wf() && #[trigger] v.spec_encoding() == bytes@;
        proof {
            if has_witness {
                lemma_bitlist_encoding_facts(wit@);
            }
        }
        if len == 0 {
            return Err(DeserializeError::ExpectedFurtherInput { provided: 0, expected: 1 });
        }
        let last = bytes[len - 1];
        if last == 0 {
            return Err(DeserializeError::MissingDelimiter);
        }
        let h = highest_bit(last);
        proof {
            if has_witness {
                let n = wit@.len();
                let m = n + 1 - 8 * (len - 1);
                if h + 1 < m {
                    vstd::arithmetic::power2::lemma_pow2_strictly_increases((h + 1) as nat, (m - 1) as nat);
                }
                if h + 1 > m {
                    vstd::arithmetic::power2::lemma_pow2_strictly_increases(m as nat, h as nat);
                }
                assert(h + 1 == m);
            }
        }
        let full = len - 1;
        let count: u128 = 8 * (full as u128) + h as u128;
        if count > N as u128 {
            let shown: usize = if full <= (usize::MAX - 7) / 8 { 8 * full + h } else { usize::MAX };
            return Err(DeserializeError::TooManyItems { count: shown, limit: N });
        }
        let bits = unpack_bits(bytes, full, h);
        proof {
            let with_end = bits@.push(true);
            let packed = spec_pack_bits(with_end);
            assert forall|i: int| 0 <= i < bits@.len() implies #[trigger] with_end[i] == spec_unpacked_bit(bytes@, i) by {
                assert(with_end[i] == bits@[i]);
            }
            assert forall|j: int| 0 <= j < len implies #[trigger] packed[j] == bytes@[j] by {
                lemma2_to64();
                if j < full {
                    assert(spec_bit_group(with_end, j) =~= spec_bit_group(bits@, j));
                    lemma_unpacked_group(bytes@, bits@, j, 8);
                    vstd::arithmetic::div_mod::lemma_small_mod(bytes@[j] as nat, pow2(8));
                } else {
                    let g = spec_bit_group(with_end, j);
                    assert(j == full);
                    assert(g =~= spec_bit_group(bits@, j).push(true) || h == 0);
                    lemma_last_bitlist_byte(bytes@, bits@, full as int, h as nat);
                }
            }
            assert(packed =~= bytes@);
        }
        Ok(Bitlist { bits })
    }

    fn ssz_root(&self) -> (r: Node) {
        let mut bytes: Vec<u8> = Vec::new();
        pack_bits(self.bits.as_slice(), &mut bytes);
        let chunks = pack_bytes(bytes.as_slice());
        let limit = N / 256 + if N % 256 == 0 { 0 } else { 1 };
        assert(limit == (N + 255) / 256);
        let depth = super::codec::depth_for_limit(limit);
        let root = super::codec::merkleize_chunks_to_depth(chunks, depth);
        Node(mix_in_length(&root, self.bits.len() as u64))
    }
}

/// The last byte of a bitlist encoding: the last bits followed by the
/// delimiter.
proof fn lemma_last_bitlist_byte(bytes: Seq<u8>, bits: Seq<bool>, full: int, h: nat)
    requires
        bytes.len() == full + 1,
        full >= 0,
        h < 8,
        bits.len() == 8 * full + h,
        pow2(h) <= bytes[full] < pow2(h + 1),
        forall|i: int| 0 <= i < bits.len() ==> #[trigger] bits[i] == spec_unpacked_bit(bytes, i),
    ensures
        spec_bits_value(spec_bit_group(bits.push(true), full)) == bytes[full],
{
    let with_end = bits.push(true);
    let g = spec_bit_group(with_end, full);
    let b = bytes[full] as nat;
    let prefix = spec_bits_of(b, h);
    lemma_bits_of_prefix(b, 8, h);
    lemma_bits_of_value(b, 8);
    lemma_bits_of_value(b, h);
    assert forall|k: int| 0 <= k < h implies #[trigger] g[k] == prefix[k] by {
        assert((8 * full + k) / 8 == full && (8 * full + k) % 8 == k);
        assert(g[k] == bits[8 * full + k]);
        assert(spec_bits_of(b, 8).subrange(0, h as int)[k] == spec_bits_of(b, 8)[k]);
    }
    assert(g =~= prefix.push(true));
    lemma_bits_value_push_true(prefix);
    // b mod 2^h plus 2^h is b itself, since b lies in [2^h, 2^(h+1)).
    vstd::arithmetic::power2::lemma_pow2_unfold(h + 1);
    vstd::arithmetic::power2::lemma_pow2_pos(h);
    let p = pow2(h);
    assert(b - p < p);
    vstd::arithmetic::div_mod::lemma_fundamental_div_mod_converse(b as int, p as int, 1, (b - p) as int);
}

/// Facts about the bitlist encoding of `w`: its last byte is non-zero and its
/// highest set bit sits right after the last bit of `w`.
proof fn lemma_bitlist_encoding_facts(w: Seq<bool>)
    ensures
        ({
            let e = spec_pack_bits(w.push(true));
            let len = e.len();
            let m = w.len() + 1 - 8 * (len - 1);
            &&& len >= 1
            &&& len == (w.len() + 8) / 8
            &&& 1 <= m <= 8
            &&& pow2((m - 1) as nat) <= e[len - 1] < pow2(m as nat)
            &&& e[len - 1] > 0
        }),
{
    let with_end = w.push(true);
    let e = spec_pack_bits(with_end);
    let len = e.len() as int;
    let m = w.len() + 1 - 8 * (len - 1);
    let g = spec_bit_group(with_end, len - 1);
    assert(g.len() == m);
    let front = g.drop_last();
    assert(g =~= front.push(true));
    lemma_bits_value_push_true(front);
    lemma_bits_value_roundtrip(front);
    lemma_bits_value_roundtrip(g);
    lemma2_to64();
    vstd::arithmetic::power2::lemma_pow2_strictly_increases(m as nat, 9);
    vstd::arithmetic::power2::lemma_pow2_pos((m - 1) as nat);
}

} // verus!
