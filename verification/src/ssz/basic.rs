//! SSZ for basic values: little-endian `uint64`, `uint8`, `boolean`, and
//! fixed-length byte vectors.
use vstd::prelude::*;

use super::error::{length_error, wrong_length, DeserializeError, MerkleizationError, SerializeError};
use super::merkle::{empty_chunk, merkleize_byte_sequence, spec_merkleize_bytes, Node};

verus! {

/// Byte `k` (little-endian) of a `u64`.
pub open spec fn u64_byte(x: u64, k: u64) -> u8 {
    ((x >> (8 * k)) & 0xff) as u8
}

/// The 8-byte little-endian encoding of a `u64`.
pub open spec fn spec_u64_le(x: u64) -> Seq<u8> {
    seq![
        u64_byte(x, 0),
        u64_byte(x, 1),
        u64_byte(x, 2),
        u64_byte(x, 3),
        u64_byte(x, 4),
        u64_byte(x, 5),
        u64_byte(x, 6),
        u64_byte(x, 7),
    ]
}

/// The `u64` whose little-endian encoding is the first 8 bytes of `b`.
pub open spec fn spec_u64_from_le(b: Seq<u8>) -> u64 {
    (b[0] as u64) | ((b[1] as u64) << 8) | ((b[2] as u64) << 16) | ((b[3] as u64) << 24) | ((
    b[4] as u64) << 32) | ((b[5] as u64) << 40) | ((b[6] as u64) << 48) | ((b[7] as u64) << 56)
}

/// `n` zero bytes.
pub open spec fn zeros(n: nat) -> Seq<u8> {
    Seq::new(n, |i: int| 0u8)
}

/// The hash-tree-root of a `u64`: its encoding padded to one chunk.
pub open spec fn spec_u64_root(x: u64) -> Seq<u8> {
    spec_u64_le(x) + zeros(24)
}

/// The hash-tree-root of a `u8`: the byte padded to one chunk.
pub open spec fn spec_u8_root(x: u8) -> Seq<u8> {
    seq![x] + zeros(31)
}

/// The SSZ byte of a boolean.
pub open spec fn bool_byte(b: bool) -> u8 {
    if b {
        1u8
    } else {
        0u8
    }
}

/// The hash-tree-root of a boolean.
pub open spec fn spec_bool_root(b: bool) -> Seq<u8> {
    spec_u8_root(bool_byte(b))
}

/// What decoding a `u64` from `encoding` gives.
pub open spec fn spec_deserialize_u64(encoding: Seq<u8>) -> Result<u64, DeserializeError> {
    if encoding.len() == 8 {
        Ok(spec_u64_from_le(encoding))
    } else {
        Err(length_error(encoding.len() as usize, 8))
    }
}

/// What decoding a `u8` from `encoding` gives.
pub open spec fn spec_deserialize_u8(encoding: Seq<u8>) -> Result<u8, DeserializeError> {
    if encoding.len() == 1 {
        Ok(encoding[0])
    } else {
        Err(length_error(encoding.len() as usize, 1))
    }
}

/// What decoding a boolean from `encoding` gives.
pub open spec fn spec_deserialize_bool(encoding: Seq<u8>) -> Result<bool, DeserializeError> {
    if encoding.len() != 1 {
        Err(length_error(encoding.len() as usize, 1))
    } else if encoding[0] == 0 {
        Ok(false)
    } else if encoding[0] == 1 {
        Ok(true)
    } else {
        Err(DeserializeError::InvalidByte(encoding[0]))
    }
}

/// Decoding the encoding of `x` gives `x` back.
pub proof fn lemma_u64_le_roundtrip(x: u64)
    ensures
        spec_u64_from_le(spec_u64_le(x)) == x,
        spec_u64_le(x).len() == 8,
{
    let b0 = u64_byte(x, 0);
    let b1 = u64_byte(x, 1);
    let b2 = u64_byte(x, 2);
    let b3 = u64_byte(x, 3);
    let b4 = u64_byte(x, 4);
    let b5 = u64_byte(x, 5);
    let b6 = u64_byte(x, 6);
    let b7 = u64_byte(x, 7);
    assert((((x >> 0u64) & 0xff) as u8 as u64) | ((((x >> 8u64) & 0xff) as u8 as u64) << 8) | ((((x
        >> 16u64) & 0xff) as u8 as u64) << 16) | ((((x >> 24u64) & 0xff) as u8 as u64) << 24) | ((((x
        >> 32u64) & 0xff) as u8 as u64) << 32) | ((((x >> 40u64) & 0xff) as u8 as u64) << 40) | ((((
    x >> 48u64) & 0xff) as u8 as u64) << 48) | ((((x >> 56u64) & 0xff) as u8 as u64) << 56) == x)
        by (bit_vector);
}

/// Encoding the decoding of 8 bytes gives those bytes back.
pub proof fn lemma_u64_from_le_roundtrip(b: Seq<u8>)
    requires
        b.len() == 8,
    ensures
        spec_u64_le(spec_u64_from_le(b)) == b,
{
    let b0 = b[0];
    let b1 = b[1];
    let b2 = b[2];
    let b3 = b[3];
    let b4 = b[4];
    let b5 = b[5];
    let b6 = b[6];
    let b7 = b[7];
    let x = spec_u64_from_le(b);
    assert(x == (b0 as u64) | ((b1 as u64) << 8) | ((b2 as u64) << 16) | ((b3 as u64) << 24) | ((
    b4 as u64) << 32) | ((b5 as u64) << 40) | ((b6 as u64) << 48) | ((b7 as u64) << 56));
    assert(((x >> 0u64) & 0xff) as u8 == b0 && ((x >> 8u64) & 0xff) as u8 == b1 && ((x >> 16u64)
        & 0xff) as u8 == b2 && ((x >> 24u64) & 0xff) as u8 == b3 && ((x >> 32u64) & 0xff) as u8
        == b4 && ((x >> 40u64) & 0xff) as u8 == b5 && ((x >> 48u64) & 0xff) as u8 == b6 && ((x
        >> 56u64) & 0xff) as u8 == b7) by (bit_vector)
        requires
            x == (b0 as u64) | ((b1 as u64) << 8) | ((b2 as u64) << 16) | ((b3 as u64) << 24) | ((
            b4 as u64) << 32) | ((b5 as u64) << 40) | ((b6 as u64) << 48) | ((b7 as u64) << 56),
    ;
    assert(spec_u64_le(x) =~= b);
}

/// The little-endian encoding is injective.
pub proof fn lemma_u64_le_injective(x: u64, y: u64)
    requires
        spec_u64_le(x) == spec_u64_le(y),
    ensures
        x == y,
{
    lemma_u64_le_roundtrip(x);
    lemma_u64_le_roundtrip(y);
}

/// Whether a `u64` has a variable-size encoding (it does not).
pub fn u64_is_variable_size() -> (r: bool)
    ensures
        !r,
{
    false
}

/// The encoded size of a `u64`.
pub fn u64_size_hint() -> (r: usize)
    ensures
        r == 8,
{
    8
}

/// Append the little-endian encoding of `x`.
pub fn serialize_u64(x: u64, buffer: &mut Vec<u8>) -> (r: Result<usize, SerializeError>)
    ensures
        r == Ok::<usize, SerializeError>(8),
        final(buffer)@ == old(buffer)@ + spec_u64_le(x),
{
    let mut k: u64 = 0;
    let ghost start = buffer@;
    while k < 8
        invariant
            k <= 8,
            start == old(buffer)@,
            buffer@ =~= start + spec_u64_le(x).subrange(0, k as int),
        decreases 8 - k,
    {
        let byte = ((x >> (8 * k)) & 0xff) as u8;
        buffer.push(byte);
        k = k + 1;
    }
    Ok(8)
}

/// Read a little-endian `u64` from 8 bytes of `encoding` at `offset`.
pub fn read_u64_le(encoding: &[u8], offset: usize) -> (r: u64)
    requires
        offset + 8 <= encoding@.len(),
    ensures
        r == spec_u64_from_le(encoding@.subrange(offset as int, offset + 8)),
{
    (encoding[offset] as u64) | ((encoding[offset + 1] as u64) << 8) | ((encoding[offset + 2] as u64)
        << 16) | ((encoding[offset + 3] as u64) << 24) | ((encoding[offset + 4] as u64) << 32) | ((
    encoding[offset + 5] as u64) << 40) | ((encoding[offset + 6] as u64) << 48) | ((encoding[offset
        + 7] as u64) << 56)
}

/// Decode a `u64` from exactly 8 little-endian bytes.
pub fn deserialize_u64(encoding: &[u8]) -> (r: Result<u64, DeserializeError>)
    ensures
        r == spec_deserialize_u64(encoding@),
{
    if encoding.len() != 8 {
        return Err(wrong_length(encoding.len(), 8));
    }
    let x = read_u64_le(encoding, 0);
    assert(encoding@.subrange(0, 8) =~= encoding@);
    Ok(x)
}

/// The hash-tree-root of a `u64`.
pub fn hash_tree_root_u64(x: u64) -> (r: Result<Node, MerkleizationError>)
    ensures
        r matches Ok(n) && n.0@ == spec_u64_root(x),
{
    let mut out = empty_chunk();
    let mut k: usize = 0;
    while k < 8
        invariant
            k <= 8,
            forall|t: int| 0 <= t < k ==> #[trigger] out@[t] == u64_byte(x, t as u64),
            forall|t: int| k <= t < 32 ==> #[trigger] out@[t] == 0u8,
        decreases 8 - k,
    {
        out[k] = ((x >> (8 * k as u64)) & 0xff) as u8;
        k = k + 1;
    }
    assert(out@ =~= spec_u64_root(x));
    Ok(Node(out))
}

/// Append the single byte of a `u8`.
pub fn serialize_u8(x: u8, buffer: &mut Vec<u8>) -> (r: Result<usize, SerializeError>)
    ensures
        r == Ok::<usize, SerializeError>(1),
        final(buffer)@ == old(buffer)@.push(x),
{
    buffer.push(x);
    Ok(1)
}

/// Decode a `u8` from exactly one byte.
pub fn deserialize_u8(encoding: &[u8]) -> (r: Result<u8, DeserializeError>)
    ensures
        r == spec_deserialize_u8(encoding@),
{
    if encoding.len() != 1 {
        return Err(wrong_length(encoding.len(), 1));
    }
    Ok(encoding[0])
}

/// The hash-tree-root of a `u8`.
pub fn hash_tree_root_u8(x: u8) -> (r: Result<Node, MerkleizationError>)
    ensures
        r matches Ok(n) && n.0@ == spec_u8_root(x),
{
    let mut out = empty_chunk();
    out[0] = x;
    assert(out@ =~= spec_u8_root(x));
    Ok(Node(out))
}

/// Append the byte of a boolean.
pub fn serialize_bool(b: bool, buffer: &mut Vec<u8>) -> (r: Result<usize, SerializeError>)
    ensures
        r == Ok::<usize, SerializeError>(1),
        final(buffer)@ == old(buffer)@.push(bool_byte(b)),
{
    buffer.push(if b {
        1u8
    } else {
        0u8
    });
    Ok(1)
}

/// Decode a boolean from one byte that must be 0 or 1.
pub fn deserialize_bool(encoding: &[u8]) -> (r: Result<bool, DeserializeError>)
    ensures
        r == spec_deserialize_bool(encoding@),
{
    if encoding.len() != 1 {
        return Err(wrong_length(encoding.len(), 1));
    }
    let byte = encoding[0];
    if byte == 0 {
        Ok(false)
    } else if byte == 1 {
        Ok(true)
    } else {
        Err(DeserializeError::InvalidByte(byte))
    }
}

/// The hash-tree-root of a boolean.
pub fn hash_tree_root_bool(b: bool) -> (r: Result<Node, MerkleizationError>)
    ensures
        r matches Ok(n) && n.0@ == spec_bool_root(b),
{
    hash_tree_root_u8(if b {
        1u8
    } else {
        0u8
    })
}

/// What decoding an `N`-byte vector from `encoding` gives.
pub open spec fn spec_deserialize_bytes<const N: usize>(encoding: Seq<u8>) -> Result<
    Seq<u8>,
    DeserializeError,
> {
    if encoding.len() == N {
        Ok(encoding)
    } else {
        Err(length_error(encoding.len() as usize, N))
    }
}

/// Append the bytes of a fixed-length byte vector.
pub fn serialize_bytes<const N: usize>(bytes: &[u8; N], buffer: &mut Vec<u8>) -> (r: Result<
    usize,
    SerializeError,
>)
    ensures
        r == Ok::<usize, SerializeError>(N),
        final(buffer)@ == old(buffer)@ + bytes@,
{
    let mut i: usize = 0;
    let ghost start = buffer@;
    while i < N
        invariant
            i <= N,
            bytes@.len() == N,
            start == old(buffer)@,
            buffer@ =~= start + bytes@.subrange(0, i as int),
        decreases N - i,
    {
        buffer.push(bytes[i]);
        i = i + 1;
    }
    assert(bytes@.subrange(0, N as int) =~= bytes@);
    Ok(N)
}

/// Copy `N` bytes of `encoding` starting at `offset` into an array.
pub fn read_bytes<const N: usize>(encoding: &[u8], offset: usize) -> (r: [u8; N])
    requires
        offset + N <= encoding@.len(),
    ensures
        r@ == encoding@.subrange(offset as int, offset + N),
{
    let mut out = [0u8; N];
    let mut i: usize = 0;
    let len = encoding.len();
    while i < N
        invariant
            i <= N,
            len == encoding@.len(),
            offset + N <= encoding@.len(),
            out@.len() == N,
            forall|t: int| 0 <= t < i ==> #[trigger] out@[t] == encoding@[offset + t],
        decreases N - i,
    {
        out[i] = encoding[offset + i];
        i = i + 1;
    }
    assert(out@ =~= encoding@.subrange(offset as int, offset + N));
    out
}

/// Decode an `N`-byte vector from exactly `N` bytes.
pub fn deserialize_bytes<const N: usize>(encoding: &[u8]) -> (r: Result<[u8; N], DeserializeError>)
    ensures
        r matches Ok(b) ==> spec_deserialize_bytes::<N>(encoding@) == Ok::<Seq<u8>, DeserializeError>(b@),
        r matches Err(e) ==> spec_deserialize_bytes::<N>(encoding@) == Err::<Seq<u8>, DeserializeError>(e),
{
    if encoding.len() != N {
        return Err(wrong_length(encoding.len(), N));
    }
    let out: [u8; N] = read_bytes(encoding, 0);
    assert(encoding@.subrange(0, N as int) =~= encoding@);
    Ok(out)
}

/// The hash-tree-root of a fixed-length byte vector.
pub fn hash_tree_root_bytes<const N: usize>(bytes: &[u8; N]) -> (r: Result<Node, MerkleizationError>)
    ensures
        r matches Ok(n) && n.0@ == spec_merkleize_bytes(bytes@),
{
    Ok(merkleize_byte_sequence(bytes.as_slice()))
}

/// Whether two byte arrays hold the same bytes.
pub fn bytes_equal<const N: usize>(a: &[u8; N], b: &[u8; N]) -> (r: bool)
    ensures
        r == (a@ == b@),
{
    let mut i: usize = 0;
    while i < N
        invariant
            i <= N,
            a@.len() == N,
            b@.len() == N,
            forall|t: int| 0 <= t < i ==> a@[t] == b@[t],
        decreases N - i,
    {
        if a[i] != b[i] {
            assert(a@[i as int] != b@[i as int]);
            return false;
        }
        i = i + 1;
    }
    assert(a@ =~= b@);
    true
}

/// Whether a `u8` has a variable-size encoding (it does not).
pub fn u8_is_variable_size() -> (r: bool)
    ensures
        !r,
{
    false
}

/// The encoded size of a `u8`.
pub fn u8_size_hint() -> (r: usize)
    ensures
        r == 1,
{
    1
}

/// Whether a fixed-length byte vector has a variable-size encoding (it does not).
pub fn bytes_is_variable_size<const N: usize>() -> (r: bool)
    ensures
        !r,
{
    false
}

/// The encoded size of an `N`-byte vector.
pub fn bytes_size_hint<const N: usize>() -> (r: usize)
    ensures
        r == N,
{
    N
}

} // verus!
