//! Merkleization: SHA-256 pair hashing, zero subtrees, chunk packing and the
//! merkle root of a sequence of chunks.
use vstd::prelude::*;
use sha2::{Digest, Sha256};

verus! {


/// What SHA-256 returns for a byte sequence.
pub uninterp spec fn spec_sha256(data: Seq<u8>) -> Seq<u8>;

/// Calls `sha2::Sha256::digest`; the contract claims only that the 32-byte
/// result is the SHA-256 digest of the input bytes, a function of them alone.
#[verifier::external_body]
pub(crate) fn sha256_digest(data: &[u8]) -> (res: [u8; 32])
    ensures
        res@ == spec_sha256(data@),
{
    Sha256::digest(data).into()
}

/// A 32-byte merkle chunk or tree node.
#[derive(Debug, Clone, Copy, PartialEq, Eq, Hash, Default)]
pub struct Node(pub [u8; 32]);

impl Node {
    /// The node's bytes.
    pub fn as_bytes(&self) -> (r: [u8; 32])
        ensures
            r == self.0,
    {
        self.0
    }
}

/// The all-zero chunk.
pub open spec fn zero_chunk() -> Seq<u8> {
    Seq::new(32, |i: int| 0u8)
}

/// A fresh chunk of 32 zero bytes.
pub fn empty_chunk() -> (r: [u8; 32])
    ensures
        r@ == zero_chunk(),
        r@.len() == 32,
        forall|t: int| 0 <= t < 32 ==> #[trigger] r@[t] == 0u8,
{
    let mut out = [0u8; 32];
    let mut k: usize = 0;
    while k < 32
        invariant
            k <= 32,
            out@.len() == 32,
            forall|t: int| 0 <= t < k ==> #[trigger] out@[t] == 0u8,
        decreases 32 - k,
    {
        out[k] = 0u8;
        k = k + 1;
    }
    assert(out@ =~= zero_chunk());
    out
}

/// Hash of two concatenated nodes.
pub open spec fn spec_hash_pair(a: Seq<u8>, b: Seq<u8>) -> Seq<u8> {
    spec_sha256(a + b)
}

/// Root of a full subtree of the given depth whose leaves are all zero chunks.
pub open spec fn zero_hash(depth: nat) -> Seq<u8>
    decreases depth,
{
    if depth == 0 {
        zero_chunk()
    } else {
        spec_hash_pair(zero_hash((depth - 1) as nat), zero_hash((depth - 1) as nat))
    }
}

/// The right sibling used at position `i` of a layer: the next node, or the
/// zero subtree of the layer's depth past the end.
pub open spec fn right_sibling(nodes: Seq<Seq<u8>>, i: int, depth: nat) -> Seq<u8> {
    if 2 * i + 1 < nodes.len() {
        nodes[2 * i + 1]
    } else {
        zero_hash(depth)
    }
}

/// One layer up: adjacent pairs hashed, an odd last node paired with a zero subtree.
pub open spec fn hash_layer(nodes: Seq<Seq<u8>>, depth: nat) -> Seq<Seq<u8>> {
    Seq::new(
        ((nodes.len() + 1) / 2) as nat,
        |i: int| spec_hash_pair(nodes[2 * i], right_sibling(nodes, i, depth)),
    )
}

/// Root of `nodes` taken as the layer at `depth`, padded with zero subtrees up
/// to the next power of two.
pub open spec fn merkleize_from(nodes: Seq<Seq<u8>>, depth: nat) -> Seq<u8>
    decreases nodes.len(),
{
    if nodes.len() == 0 {
        zero_hash(depth)
    } else if nodes.len() == 1 {
        nodes[0]
    } else {
        merkleize_from(hash_layer(nodes, depth), depth + 1)
    }
}

/// The SSZ merkle root of a sequence of chunks.
pub open spec fn spec_merkleize(chunks: Seq<Seq<u8>>) -> Seq<u8> {
    merkleize_from(chunks, 0)
}

/// The chunk `i` of a packed byte sequence: 32 bytes, zero-padded past the end.
pub open spec fn chunk_at(bytes: Seq<u8>, i: int) -> Seq<u8> {
    Seq::new(32, |j: int| if 32 * i + j < bytes.len() { bytes[32 * i + j] } else { 0u8 })
}

/// Bytes packed into 32-byte chunks, the last one zero-padded.
pub open spec fn spec_pack(bytes: Seq<u8>) -> Seq<Seq<u8>> {
    Seq::new(((bytes.len() + 31) / 32) as nat, |i: int| chunk_at(bytes, i))
}

/// The merkle root of a byte sequence's packed chunks.
pub open spec fn spec_merkleize_bytes(bytes: Seq<u8>) -> Seq<u8> {
    spec_merkleize(spec_pack(bytes))
}

/// Views of a sequence of nodes as byte sequences.
pub open spec fn nodes_view(nodes: Seq<[u8; 32]>) -> Seq<Seq<u8>> {
    Seq::new(nodes.len(), |i: int| nodes[i]@)
}

/// Views of a sequence of `Node`s as byte sequences.
pub open spec fn roots_view(nodes: Seq<Node>) -> Seq<Seq<u8>> {
    Seq::new(nodes.len(), |i: int| nodes[i].0@)
}

/// SHA-256 of the concatenation of two nodes.
pub fn hash_pair(a: &[u8; 32], b: &[u8; 32]) -> (r: [u8; 32])
    ensures
        r@ == spec_hash_pair(a@, b@),
{
    let mut buf: Vec<u8> = Vec::with_capacity(64);
    let mut i: usize = 0;
    while i < 32
        invariant
            i <= 32,
            buf@ =~= a@.subrange(0, i as int),
        decreases 32 - i,
    {
        buf.push(a[i]);
        i = i + 1;
    }
    let mut j: usize = 0;
    while j < 32
        invariant
            j <= 32,
            buf@ =~= a@ + b@.subrange(0, j as int),
        decreases 32 - j,
    {
        buf.push(b[j]);
        j = j + 1;
    }
    assert(buf@ =~= a@ + b@);
    sha256_digest(buf.as_slice())
}

/// The next layer up of a layer at `depth` whose zero subtree is `zero`.
fn next_layer(layer: &Vec<[u8; 32]>, zero: &[u8; 32], Ghost(depth): Ghost<nat>) -> (r: Vec<[u8; 32]>)
    requires
        zero@ == zero_hash(depth),
    ensures
        nodes_view(r@) =~= hash_layer(nodes_view(layer@), depth),
{
    let ghost target = hash_layer(nodes_view(layer@), depth);
    let mut next: Vec<[u8; 32]> = Vec::new();
    let mut i: usize = 0;
    let n = layer.len();
    while i < n
        invariant
            n == layer@.len(),
            i <= n,
            i % 2 == 0 || i == n,
            next@.len() == (i + 1) / 2,
            zero@ == zero_hash(depth),
            target == hash_layer(nodes_view(layer@), depth),
            forall|k: int| 0 <= k < next@.len() ==> #[trigger] next@[k]@ == target[k],
        decreases n - i,
    {
        let ghost k = (i / 2) as int;
        if n - i >= 2 {
            let h = hash_pair(&layer[i], &layer[i + 1]);
            assert(2 * k + 1 < layer@.len());
            assert(target[k] == spec_hash_pair(layer@[i as int]@, layer@[i + 1]@));
            next.push(h);
            i = i + 2;
        } else {
            let h = hash_pair(&layer[i], zero);
            assert(target[k] == spec_hash_pair(layer@[i as int]@, zero_hash(depth)));
            next.push(h);
            i = i + 1;
        }
    }
    next
}

/// The merkle root of a sequence of chunks, padded to the next power of two.
pub fn merkleize_chunks(chunks: Vec<[u8; 32]>) -> (r: [u8; 32])
    ensures
        r@ == spec_merkleize(nodes_view(chunks@)),
{
    let ghost whole = nodes_view(chunks@);
    let mut layer = chunks;
    let mut zero = empty_chunk();
    let ghost mut depth: nat = 0;
    assert(zero@ =~= zero_hash(0));
    while layer.len() > 1
        invariant
            zero@ == zero_hash(depth),
            merkleize_from(nodes_view(layer@), depth) == spec_merkleize(whole),
        decreases layer@.len(),
    {
        let next = next_layer(&layer, &zero, Ghost(depth));
        zero = hash_pair(&zero, &zero);
        layer = next;
        proof {
            depth = depth + 1;
        }
    }
    if layer.len() == 0 {
        zero
    } else {
        layer[0]
    }
}

/// The merkle root of a sequence of nodes.
pub fn merkleize_roots(roots: &[Node]) -> (r: Node)
    ensures
        r.0@ == spec_merkleize(roots_view(roots@)),
{
    let mut chunks: Vec<[u8; 32]> = Vec::new();
    let mut i: usize = 0;
    while i < roots.len()
        invariant
            i <= roots@.len(),
            chunks@.len() == i,
            nodes_view(chunks@) =~= roots_view(roots@).subrange(0, i as int),
        decreases roots@.len() - i,
    {
        chunks.push(roots[i].0);
        assert(chunks@[i as int] == roots@[i as int].0);
        i = i + 1;
    }
    assert(roots_view(roots@).subrange(0, roots@.len() as int) =~= roots_view(roots@));
    Node(merkleize_chunks(chunks))
}

/// Pack bytes into 32-byte chunks, zero-padding the last one.
pub fn pack_bytes(bytes: &[u8]) -> (r: Vec<[u8; 32]>)
    ensures
        nodes_view(r@) =~= spec_pack(bytes@),
{
    let n = bytes.len();
    let mut out: Vec<[u8; 32]> = Vec::new();
    let mut off: usize = 0;
    while off < n
        invariant
            n == bytes@.len(),
            off <= n,
            off < n ==> off == 32 * out@.len(),
            off >= n ==> out@.len() == (n + 31) / 32,
            forall|k: int| 0 <= k < out@.len() ==> #[trigger] out@[k]@ == chunk_at(bytes@, k),
        decreases n - off,
    {
        let mut chunk = empty_chunk();
        let mut j: usize = 0;
        while j < 32
            invariant
                n == bytes@.len(),
                off < n,
                j <= 32,
                forall|t: int| 0 <= t < j ==> #[trigger] chunk@[t] == (if off + t < n { bytes@[off + t] } else { 0u8 }),
                forall|t: int| j <= t < 32 ==> #[trigger] chunk@[t] == 0u8,
            decreases 32 - j,
        {
            if j < n - off {
                chunk[j] = bytes[off + j];
            }
            j = j + 1;
        }
        let ghost k = out@.len() as int;
        assert(chunk@ =~= chunk_at(bytes@, k));
        out.push(chunk);
        if n - off > 32 {
            off = off + 32;
        } else {
            off = n;
        }
    }
    out
}

/// The merkle root of a byte sequence: its packed chunks merkleized.
pub fn merkleize_byte_sequence(bytes: &[u8]) -> (r: Node)
    ensures
        r.0@ == spec_merkleize_bytes(bytes@),
{
    let chunks = pack_bytes(bytes);
    Node(merkleize_chunks(chunks))
}

} // verus!
