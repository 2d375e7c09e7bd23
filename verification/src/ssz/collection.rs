//! Bounded SSZ collections: `List` (at most `N` items), `Vector` (exactly `N`
//! items), `Bitlist` (at most `N` bits) and `Bitvector` (exactly `N` bits).
use vstd::prelude::*;

use super::codec::{mix_in_length, spec_mix_in_length, SszCodec};
use super::error::DeserializeError;
use super::merkle::Node;
use super::sequence::{
    decode_items, encode_items, items_root, lemma_fixed_encoding_facts, spec_items_wf,
    spec_seq_encoding, spec_seq_root,
};

verus! {

/// A sequence of at most `N` items.
#[derive(Debug, Clone, PartialEq, Eq)]
pub struct List<T, const N: u64> {
    /// The items, in order.
    pub items: Vec<T>,
}

impl<T, const N: u64> View for List<T, N> {
    type V = Seq<T>;

    open spec fn view(&self) -> Seq<T> {
        self.items@
    }
}

impl<T, const N: u64> List<T, N> {
    /// Whether the list respects its bound.
    pub open spec fn wf(&self) -> bool {
        self@.len() <= N
    }

    /// The empty list.
    pub fn new() -> (r: Self)
        ensures
            r@ == Seq::<T>::empty(),
            r.wf(),
    {
        List { items: Vec::new() }
    }

    /// Wrap items, or `None` when there are more than `N`.
    pub fn from_vec(items: Vec<T>) -> (r: Option<Self>)
        ensures
            items@.len() <= N ==> (r matches Some(l) && l@ == items@ && l.wf()),
            items@.len() > N ==> r is None,
    {
        if (items.len() as u64) <= N {
            Some(List { items })
        } else {
            None
        }
    }

    /// Number of items.
    pub fn len(&self) -> (r: usize)
        ensures
            r == self@.len(),
    {
        self.items.len()
    }

    /// Whether the list has no items.
    pub fn is_empty(&self) -> (r: bool)
        ensures
            r == (self@.len() == 0),
    {
        self.items.len() == 0
    }

    /// The item at `index`, if any.
    pub fn get(&self, index: usize) -> (r: Option<&T>)
        ensures
            index < self@.len() ==> r == Some(&self@[index as int]),
            index >= self@.len() ==> r is None,
    {
        if index < self.items.len() {
            Some(&self.items[index])
        } else {
            None
        }
    }

    /// Append an item, or hand it back when the list is full.
    pub fn push(&mut self, item: T) -> (r: Result<(), T>)
        ensures
            old(self)@.len() < N ==> r is Ok && final(self)@ == old(self)@.push(item),
            old(self)@.len() >= N ==> r == Err::<(), T>(item) && final(self)@ == old(self)@,
    {
        if (self.items.len() as u64) < N {
            self.items.push(item);
            Ok(())
        } else {
            Err(item)
        }
    }

    /// The items as a slice.
    pub fn as_slice(&self) -> (r: &[T])
        ensures
            r@ == self@,
    {
        self.items.as_slice()
    }
}

/// A sequence of exactly `N` items.
#[derive(Debug, Clone, PartialEq, Eq)]
pub struct Vector<T, const N: u64> {
    /// The items, in order.
    pub items: Vec<T>,
}

impl<T, const N: u64> View for Vector<T, N> {
    type V = Seq<T>;

    open spec fn view(&self) -> Seq<T> {
        self.items@
    }
}

impl<T, const N: u64> Vector<T, N> {
    /// Whether the vector has exactly `N` items.
    pub open spec fn wf(&self) -> bool {
        self@.len() == N
    }

    /// Wrap items, or `None` when there are not exactly `N`.
    pub fn from_vec(items: Vec<T>) -> (r: Option<Self>)
        ensures
            items@.len() == N ==> (r matches Some(v) && v@ == items@ && v.wf()),
            items@.len() != N ==> r is None,
    {
        if (items.len() as u64) == N {
            Some(Vector { items })
        } else {
            None
        }
    }

    /// Number of items.
    pub fn len(&self) -> (r: usize)
        ensures
            r == self@.len(),
    {
        self.items.len()
    }

    /// The item at `index`, if any.
    pub fn get(&self, index: usize) -> (r: Option<&T>)
        ensures
            index < self@.len() ==> r == Some(&self@[index as int]),
            index >= self@.len() ==> r is None,
    {
        if index < self.items.len() {
            Some(&self.items[index])
        } else {
            None
        }
    }

    /// The items as a slice.
    pub fn as_slice(&self) -> (r: &[T])
        ensures
            r@ == self@,
    {
        self.items.as_slice()
    }
}

/// A sequence of at most `N` bits.
#[derive(Debug, Clone, PartialEq, Eq)]
pub struct Bitlist<const N: u64> {
    /// The bits, in order.
    pub bits: Vec<bool>,
}

impl<const N: u64> View for Bitlist<N> {
    type V = Seq<bool>;

    open spec fn view(&self) -> Seq<bool> {
        self.bits@
    }
}

impl<const N: u64> Bitlist<N> {
    /// Whether the bitlist respects its bound.
    pub open spec fn wf(&self) -> bool {
        self@.len() <= N
    }

    /// Number of bits.
    pub fn len(&self) -> (r: usize)
        ensures
            r == self@.len(),
    {
        self.bits.len()
    }

    /// The bit at `index`, if in range.
    pub fn get(&self, index: usize) -> (r: Option<bool>)
        ensures
            index < self@.len() ==> r == Some(self@[index as int]),
            index >= self@.len() ==> r is None,
    {
        if index < self.bits.len() {
            Some(self.bits[index])
        } else {
            None
        }
    }
}

/// A sequence of exactly `N` bits.
#[derive(Debug, Clone, PartialEq, Eq)]
pub struct Bitvector<const N: u64> {
    /// The bits, in order.
    pub bits: Vec<bool>,
}

impl<const N: u64> View for Bitvector<N> {
    type V = Seq<bool>;

    open spec fn view(&self) -> Seq<bool> {
        self.bits@
    }
}

impl<const N: u64> Bitvector<N> {
    /// Whether the bitvector has exactly `N` bits.
    pub open spec fn wf(&self) -> bool {
        self@.len() == N
    }

    /// `N` cleared bits.
    pub fn zeroed() -> (r: Self)
        ensures
            r.wf(),
            forall|i: int| 0 <= i < N ==> !#[trigger] r@[i],
    {
        let mut bits: Vec<bool> = Vec::new();
        let mut i: u64 = 0;
        while i < N
            invariant
                i <= N,
                bits@.len() == i,
                forall|j: int| 0 <= j < i ==> !#[trigger] bits@[j],
            decreases N - i,
        {
            bits.push(false);
            i = i + 1;
        }
        Bitvector { bits }
    }

    /// The bit at `index`, if in range.
    pub fn get(&self, index: usize) -> (r: Option<bool>)
        ensures
            index < self@.len() ==> r == Some(self@[index as int]),
            index >= self@.len() ==> r is None,
    {
        if index < self.bits.len() {
            Some(self.bits[index])
        } else {
            None
        }
    }

    /// Set the bit at `index`; out-of-range indices leave the bits unchanged.
    pub fn set(&mut self, index: usize, value: bool) -> (r: bool)
        ensures
            r == (index < old(self)@.len()),
            r ==> final(self)@ == old(self)@.update(index as int, value),
            !r ==> final(self)@ == old(self)@,
    {
        if index < self.bits.len() {
            self.bits.set(index, value);
            true
        } else {
            false
        }
    }
}

/// A vector of `N` copies of `x`.
pub fn filled_vector<T: Copy, const N: u64>(x: T) -> (r: Vector<T, N>)
    ensures
        r.wf(),
        forall|i: int| 0 <= i < N ==> #[trigger] r@[i] == x,
{
    let mut items: Vec<T> = Vec::new();
    let mut i: u64 = 0;
    while i < N
        invariant
            i <= N,
            items@.len() == i,
            forall|j: int| 0 <= j < i ==> #[trigger] items@[j] == x,
        decreases N - i,
    {
        items.push(x);
        i = i + 1;
    }
    Vector { items }
}

impl<T: SszCodec, const N: u64> SszCodec for List<T, N> {
    open spec fn spec_fixed_size() -> Option<nat> {
        None
    }

    open spec fn spec_packed() -> bool {
        false
    }

    open spec fn spec_wf(&self) -> bool {
        self@.len() <= N && spec_items_wf(self@)
    }

    open spec fn spec_encoding(&self) -> Seq<u8> {
        spec_seq_encoding(self@)
    }

    open spec fn spec_tree_root(&self) -> Seq<u8> {
        spec_mix_in_length(spec_seq_root(self@, N as nat), self@.len())
    }

    proof fn lemma_layout() {
    }

    proof fn lemma_shape(x: &Self) {
    }

    fn ssz_fixed_size() -> (r: Option<usize>) {
        None
    }

    fn ssz_packed() -> (r: bool) {
        false
    }

    fn ssz_encode(&self, buffer: &mut Vec<u8>) {
        encode_items(self.items.as_slice(), buffer);
    }

    fn ssz_decode(bytes: &[u8]) -> (r: Result<Self, DeserializeError>) {
        proof {
            if exists|v: Self| v.spec_wf() && #[trigger] v.spec_encoding() == bytes@ {
                let v = choose|v: Self| v.spec_wf() && #[trigger] v.spec_encoding() == bytes@;
                assert(spec_seq_encoding(v@) == bytes@);
            }
        }
        match decode_items::<T>(bytes, N) {
            Ok(items) => Ok(List { items }),
            Err(e) => Err(e),
        }
    }

    fn ssz_root(&self) -> (r: Node) {
        let root = items_root(self.items.as_slice(), N);
        Node(mix_in_length(&root, self.items.len() as u64))
    }
}

impl<T: SszCodec, const N: u64> SszCodec for Vector<T, N> {
    open spec fn spec_fixed_size() -> Option<nat> {
        match T::spec_fixed_size() {
            Some(s) => if N > 0 && N * s <= u32::MAX { Some((N * s) as nat) } else { None },
            None => None,
        }
    }

    open spec fn spec_packed() -> bool {
        false
    }

    open spec fn spec_wf(&self) -> bool {
        self@.len() == N && spec_items_wf(self@)
    }

    open spec fn spec_encoding(&self) -> Seq<u8> {
        spec_seq_encoding(self@)
    }

    open spec fn spec_tree_root(&self) -> Seq<u8> {
        spec_seq_root(self@, N as nat)
    }

    proof fn lemma_layout() {
        T::lemma_layout();
        if T::spec_fixed_size() is Some {
            let s = T::spec_fixed_size()->Some_0;
            assert(N > 0 && s > 0 ==> N * s > 0) by (nonlinear_arith);
        }
    }

    proof fn lemma_shape(x: &Self) {
        if T::spec_fixed_size() is Some {
            lemma_fixed_encoding_facts::<T>(x@, T::spec_fixed_size()->Some_0);
        }
    }

    fn ssz_fixed_size() -> (r: Option<usize>) {
        match T::ssz_fixed_size() {
            Some(s) => {
                match (N as u128).checked_mul(s as u128) {
                    Some(p) => {
                        if N > 0 && p <= u32::MAX as u128 {
                            Some(p as usize)
                        } else {
                            None
                        }
                    },
                    None => None,
                }
            },
            None => None,
        }
    }

    fn ssz_packed() -> (r: bool) {
        false
    }

    fn ssz_encode(&self, buffer: &mut Vec<u8>) {
        encode_items(self.items.as_slice(), buffer);
    }

    fn ssz_decode(bytes: &[u8]) -> (r: Result<Self, DeserializeError>) {
        proof {
            if exists|v: Self| v.spec_wf() && #[trigger] v.spec_encoding() == bytes@ {
                let v = choose|v: Self| v.spec_wf() && #[trigger] v.spec_encoding() == bytes@;
                assert(spec_seq_encoding(v@) == bytes@);
            }
        }
        match decode_items::<T>(bytes, N) {
            Ok(items) => {
                if items.len() as u64 != N {
                    return Err(DeserializeError::WrongItemCount { count: items.len(), expected: N });
                }
                Ok(Vector { items })
            },
            Err(e) => Err(e),
        }
    }

    fn ssz_root(&self) -> (r: Node) {
        Node(items_root(self.items.as_slice(), N))
    }
}

} // verus!
