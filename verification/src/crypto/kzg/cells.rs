//! Index arithmetic for cells: the bit-reversal order in which the
//! consensus specs lay out evaluation domains.
use vstd::arithmetic::power2::{lemma_pow2_pos, lemma_pow2_strictly_increases, lemma_pow2_unfold, pow2};
use vstd::prelude::*;

use super::error::KzgError;
use super::field::{
    blob_to_polynomial, bls_modulus, coset_evals_to_cell, spec_all_wf, spec_chunk_value, spec_chunks_canonical,
    spec_chunks_read, spec_field_inverse, spec_field_values, spec_is_pow2, spec_root_of_unity, BLSFieldElement,
};
use super::polynomial::{
    compute_roots_of_unity, evaluate_polynomialcoeff, fft_field, spec_inverse_fft, spec_is_inverse, spec_poly_eval,
    spec_powers,
};
use crate::constants::{
    BYTES_PER_BLOB, CELLS_PER_EXT_BLOB, FIELD_ELEMENTS_PER_BLOB, FIELD_ELEMENTS_PER_CELL, FIELD_ELEMENTS_PER_EXT_BLOB,
};
use crate::primitives::{Cell, CellIndex};

verus! {

/// The number of trailing zero bits of `x` read as a `width`-bit number:
/// `width` itself for zero.
pub open spec fn spec_trailing_zeros(x: nat, width: nat) -> nat
    decreases width,
{
    if width == 0 || x % 2 == 1 {
        0
    } else {
        1 + spec_trailing_zeros(x / 2, (width - 1) as nat)
    }
}

/// The low `k` bits of `value`, in reverse order: the lowest bit becomes bit
/// `k - 1` of the result.
pub open spec fn spec_reverse_bits(value: nat, k: nat) -> nat
    decreases k,
{
    if k == 0 {
        0
    } else {
        (value % 2) * pow2((k - 1) as nat) + spec_reverse_bits(value / 2, (k - 1) as nat)
    }
}

/// The number of index bits a sequence of `order` items is bit-reversed on:
/// the trailing zeros of `order` as a `usize`.
pub open spec fn spec_index_bits(order: nat) -> nat {
    spec_trailing_zeros(order, usize::BITS as nat)
}

/// A reversed `k`-bit value is below `2^k`.
pub proof fn lemma_reverse_bits_bound(value: nat, k: nat)
    ensures
        spec_reverse_bits(value, k) < pow2(k),
    decreases k,
{
    lemma_pow2_pos(k);
    if k > 0 {
        lemma_reverse_bits_bound(value / 2, (k - 1) as nat);
        lemma_pow2_unfold(k);
        let p = pow2((k - 1) as nat);
        assert((value % 2) * p <= p) by (nonlinear_arith)
            requires
                value % 2 <= 1,
                p > 0,
        ;
    }
}

/// Split `x` into its trailing zero count and the rest.
fn trailing_zero_split(x: usize) -> (r: (u32, usize))
    ensures
        r.0 as nat == spec_index_bits(x as nat),
        r.0 <= usize::BITS,
        x as nat == r.1 * pow2(r.0 as nat),
        x > 0 ==> r.1 % 2 == 1,
{
    let mut count: u32 = 0;
    let mut rest: usize = x;
    proof {
        assert(pow2(0) == 1) by {
            vstd::arithmetic::power2::lemma2_to64();
        }
    }
    while count < usize::BITS && rest % 2 == 0
        invariant
            count <= usize::BITS,
            spec_index_bits(x as nat) == count + spec_trailing_zeros(rest as nat, (usize::BITS - count) as nat),
            x as nat == rest * pow2(count as nat),
        decreases usize::BITS - count,
    {
        let half = rest / 2;
        proof {
            lemma_pow2_unfold((count + 1) as nat);
            let p = pow2(count as nat);
            assert(rest * p == half * (2 * p)) by (nonlinear_arith)
                requires
                    rest == 2 * half,
            ;
        }
        rest = half;
        count = count + 1;
    }
    proof {
        if x > 0 && rest % 2 == 0 {
            assert(count == usize::BITS);
            vstd::layout::unsigned_int_max_values();
            lemma_pow2_pos(count as nat);
            assert(rest > 0);
            assert(rest * pow2(count as nat) >= pow2(count as nat)) by (nonlinear_arith)
                requires
                    rest > 0,
            ;
            assert(false);
        }
    }
    (count, rest)
}

/// Reverse the low bits needed to index a sequence of `order` items.
pub fn reverse_bits(value: usize, order: usize) -> (r: usize)
    ensures
        r as nat == spec_reverse_bits(value as nat, spec_index_bits(order as nat)),
{
    let (bit_count, _) = trailing_zero_split(order);
    let ghost k = bit_count as nat;
    let mut out: usize = 0;
    let mut v: usize = value;
    let mut i: u32 = 0;
    proof {
        vstd::layout::unsigned_int_max_values();
        lemma_pow2_pos(k);
        assert(pow2(0) == 1) by {
            vstd::arithmetic::power2::lemma2_to64();
        }
    }
    while i < bit_count
        invariant
            i <= bit_count <= usize::BITS,
            k == bit_count as nat,
            (usize::MAX as nat) == pow2(usize::BITS as nat) - 1,
            out < pow2(i as nat),
            spec_reverse_bits(value as nat, k) == out * pow2((k - i) as nat) + spec_reverse_bits(
                v as nat,
                (k - i) as nat,
            ),
        decreases bit_count - i,
    {
        let bit = v % 2;
        proof {
            let m = (k - i) as nat;
            lemma_pow2_unfold(m);
            let p = pow2((m - 1) as nat);
            assert(out * (2 * p) + (bit * p + spec_reverse_bits((v / 2) as nat, (m - 1) as nat)) == (2 * out
                + bit) * p + spec_reverse_bits((v / 2) as nat, (m - 1) as nat)) by (nonlinear_arith);
            lemma_pow2_unfold((i + 1) as nat);
            if i + 1 < usize::BITS {
                lemma_pow2_strictly_increases((i + 1) as nat, usize::BITS as nat);
            }
        }
        out = out * 2 + bit;
        v = v / 2;
        i = i + 1;
    }
    proof {
        vstd::arithmetic::power2::lemma2_to64();
        assert((k - i) as nat == 0);
        assert(spec_reverse_bits(v as nat, 0) == 0);
        let p = pow2((k - i) as nat);
        assert(p == 1);
        assert(out * p == out) by (nonlinear_arith)
            requires
                p == 1,
        ;
    }
    out
}

/// The positions `0..len` of `keys` whose key is `c`, in order.
pub open spec fn spec_key_bucket(keys: Seq<nat>, c: nat, len: nat) -> Seq<int>
    decreases len,
{
    if len == 0 {
        Seq::empty()
    } else {
        let prev = spec_key_bucket(keys, c, (len - 1) as nat);
        if keys[len - 1] == c {
            prev.push(len - 1)
        } else {
            prev
        }
    }
}

/// The positions of `keys` stably sorted by key, for keys below `span`: all
/// positions with key 0 in order, then those with key 1, and so on.
pub open spec fn spec_stable_key_order(keys: Seq<nat>, span: nat) -> Seq<int>
    decreases span,
{
    if span == 0 {
        Seq::empty()
    } else {
        spec_stable_key_order(keys, (span - 1) as nat) + spec_key_bucket(keys, (span - 1) as nat, keys.len())
    }
}

/// The bit-reversal key of each position of a sequence of `n` items.
pub open spec fn spec_bit_reversal_keys(n: nat) -> Seq<nat> {
    Seq::new(n, |i: int| spec_reverse_bits(i as nat, spec_index_bits(n)))
}

/// The positions of a sequence of `n` items in bit-reversal order: sorted
/// stably by their bit-reversal keys, all of which are below
/// `2^spec_index_bits(n)`.
pub open spec fn spec_bit_reversal_order(n: nat) -> Seq<int> {
    spec_stable_key_order(spec_bit_reversal_keys(n), pow2(spec_index_bits(n)))
}

/// The positions among the first `len` whose key is below `s`, counted.
pub open spec fn spec_count_keys_below(keys: Seq<nat>, s: nat, len: nat) -> nat
    decreases len,
{
    if len == 0 {
        0
    } else {
        spec_count_keys_below(keys, s, (len - 1) as nat) + if keys[len - 1] < s {
            1nat
        } else {
            0nat
        }
    }
}

/// A bucket holds, in increasing order, exactly the positions with its key.
proof fn lemma_key_bucket(keys: Seq<nat>, c: nat, len: nat)
    requires
        len <= keys.len(),
    ensures
        forall|j: int|
            0 <= j < spec_key_bucket(keys, c, len).len() ==> 0 <= #[trigger] spec_key_bucket(keys, c, len)[j] < len
                && keys[spec_key_bucket(keys, c, len)[j]] == c,
        forall|j1: int, j2: int|
            0 <= j1 < j2 < spec_key_bucket(keys, c, len).len() ==> #[trigger] spec_key_bucket(keys, c, len)[j1]
                < #[trigger] spec_key_bucket(keys, c, len)[j2],
        spec_count_keys_below(keys, c + 1, len) == spec_count_keys_below(keys, c, len) + spec_key_bucket(
            keys,
            c,
            len,
        ).len(),
    decreases len,
{
    if len > 0 {
        lemma_key_bucket(keys, c, (len - 1) as nat);
        let prev = spec_key_bucket(keys, c, (len - 1) as nat);
        let b = spec_key_bucket(keys, c, len);
        if keys[len - 1] == c {
            assert(b == prev.push(len - 1));
            assert forall|j: int| 0 <= j < b.len() implies 0 <= #[trigger] b[j] < len && keys[b[j]] == c by {
                if j < prev.len() {
                    assert(b[j] == prev[j]);
                }
            }
            assert forall|j1: int, j2: int| 0 <= j1 < j2 < b.len() implies #[trigger] b[j1] < #[trigger] b[j2] by {
                assert(b[j1] == prev[j1]);
                if j2 < prev.len() {
                    assert(b[j2] == prev[j2]);
                }
            }
        }
    }
}

/// The stable key order of keys all below `span` holds each position once.
proof fn lemma_stable_key_order(keys: Seq<nat>, span: nat)
    ensures
        spec_stable_key_order(keys, span).len() == spec_count_keys_below(keys, span, keys.len()),
        forall|j: int|
            0 <= j < spec_stable_key_order(keys, span).len() ==> 0 <= #[trigger] spec_stable_key_order(keys, span)[j]
                < keys.len() && keys[spec_stable_key_order(keys, span)[j]] < span,
        forall|j1: int, j2: int|
            0 <= j1 < j2 < spec_stable_key_order(keys, span).len() ==> #[trigger] spec_stable_key_order(keys, span)[j1]
                != #[trigger] spec_stable_key_order(keys, span)[j2],
    decreases span,
{
    if span == 0 {
        lemma_count_keys_below_zero(keys, keys.len());
    } else {
        let c = (span - 1) as nat;
        lemma_stable_key_order(keys, c);
        lemma_key_bucket(keys, c, keys.len());
        let before = spec_stable_key_order(keys, c);
        let bucket = spec_key_bucket(keys, c, keys.len());
        let all = spec_stable_key_order(keys, span);
        assert(all == before + bucket);
        assert forall|j: int| 0 <= j < all.len() implies 0 <= #[trigger] all[j] < keys.len() && keys[all[j]] < span by {
            if j < before.len() {
                assert(all[j] == before[j]);
            } else {
                assert(all[j] == bucket[j - before.len()]);
            }
        }
        assert forall|j1: int, j2: int| 0 <= j1 < j2 < all.len() implies #[trigger] all[j1] != #[trigger] all[j2] by {
            if j2 < before.len() {
                assert(all[j1] == before[j1]);
                assert(all[j2] == before[j2]);
            } else if j1 >= before.len() {
                assert(all[j1] == bucket[j1 - before.len()]);
                assert(all[j2] == bucket[j2 - before.len()]);
            } else {
                assert(all[j1] == before[j1]);
                assert(all[j2] == bucket[j2 - before.len()]);
            }
        }
    }
}

/// No key is below zero.
proof fn lemma_count_keys_below_zero(keys: Seq<nat>, len: nat)
    ensures
        spec_count_keys_below(keys, 0, len) == 0,
    decreases len,
{
    if len > 0 {
        lemma_count_keys_below_zero(keys, (len - 1) as nat);
    }
}

/// When every key is below `s`, all positions are counted.
proof fn lemma_count_keys_below_all(keys: Seq<nat>, s: nat, len: nat)
    requires
        len <= keys.len(),
        forall|t: int| 0 <= t < len ==> #[trigger] keys[t] < s,
    ensures
        spec_count_keys_below(keys, s, len) == len,
    decreases len,
{
    if len > 0 {
        lemma_count_keys_below_all(keys, s, (len - 1) as nat);
    }
}

/// The bit-reversal order of `n` items lists each position of `0..n`
/// exactly once: it is a permutation.
pub proof fn lemma_bit_reversal_order_is_permutation(n: nat)
    ensures
        spec_bit_reversal_order(n).len() == n,
        forall|j: int| 0 <= j < n ==> 0 <= #[trigger] spec_bit_reversal_order(n)[j] < n,
        forall|j1: int, j2: int|
            0 <= j1 < j2 < n ==> #[trigger] spec_bit_reversal_order(n)[j1] != #[trigger] spec_bit_reversal_order(n)[j2],
{
    let k = spec_index_bits(n);
    let keys = spec_bit_reversal_keys(n);
    assert forall|t: int| 0 <= t < n implies #[trigger] keys[t] < pow2(k) by {
        lemma_reverse_bits_bound(t as nat, k);
    }
    lemma_count_keys_below_all(keys, pow2(k), n);
    lemma_stable_key_order(keys, pow2(k));
}

proof fn lemma_empty_key_order(keys: Seq<nat>, span: nat)
    requires
        keys.len() == 0,
    ensures
        spec_stable_key_order(keys, span) == Seq::<int>::empty(),
    decreases span,
{
    if span > 0 {
        lemma_empty_key_order(keys, (span - 1) as nat);
        assert(spec_stable_key_order(keys, (span - 1) as nat) + spec_key_bucket(keys, (span - 1) as nat, 0)
            =~= Seq::<int>::empty());
    }
}

/// Return a bit-reversal permutation of `values`: the items stably sorted
/// by the bit-reversed index of their position.
pub fn bit_reversal_permutation<T: Clone>(values: &[T]) -> (r: Vec<T>)
    ensures
        r@.len() == spec_bit_reversal_order(values@.len()).len(),
        forall|j: int|
            0 <= j < r@.len() ==> 0 <= #[trigger] spec_bit_reversal_order(values@.len())[j] < values@.len()
                && cloned(values@[spec_bit_reversal_order(values@.len())[j]], r@[j]),
{
    let n = values.len();
    let ghost order = spec_bit_reversal_order(n as nat);
    let ghost keys_spec = spec_bit_reversal_keys(n as nat);
    let mut out: Vec<T> = Vec::new();
    if n == 0 {
        proof {
            lemma_empty_key_order(keys_spec, pow2(spec_index_bits(0)));
        }
        return out;
    }
    let (bits, odd) = trailing_zero_split(n);
    let span = n / odd;
    proof {
        lemma_pow2_pos(bits as nat);
        let p = pow2(bits as nat);
        assert(span == p) by (nonlinear_arith)
            requires
                n == odd * p,
                odd > 0,
                span == n / odd,
        ;
    }
    let mut keys: Vec<usize> = Vec::new();
    let mut i: usize = 0;
    while i < n
        invariant
            i <= n,
            n == values@.len(),
            keys@.len() == i,
            keys_spec == spec_bit_reversal_keys(n as nat),
            forall|t: int| 0 <= t < i ==> keys@[t] as nat == #[trigger] keys_spec[t],
        decreases n - i,
    {
        keys.push(reverse_bits(i, n));
        i = i + 1;
    }
    let mut c: usize = 0;
    while c < span
        invariant
            c <= span,
            span as nat == pow2(bits as nat),
            bits as nat == spec_index_bits(n as nat),
            n == values@.len(),
            keys@.len() == n,
            keys_spec == spec_bit_reversal_keys(n as nat),
            keys_spec.len() == n,
            forall|t: int| 0 <= t < n ==> keys@[t] as nat == #[trigger] keys_spec[t],
            out@.len() == spec_stable_key_order(keys_spec, c as nat).len(),
            forall|j: int|
                0 <= j < out@.len() ==> 0 <= #[trigger] spec_stable_key_order(keys_spec, c as nat)[j] < n
                    && cloned(values@[spec_stable_key_order(keys_spec, c as nat)[j]], out@[j]),
        decreases span - c,
    {
        let ghost before = spec_stable_key_order(keys_spec, c as nat);
        let mut t: usize = 0;
        while t < n
            invariant
                t <= n,
                c < span,
                n == values@.len(),
                keys@.len() == n,
                keys_spec.len() == n,
                forall|s: int| 0 <= s < n ==> keys@[s] as nat == #[trigger] keys_spec[s],
                before == spec_stable_key_order(keys_spec, c as nat),
                out@.len() == (before + spec_key_bucket(keys_spec, c as nat, t as nat)).len(),
                forall|j: int|
                    0 <= j < out@.len() ==> 0 <= #[trigger] (before + spec_key_bucket(keys_spec, c as nat, t as nat))[j]
                        < n && cloned(
                        values@[(before + spec_key_bucket(keys_spec, c as nat, t as nat))[j]],
                        out@[j],
                    ),
            decreases n - t,
        {
            let ghost old_idx = before + spec_key_bucket(keys_spec, c as nat, t as nat);
            if keys[t] == c {
                let item = values[t].clone();
                out.push(item);
                proof {
                    let new_idx = before + spec_key_bucket(keys_spec, c as nat, (t + 1) as nat);
                    assert(new_idx =~= old_idx.push(t as int));
                }
            } else {
                proof {
                    let new_idx = before + spec_key_bucket(keys_spec, c as nat, (t + 1) as nat);
                    assert(new_idx =~= old_idx);
                }
            }
            t = t + 1;
        }
        c = c + 1;
    }
    out
}


/// Scanning the first `n` cell indices: each must be in range, no smaller
/// than the one before it, and not seen before.
pub open spec fn spec_recovery_scan(indices: Seq<CellIndex>, n: nat) -> Result<(), KzgError>
    decreases n,
{
    if n == 0 {
        Ok(())
    } else {
        match spec_recovery_scan(indices, (n - 1) as nat) {
            Err(e) => Err(e),
            Ok(()) => {
                let x = indices[n - 1].0;
                if x >= CELLS_PER_EXT_BLOB {
                    Err(KzgError::CellIndexOutOfRange { index: x, limit: CELLS_PER_EXT_BLOB })
                } else if n >= 2 && indices[n - 2].0 > x {
                    Err(KzgError::CellIndicesNotSorted)
                } else if exists|j: int| 0 <= j < n - 1 && #[trigger] indices[j].0 == x {
                    Err(KzgError::DuplicateCellIndex { index: x })
                } else {
                    Ok(())
                }
            },
        }
    }
}

/// What checking recovery inputs gives: matching lengths, at least half and
/// at most all of the cells, then the index scan.
pub open spec fn spec_validate_recovery_inputs(indices: Seq<CellIndex>, cells_len: nat) -> Result<(), KzgError> {
    if indices.len() != cells_len {
        Err(
            KzgError::LengthMismatch {
                context: "recovery inputs",
                expected: indices.len() as usize,
                got: cells_len as usize,
            },
        )
    } else if indices.len() < CELLS_PER_EXT_BLOB / 2 {
        Err(KzgError::NotEnoughCells { minimum: CELLS_PER_EXT_BLOB / 2, got: indices.len() as usize })
    } else if indices.len() > CELLS_PER_EXT_BLOB {
        Err(KzgError::TooManyCells { maximum: CELLS_PER_EXT_BLOB, got: indices.len() as usize })
    } else {
        spec_recovery_scan(indices, indices.len())
    }
}

/// Validate recovery preconditions: as many indices as cells, between half
/// and all of an extended blob's cells, and indices in range, ascending and
/// distinct.
pub fn validate_recovery_inputs(cell_indices: &[CellIndex], cells: &[crate::primitives::Cell]) -> (r: Result<
    (),
    KzgError,
>)
    ensures
        r == spec_validate_recovery_inputs(cell_indices@, cells@.len()),
{
    if cell_indices.len() != cells.len() {
        return Err(
            KzgError::LengthMismatch {
                context: "recovery inputs",
                expected: cell_indices.len(),
                got: cells.len(),
            },
        );
    }
    let minimum = CELLS_PER_EXT_BLOB / 2;
    if cell_indices.len() < minimum {
        return Err(KzgError::NotEnoughCells { minimum, got: cell_indices.len() });
    }
    if cell_indices.len() > CELLS_PER_EXT_BLOB {
        return Err(KzgError::TooManyCells { maximum: CELLS_PER_EXT_BLOB, got: cell_indices.len() });
    }
    let mut seen: Vec<bool> = Vec::new();
    let mut k: usize = 0;
    while k < CELLS_PER_EXT_BLOB
        invariant
            k <= CELLS_PER_EXT_BLOB,
            seen@.len() == k,
            forall|t: int| 0 <= t < k ==> !#[trigger] seen@[t],
        decreases CELLS_PER_EXT_BLOB - k,
    {
        seen.push(false);
        k = k + 1;
    }
    let n = cell_indices.len();
    let mut i: usize = 0;
    while i < n
        invariant
            n == cell_indices@.len(),
            i <= n,
            seen@.len() == CELLS_PER_EXT_BLOB,
            spec_validate_recovery_inputs(cell_indices@, cells@.len()) == spec_recovery_scan(cell_indices@, n as nat),
            spec_recovery_scan(cell_indices@, i as nat) == Ok::<(), KzgError>(()),
            forall|t: int|
                0 <= t < CELLS_PER_EXT_BLOB ==> (#[trigger] seen@[t] <==> exists|j: int|
                    0 <= j < i && #[trigger] cell_indices@[j].0 == t),
        decreases n - i,
    {
        let index = cell_indices[i].0;
        if index >= CELLS_PER_EXT_BLOB as u64 {
            proof {
                lemma_recovery_scan_stops(cell_indices@, (i + 1) as nat, n as nat);
            }
            return Err(KzgError::CellIndexOutOfRange { index, limit: CELLS_PER_EXT_BLOB });
        }
        if i > 0 && cell_indices[i - 1].0 > index {
            proof {
                lemma_recovery_scan_stops(cell_indices@, (i + 1) as nat, n as nat);
            }
            return Err(KzgError::CellIndicesNotSorted);
        }
        if seen[index as usize] {
            proof {
                lemma_recovery_scan_stops(cell_indices@, (i + 1) as nat, n as nat);
            }
            return Err(KzgError::DuplicateCellIndex { index });
        }
        proof {
            assert(!(exists|j: int| 0 <= j < i && #[trigger] cell_indices@[j].0 == index));
        }
        seen.set(index as usize, true);
        proof {
            assert forall|t: int| 0 <= t < CELLS_PER_EXT_BLOB implies (#[trigger] seen@[t] <==> exists|j: int|
                0 <= j < i + 1 && #[trigger] cell_indices@[j].0 == t) by {
                if t == index {
                    assert(cell_indices@[i as int].0 == t);
                }
            }
        }
        i = i + 1;
    }
    Ok(())
}

/// Once the scan fails on a prefix, it fails the same way on longer ones.
proof fn lemma_recovery_scan_stops(indices: Seq<CellIndex>, k: nat, m: nat)
    requires
        k <= m,
        spec_recovery_scan(indices, k) is Err,
    ensures
        spec_recovery_scan(indices, m) == spec_recovery_scan(indices, k),
    decreases m - k,
{
    if k < m {
        lemma_recovery_scan_stops(indices, k, (m - 1) as nat);
    }
}


/// The values of `s` in bit-reversal order.
pub open spec fn spec_brp_values(s: Seq<nat>) -> Seq<nat> {
    Seq::new(
        spec_bit_reversal_order(s.len()).len(),
        |j: int| s[spec_bit_reversal_order(s.len())[j]],
    )
}

/// Field elements in bit-reversal order: their values are the values in
/// bit-reversal order.
pub(crate) fn field_bit_reversal_permutation(values: &[BLSFieldElement]) -> (r: Vec<BLSFieldElement>)
    requires
        spec_all_wf(values@),
    ensures
        spec_all_wf(r@),
        r@.len() == values@.len(),
        spec_field_values(r@) == spec_brp_values(spec_field_values(values@)),
{
    let r = bit_reversal_permutation(values);
    proof {
        lemma_bit_reversal_order_is_permutation(values@.len());
        let order = spec_bit_reversal_order(values@.len());
        assert forall|j: int| 0 <= j < r@.len() implies r@[j] == values@[order[j]] by {
            assert(cloned(values@[order[j]], r@[j]));
        }
        assert(spec_field_values(r@) =~= spec_brp_values(spec_field_values(values@)));
    }
    r
}


/// The root of unity of the blob domain.
pub open spec fn spec_blob_root() -> nat {
    spec_root_of_unity(FIELD_ELEMENTS_PER_BLOB as u64)->0
}

/// The root of unity of the extended blob domain.
pub open spec fn spec_ext_root() -> nat {
    spec_root_of_unity(FIELD_ELEMENTS_PER_EXT_BLOB as u64)->0
}

/// Blob evaluations to coefficients: the inverse transform, over the blob
/// domain, of the evaluations in bit-reversal order.
pub open spec fn spec_eval_to_coeff(evals: Seq<nat>) -> Seq<nat> {
    spec_inverse_fft(
        spec_brp_values(evals),
        spec_powers(spec_blob_root(), FIELD_ELEMENTS_PER_BLOB as nat),
        spec_field_inverse(FIELD_ELEMENTS_PER_BLOB as nat),
    )
}

/// Convert blob evaluation form into polynomial coefficient form.
pub fn polynomial_eval_to_coeff(polynomial: &[BLSFieldElement]) -> (r: Result<Vec<BLSFieldElement>, KzgError>)
    requires
        spec_all_wf(polynomial@),
    ensures
        match r {
            Ok(coeffs) => {
                &&& polynomial@.len() == FIELD_ELEMENTS_PER_BLOB
                &&& spec_all_wf(coeffs@)
                &&& spec_is_inverse(FIELD_ELEMENTS_PER_BLOB as nat, spec_field_inverse(FIELD_ELEMENTS_PER_BLOB as nat))
                &&& spec_field_values(coeffs@) == spec_eval_to_coeff(spec_field_values(polynomial@))
            },
            Err(e) => polynomial@.len() != FIELD_ELEMENTS_PER_BLOB && e == (KzgError::LengthMismatch {
                context: "blob polynomial",
                expected: FIELD_ELEMENTS_PER_BLOB,
                got: polynomial@.len() as usize,
            }),
        },
{
    if polynomial.len() != FIELD_ELEMENTS_PER_BLOB {
        return Err(
            KzgError::LengthMismatch {
                context: "blob polynomial",
                expected: FIELD_ELEMENTS_PER_BLOB,
                got: polynomial.len(),
            },
        );
    }
    proof {
        reveal_with_fuel(spec_is_pow2, 13);
        assert(spec_is_pow2(4096));
    }
    let roots_of_unity = match compute_roots_of_unity(FIELD_ELEMENTS_PER_BLOB) {
        Ok(roots) => roots,
        Err(e) => {
            return Err(e);
        },
    };
    let permuted = field_bit_reversal_permutation(polynomial);
    let r = fft_field(permuted.as_slice(), roots_of_unity.as_slice(), true);
    proof {
        assert(spec_field_values(roots_of_unity@).len() == roots_of_unity@.len());
        assert(spec_field_values(permuted@).len() == permuted@.len());
    }
    r
}

/// The extended blob domain's roots of unity in bit-reversal order.
pub open spec fn spec_ext_roots_brp() -> Seq<nat> {
    spec_brp_values(spec_powers(spec_ext_root(), FIELD_ELEMENTS_PER_EXT_BLOB as nat))
}

/// The bit-reversed roots of unity over the extended blob domain, from
/// which each cell's coset is cut.
pub(crate) fn ext_roots_of_unity_brp() -> (r: Vec<BLSFieldElement>)
    ensures
        spec_root_of_unity(FIELD_ELEMENTS_PER_EXT_BLOB as u64) is Some,
        spec_all_wf(r@),
        r@.len() == FIELD_ELEMENTS_PER_EXT_BLOB,
        spec_field_values(r@) == spec_ext_roots_brp(),
{
    proof {
        reveal_with_fuel(spec_is_pow2, 14);
        assert(spec_is_pow2(8192));
    }
    let roots = match compute_roots_of_unity(FIELD_ELEMENTS_PER_EXT_BLOB) {
        Ok(roots) => roots,
        Err(_) => {
            proof {
                assert(false);
            }
            Vec::new()
        },
    };
    proof {
        assert(spec_field_values(roots@).len() == roots@.len());
    }
    field_bit_reversal_permutation(roots.as_slice())
}

/// The coset of cell `index` cut from the bit-reversed extended roots.
pub(crate) fn coset_from_table(table: &Vec<BLSFieldElement>, index: usize) -> (r: Vec<BLSFieldElement>)
    requires
        index < CELLS_PER_EXT_BLOB,
        table@.len() == FIELD_ELEMENTS_PER_EXT_BLOB,
        spec_all_wf(table@),
    ensures
        spec_all_wf(r@),
        r@.len() == FIELD_ELEMENTS_PER_CELL,
        forall|j: int| 0 <= j < FIELD_ELEMENTS_PER_CELL ==> #[trigger] r@[j] == table@[64 * index + j],
{
    let start = FIELD_ELEMENTS_PER_CELL * index;
    let mut out: Vec<BLSFieldElement> = Vec::new();
    let mut j: usize = 0;
    while j < FIELD_ELEMENTS_PER_CELL
        invariant
            j <= FIELD_ELEMENTS_PER_CELL,
            index < CELLS_PER_EXT_BLOB,
            start == 64 * index,
            table@.len() == FIELD_ELEMENTS_PER_EXT_BLOB,
            spec_all_wf(table@),
            out@.len() == j,
            forall|t: int| 0 <= t < j ==> #[trigger] out@[t] == table@[64 * index + t],
        decreases FIELD_ELEMENTS_PER_CELL - j,
    {
        out.push(table[start + j]);
        j = j + 1;
    }
    out
}

/// Get the coset shift for a cell index: the first point of its coset.
pub fn coset_shift_for_cell(cell_index: CellIndex) -> (r: Result<BLSFieldElement, KzgError>)
    ensures
        match r {
            Ok(shift) => cell_index.0 < CELLS_PER_EXT_BLOB && shift.wf() && shift.value()
                == spec_ext_roots_brp()[64 * cell_index.0],
            Err(e) => cell_index.0 >= CELLS_PER_EXT_BLOB && e == (KzgError::CellIndexOutOfRange {
                index: cell_index.0,
                limit: CELLS_PER_EXT_BLOB,
            }),
        },
{
    if cell_index.0 >= CELLS_PER_EXT_BLOB as u64 {
        return Err(KzgError::CellIndexOutOfRange { index: cell_index.0, limit: CELLS_PER_EXT_BLOB });
    }
    let table = ext_roots_of_unity_brp();
    let index = cell_index.0 as usize;
    proof {
        assert(spec_field_values(table@)[64 * index] == table@[64 * index].value());
    }
    Ok(table[FIELD_ELEMENTS_PER_CELL * index])
}

/// Get the full coset for a cell index: its run of the bit-reversed
/// extended roots.
pub fn coset_for_cell(cell_index: CellIndex) -> (r: Result<Vec<BLSFieldElement>, KzgError>)
    ensures
        match r {
            Ok(coset) => cell_index.0 < CELLS_PER_EXT_BLOB && spec_all_wf(coset@) && coset@.len()
                == FIELD_ELEMENTS_PER_CELL && spec_field_values(coset@) == spec_ext_roots_brp().subrange(
                64 * cell_index.0,
                64 * cell_index.0 + 64,
            ),
            Err(e) => cell_index.0 >= CELLS_PER_EXT_BLOB && e == (KzgError::CellIndexOutOfRange {
                index: cell_index.0,
                limit: CELLS_PER_EXT_BLOB,
            }),
        },
{
    if cell_index.0 >= CELLS_PER_EXT_BLOB as u64 {
        return Err(KzgError::CellIndexOutOfRange { index: cell_index.0, limit: CELLS_PER_EXT_BLOB });
    }
    let table = ext_roots_of_unity_brp();
    let coset = coset_from_table(&table, cell_index.0 as usize);
    proof {
        let i = cell_index.0 as int;
        assert forall|j: int| 0 <= j < 64 implies spec_field_values(coset@)[j] == spec_ext_roots_brp()[64 * i + j] by {
            assert(coset@[j] == table@[64 * i + j]);
        }
        assert(spec_field_values(coset@) =~= spec_ext_roots_brp().subrange(64 * i, 64 * i + 64));
    }
    Ok(coset)
}


/// The cells hold the polynomial with coefficients `coeffs` evaluated over
/// the cosets: point `j` of cell `i` is the bit-reversed extended root at
/// `64 * i + j`.
pub open spec fn spec_cells_of(coeffs: Seq<nat>, cells: Seq<Cell>) -> bool {
    &&& cells.len() == CELLS_PER_EXT_BLOB
    &&& forall|i: int, j: int|
        0 <= i < CELLS_PER_EXT_BLOB && 0 <= j < FIELD_ELEMENTS_PER_CELL ==> #[trigger] spec_chunk_value(cells[i].0@, j)
            == spec_poly_eval(coeffs, spec_ext_roots_brp()[64 * i + j]) % bls_modulus()
}

/// Compute all cells from a coefficient-form polynomial.
pub fn compute_cells_polynomialcoeff(polynomial_coeff: &[BLSFieldElement]) -> (r: Result<Vec<Cell>, KzgError>)
    requires
        spec_all_wf(polynomial_coeff@),
    ensures
        r matches Ok(cells) && spec_cells_of(spec_field_values(polynomial_coeff@), cells@),
{
    let ghost coeffs = spec_field_values(polynomial_coeff@);
    let table = ext_roots_of_unity_brp();
    let mut cells: Vec<Cell> = Vec::new();
    let mut i: usize = 0;
    while i < CELLS_PER_EXT_BLOB
        invariant
            i <= CELLS_PER_EXT_BLOB,
            spec_all_wf(polynomial_coeff@),
            coeffs == spec_field_values(polynomial_coeff@),
            table@.len() == FIELD_ELEMENTS_PER_EXT_BLOB,
            spec_all_wf(table@),
            spec_field_values(table@) == spec_ext_roots_brp(),
            cells@.len() == i,
            forall|t: int, j: int|
                0 <= t < i && 0 <= j < FIELD_ELEMENTS_PER_CELL ==> #[trigger] spec_chunk_value(cells@[t].0@, j)
                    == spec_poly_eval(coeffs, spec_ext_roots_brp()[64 * t + j]) % bls_modulus(),
        decreases CELLS_PER_EXT_BLOB - i,
    {
        let coset = coset_from_table(&table, i);
        let mut ys: Vec<BLSFieldElement> = Vec::new();
        let mut j: usize = 0;
        while j < FIELD_ELEMENTS_PER_CELL
            invariant
                j <= FIELD_ELEMENTS_PER_CELL,
                i < CELLS_PER_EXT_BLOB,
                spec_all_wf(polynomial_coeff@),
                coeffs == spec_field_values(polynomial_coeff@),
                coset@.len() == FIELD_ELEMENTS_PER_CELL,
                spec_all_wf(coset@),
                table@.len() == FIELD_ELEMENTS_PER_EXT_BLOB,
                spec_field_values(table@) == spec_ext_roots_brp(),
                forall|t: int| 0 <= t < FIELD_ELEMENTS_PER_CELL ==> #[trigger] coset@[t] == table@[64 * i + t],
                ys@.len() == j,
                forall|t: int| 0 <= t < j ==> (#[trigger] ys@[t]).value() == spec_poly_eval(
                    coeffs,
                    spec_ext_roots_brp()[64 * i + t],
                ) % bls_modulus(),
            decreases FIELD_ELEMENTS_PER_CELL - j,
        {
            let y = evaluate_polynomialcoeff(polynomial_coeff, coset[j]);
            proof {
                assert(coset@[j as int] == table@[64 * i + j]);
                assert(spec_field_values(table@)[64 * i + j] == table@[64 * i + j].value());
            }
            ys.push(y);
            j = j + 1;
        }
        let cell = match coset_evals_to_cell(ys.as_slice()) {
            Ok(cell) => cell,
            Err(e) => {
                return Err(e);
            },
        };
        proof {
            assert forall|j: int| 0 <= j < FIELD_ELEMENTS_PER_CELL implies #[trigger] spec_chunk_value(cell.0@, j)
                == spec_poly_eval(coeffs, spec_ext_roots_brp()[64 * i + j]) % bls_modulus() by {
                assert(spec_chunk_value(cell.0@, j) == ys@[j].value());
            }
        }
        cells.push(cell);
        proof {
            assert(cells@[i as int] == cell);
        }
        i = i + 1;
    }
    Ok(cells)
}

/// The field elements a blob's 32-byte chunks stand for.
pub open spec fn spec_blob_evals(blob: Seq<u8>) -> Seq<nat> {
    Seq::new(FIELD_ELEMENTS_PER_BLOB as nat, |i: int| spec_chunk_value(blob, i))
}

/// Given a blob, extend it and return all cells of the extended blob: read
/// its field elements, take the polynomial they are the evaluations of, and
/// evaluate it over every cell's coset.
pub fn compute_cells(blob: &[u8]) -> (r: Result<Vec<Cell>, KzgError>)
    ensures
        match r {
            Ok(cells) => {
                &&& blob@.len() == BYTES_PER_BLOB
                &&& spec_chunks_canonical(blob@, FIELD_ELEMENTS_PER_BLOB as nat)
                &&& spec_cells_of(spec_eval_to_coeff(spec_blob_evals(blob@)), cells@)
            },
            Err(e) => if blob@.len() != BYTES_PER_BLOB {
                e == (KzgError::InvalidBlobLength { expected: BYTES_PER_BLOB, got: blob@.len() as usize })
            } else {
                !spec_chunks_canonical(blob@, FIELD_ELEMENTS_PER_BLOB as nat) && e == KzgError::InvalidFieldElement
            },
        },
{
    let polynomial = match blob_to_polynomial(blob) {
        Ok(polynomial) => polynomial,
        Err(e) => {
            return Err(e);
        },
    };
    proof {
        assert(spec_field_values(polynomial@) =~= spec_blob_evals(blob@));
    }
    let polynomial_coeff = match polynomial_eval_to_coeff(polynomial.as_slice()) {
        Ok(coeffs) => coeffs,
        Err(e) => {
            return Err(e);
        },
    };
    compute_cells_polynomialcoeff(polynomial_coeff.as_slice())
}

} // verus!
