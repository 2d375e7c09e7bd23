//! Polynomials over the BLS12-381 scalar field in coefficient form, lowest
//! degree first, and the powers and roots of unity their evaluation domains
//! are built from.
use vstd::arithmetic::div_mod::{
    lemma_add_mod_noop, lemma_add_mod_noop_right, lemma_fundamental_div_mod, lemma_mod_multiples_vanish, lemma_mod_twice,
    lemma_mul_mod_noop_left, lemma_mul_mod_noop_right, lemma_small_mod,
};
use vstd::arithmetic::power::pow;
use vstd::prelude::*;

use super::error::KzgError;
use crate::constants::PRIMITIVE_ROOT_OF_UNITY;
use super::field::{
    bls_modulus, field_add, field_inverse, field_mul, field_neg, field_root_of_unity, field_sub, spec_all_wf,
    spec_field_inverse, spec_field_values, spec_is_pow2,
    spec_root_of_unity, BLSFieldElement,
};

verus! {

/// `x` to the powers `0..n`, reduced modulo the field order.
pub open spec fn spec_powers(x: nat, n: nat) -> Seq<nat> {
    Seq::new(n, |i: int| (pow(x as int, i as nat) % (bls_modulus() as int)) as nat)
}

/// Return `x` to the powers `0..n`.
pub fn compute_powers(x: BLSFieldElement, n: usize) -> (r: Vec<BLSFieldElement>)
    requires
        x.wf(),
    ensures
        spec_all_wf(r@),
        spec_field_values(r@) == spec_powers(x.value(), n as nat),
{
    let mut current_power = BLSFieldElement::one();
    let mut powers: Vec<BLSFieldElement> = Vec::new();
    let mut i: usize = 0;
    proof {
        lemma_small_mod(1, bls_modulus());
        reveal(pow);
    }
    while i < n
        invariant
            i <= n,
            x.wf(),
            current_power.wf(),
            current_power.value() == pow(x.value() as int, i as nat) % (bls_modulus() as int),
            powers@.len() == i,
            spec_all_wf(powers@),
            forall|j: int| 0 <= j < i ==> #[trigger] powers@[j].value() == pow(x.value() as int, j as nat) % (
            bls_modulus() as int),
        decreases n - i,
    {
        powers.push(current_power);
        let next = field_mul(current_power, x);
        proof {
            let p = bls_modulus() as int;
            let e = pow(x.value() as int, i as nat);
            lemma_mul_mod_noop_left(e, x.value() as int, p);
            assert(pow(x.value() as int, (i + 1) as nat) == x.value() * e) by {
                reveal(pow);
            }
            assert(e * x.value() == x.value() * e) by (nonlinear_arith);
        }
        current_power = next;
        i = i + 1;
    }
    assert(spec_field_values(powers@) =~= spec_powers(x.value(), n as nat));
    powers
}

/// Whether `n` is a power of two.
pub fn is_power_of_two(n: usize) -> (b: bool)
    ensures
        b == spec_is_pow2(n as nat),
{
    if n == 0 {
        return false;
    }
    let mut m = n;
    while m > 1
        invariant
            m >= 1,
            spec_is_pow2(n as nat) == spec_is_pow2(m as nat),
        decreases m,
    {
        if m % 2 != 0 {
            return false;
        }
        m = m / 2;
    }
    true
}

/// The roots of unity of a domain of `order` points: the powers of the
/// root `ark_ff` gives for that order.
pub fn compute_roots_of_unity(order: usize) -> (r: Result<Vec<BLSFieldElement>, KzgError>)
    ensures
        match r {
            Ok(roots) => spec_is_pow2(order as nat) && spec_root_of_unity(order as u64) is Some && spec_all_wf(roots@)
                && spec_field_values(roots@) == spec_powers(spec_root_of_unity(order as u64)->0, order as nat),
            Err(e) => e == KzgError::UnsupportedDomainSize(order) && (!spec_is_pow2(order as nat) || spec_root_of_unity(
                order as u64,
            ) is None),
        },
        spec_is_pow2(order as nat) && order <= 0x1_0000_0000 ==> r is Ok,
{
    if order == 0 || !is_power_of_two(order) {
        return Err(KzgError::UnsupportedDomainSize(order));
    }
    proof {
        vstd::arithmetic::power2::lemma2_to64();
        assert(order < 0x1_0000_0000_0000_0000) by {
            vstd::layout::unsigned_int_max_values();
        }
        assert(spec_is_pow2(order as nat));
        vstd::arithmetic::power2::lemma_pow2_unfold(64);
        assert(vstd::arithmetic::power2::pow2(63) == 0x8000_0000_0000_0000);
        assert(order < 2 * vstd::arithmetic::power2::pow2(63));
        super::field::lemma_pow2_at_most(order as nat, 63);
    }
    match field_root_of_unity(order as u64) {
        Some(root) => Ok(compute_powers(root, order)),
        None => Err(KzgError::UnsupportedDomainSize(order)),
    }
}

/// Each value times the matching power of `factor`, reduced modulo the
/// field order.
pub open spec fn spec_shifted(vals: Seq<nat>, factor: nat) -> Seq<nat> {
    Seq::new(
        vals.len(),
        |i: int| ((vals[i] * pow(factor as int, i as nat)) % (bls_modulus() as int)) as nat,
    )
}

/// Multiply each value by succeeding powers of `factor`.
pub fn shift_vals(vals: &[BLSFieldElement], factor: BLSFieldElement) -> (r: Result<Vec<BLSFieldElement>, KzgError>)
    requires
        spec_all_wf(vals@),
        factor.wf(),
    ensures
        r matches Ok(shifted) && spec_all_wf(shifted@) && spec_field_values(shifted@) == spec_shifted(
            spec_field_values(vals@),
            factor.value(),
        ),
{
    let mut shifted: Vec<BLSFieldElement> = Vec::new();
    let mut shift = BLSFieldElement::one();
    let mut i: usize = 0;
    proof {
        lemma_small_mod(1, bls_modulus());
        reveal(pow);
    }
    while i < vals.len()
        invariant
            i <= vals@.len(),
            spec_all_wf(vals@),
            factor.wf(),
            shift.wf(),
            shift.value() == pow(factor.value() as int, i as nat) % (bls_modulus() as int),
            shifted@.len() == i,
            spec_all_wf(shifted@),
            forall|j: int| 0 <= j < i ==> #[trigger] shifted@[j].value() == (vals@[j].value() * pow(
                factor.value() as int,
                j as nat,
            )) % (bls_modulus() as int),
        decreases vals@.len() - i,
    {
        let value = field_mul(vals[i], shift);
        let next = field_mul(shift, factor);
        proof {
            let p = bls_modulus() as int;
            let e = pow(factor.value() as int, i as nat);
            lemma_mul_mod_noop_right(vals@[i as int].value() as int, e, p);
            lemma_mul_mod_noop_left(e, factor.value() as int, p);
            assert(pow(factor.value() as int, (i + 1) as nat) == factor.value() * e) by {
                reveal(pow);
            }
            assert(e * factor.value() == factor.value() * e) by (nonlinear_arith);
        }
        shifted.push(value);
        shift = next;
        i = i + 1;
    }
    assert(spec_field_values(shifted@) =~= spec_shifted(spec_field_values(vals@), factor.value()));
    Ok(shifted)
}


/// Coefficient `i` of a polynomial, zero past its end.
pub open spec fn spec_coef(a: Seq<nat>, i: int) -> nat {
    if 0 <= i < a.len() {
        a[i]
    } else {
        0
    }
}

/// The sum of two polynomials, coefficient by coefficient, reduced modulo
/// the field order.
pub open spec fn spec_poly_add(a: Seq<nat>, b: Seq<nat>) -> Seq<nat> {
    let len = if a.len() >= b.len() {
        a.len()
    } else {
        b.len()
    };
    Seq::new(len, |i: int| ((spec_coef(a, i) + spec_coef(b, i)) % bls_modulus()) as nat)
}

/// Add two coefficient-form polynomials.
#[verifier::spinoff_prover]
pub fn add_polynomialcoeff(a: &[BLSFieldElement], b: &[BLSFieldElement]) -> (r: Vec<BLSFieldElement>)
    requires
        spec_all_wf(a@),
        spec_all_wf(b@),
    ensures
        spec_all_wf(r@),
        spec_field_values(r@) == spec_poly_add(spec_field_values(a@), spec_field_values(b@)),
{
    let len = if a.len() >= b.len() {
        a.len()
    } else {
        b.len()
    };
    let ghost av = spec_field_values(a@);
    let ghost bv = spec_field_values(b@);
    let mut out: Vec<BLSFieldElement> = Vec::new();
    while out.len() < len
        invariant
            out@.len() <= len,
            spec_all_wf(out@),
            forall|j: int| 0 <= j < out@.len() ==> #[trigger] out@[j].value() == 0,
        decreases len - out@.len(),
    {
        out.push(BLSFieldElement::zero());
    }
    let mut i: usize = 0;
    while i < a.len()
        invariant
            i <= a@.len() <= len,
            out@.len() == len,
            spec_all_wf(a@),
            spec_all_wf(out@),
            av == spec_field_values(a@),
            forall|j: int| 0 <= j < len ==> #[trigger] out@[j].value() == if j < i {
                spec_coef(av, j)
            } else {
                0
            },
        decreases a@.len() - i,
    {
        let sum = field_add(out[i], a[i]);
        proof {
            lemma_small_mod(a@[i as int].value(), bls_modulus());
        }
        out.set(i, sum);
        i = i + 1;
    }
    let mut i: usize = 0;
    while i < b.len()
        invariant
            i <= b@.len() <= len,
            a@.len() <= len,
            out@.len() == len,
            spec_all_wf(a@),
            spec_all_wf(b@),
            spec_all_wf(out@),
            av == spec_field_values(a@),
            bv == spec_field_values(b@),
            forall|j: int| 0 <= j < len ==> #[trigger] out@[j].value() == if j < i {
                (spec_coef(av, j) + spec_coef(bv, j)) % bls_modulus()
            } else {
                spec_coef(av, j)
            },
        decreases b@.len() - i,
    {
        let sum = field_add(out[i], b[i]);
        out.set(i, sum);
        i = i + 1;
    }
    assert forall|j: int| 0 <= j < len implies #[trigger] out@[j].value() == (spec_coef(av, j) + spec_coef(bv, j))
        % bls_modulus() by {
        if j >= b@.len() {
            if j < a@.len() {
                assert(a@[j].wf());
            }
            lemma_small_mod(spec_coef(av, j), bls_modulus());
        }
    }
    assert(spec_field_values(out@) =~= spec_poly_add(av, bv));
    out
}

/// `sum(a[i] * b[k - i])` over the first `n` coefficients of `a`.
pub open spec fn spec_conv(a: Seq<nat>, b: Seq<nat>, k: int, n: nat) -> nat
    decreases n,
{
    if n == 0 {
        0
    } else {
        spec_conv(a, b, k, (n - 1) as nat) + spec_coef(a, n - 1) * spec_coef(b, k - (n - 1))
    }
}

/// The product of two polynomials, reduced modulo the field order; empty
/// where either factor is.
pub open spec fn spec_poly_mul(a: Seq<nat>, b: Seq<nat>) -> Seq<nat> {
    if a.len() == 0 || b.len() == 0 {
        Seq::empty()
    } else {
        Seq::new((a.len() + b.len() - 1) as nat, |k: int| spec_conv(a, b, k, a.len()) % bls_modulus())
    }
}

/// Multiply two coefficient-form polynomials.
#[verifier::spinoff_prover]
pub fn multiply_polynomialcoeff(a: &[BLSFieldElement], b: &[BLSFieldElement]) -> (r: Vec<BLSFieldElement>)
    requires
        spec_all_wf(a@),
        spec_all_wf(b@),
        a@.len() + b@.len() <= usize::MAX,
    ensures
        spec_all_wf(r@),
        spec_field_values(r@) == spec_poly_mul(spec_field_values(a@), spec_field_values(b@)),
{
    let ghost av = spec_field_values(a@);
    let ghost bv = spec_field_values(b@);
    if a.len() == 0 || b.len() == 0 {
        let r: Vec<BLSFieldElement> = Vec::new();
        assert(spec_field_values(r@) =~= spec_poly_mul(av, bv));
        return r;
    }
    let len = a.len() + b.len() - 1;
    let mut out: Vec<BLSFieldElement> = Vec::new();
    while out.len() < len
        invariant
            out@.len() <= len,
            spec_all_wf(out@),
            forall|j: int| 0 <= j < out@.len() ==> #[trigger] out@[j].value() == 0,
        decreases len - out@.len(),
    {
        out.push(BLSFieldElement::zero());
    }
    let mut i: usize = 0;
    while i < a.len()
        invariant
            i <= a@.len(),
            len == a@.len() + b@.len() - 1,
            b@.len() > 0,
            out@.len() == len,
            spec_all_wf(a@),
            spec_all_wf(b@),
            spec_all_wf(out@),
            av == spec_field_values(a@),
            bv == spec_field_values(b@),
            forall|k: int| 0 <= k < len ==> #[trigger] out@[k].value() == spec_conv(av, bv, k, i as nat)
                % bls_modulus(),
        decreases a@.len() - i,
    {
        let mut j: usize = 0;
        while j < b.len()
            invariant
                i < a@.len(),
                j <= b@.len(),
                len == a@.len() + b@.len() - 1,
                out@.len() == len,
                spec_all_wf(a@),
                spec_all_wf(b@),
                spec_all_wf(out@),
                av == spec_field_values(a@),
                bv == spec_field_values(b@),
                forall|k: int| 0 <= k < len ==> #[trigger] out@[k].value() == (spec_conv(av, bv, k, i as nat) + if i
                    <= k < i + j {
                    av[i as int] * bv[k - i]
                } else {
                    0
                }) % bls_modulus(),
            decreases b@.len() - j,
        {
            let product = field_mul(a[i], b[j]);
            let sum = field_add(out[i + j], product);
            proof {
                let p = bls_modulus() as int;
                let c = spec_conv(av, bv, (i + j) as int, i as nat) as int;
                let t = (av[i as int] * bv[j as int]) as int;
                lemma_add_mod_noop(c, t, p);
            }
            out.set(i + j, sum);
            j = j + 1;
        }
        assert forall|k: int| 0 <= k < len implies #[trigger] out@[k].value() == spec_conv(av, bv, k, (i + 1) as nat)
            % bls_modulus() by {
            assert(spec_conv(av, bv, k, (i + 1) as nat) == spec_conv(av, bv, k, i as nat) + spec_coef(av, i as int)
                * spec_coef(bv, k - i));
            assert(spec_coef(av, i as int) == av[i as int]);
            if i <= k < i + b@.len() {
                assert(spec_coef(bv, k - i) == bv[k - i]);
            } else {
                let zero = spec_coef(bv, k - i);
                assert(zero == 0);
                assert(spec_coef(av, i as int) * zero == 0) by (nonlinear_arith)
                    requires
                        zero == 0,
                ;
            }
        }
        i = i + 1;
    }
    assert(spec_field_values(out@) =~= spec_poly_mul(av, bv));
    out
}

/// The value of a polynomial at `z`, before reduction.
pub open spec fn spec_poly_eval(a: Seq<nat>, z: nat) -> nat
    decreases a.len(),
{
    if a.len() == 0 {
        0
    } else {
        a[0] + z * spec_poly_eval(a.drop_first(), z)
    }
}

/// Evaluate a coefficient-form polynomial at `z`.
#[verifier::spinoff_prover]
pub fn evaluate_polynomialcoeff(polynomial_coeff: &[BLSFieldElement], z: BLSFieldElement) -> (r: BLSFieldElement)
    requires
        spec_all_wf(polynomial_coeff@),
        z.wf(),
    ensures
        r.wf(),
        r.value() == spec_poly_eval(spec_field_values(polynomial_coeff@), z.value()) % bls_modulus(),
{
    let ghost coeffs = spec_field_values(polynomial_coeff@);
    let mut y = BLSFieldElement::zero();
    let mut i = polynomial_coeff.len();
    proof {
        lemma_small_mod(0, bls_modulus());
        assert(coeffs.subrange(i as int, coeffs.len() as int) =~= Seq::<nat>::empty());
    }
    while i > 0
        invariant
            i <= polynomial_coeff@.len(),
            spec_all_wf(polynomial_coeff@),
            z.wf(),
            y.wf(),
            coeffs == spec_field_values(polynomial_coeff@),
            y.value() == spec_poly_eval(coeffs.subrange(i as int, coeffs.len() as int), z.value()) % bls_modulus(),
        decreases i,
    {
        let scaled = field_mul(y, z);
        let next = field_add(scaled, polynomial_coeff[i - 1]);
        proof {
            let p = bls_modulus() as int;
            let tail = coeffs.subrange(i as int, coeffs.len() as int);
            let longer = coeffs.subrange(i - 1, coeffs.len() as int);
            assert(longer.drop_first() =~= tail);
            let e = spec_poly_eval(tail, z.value()) as int;
            let c = coeffs[i - 1] as int;
            lemma_mul_mod_noop_left(e, z.value() as int, p);
            lemma_small_mod(coeffs[i - 1], bls_modulus());
            lemma_add_mod_noop(e * z.value(), c, p);
            assert(e * z.value() == z.value() * e) by (nonlinear_arith);
        }
        y = next;
        i = i - 1;
    }
    proof {
        assert(coeffs.subrange(0, coeffs.len() as int) =~= coeffs);
    }
    y
}

/// The polynomial vanishing exactly on `xs`: the product of `X - x` over
/// them, reduced modulo the field order.
pub open spec fn spec_vanishing(xs: Seq<nat>) -> Seq<nat>
    decreases xs.len(),
{
    if xs.len() == 0 {
        seq![1nat]
    } else {
        spec_poly_mul(
            spec_vanishing(xs.drop_last()),
            seq![((0 - xs.last()) % (bls_modulus() as int)) as nat, 1nat],
        )
    }
}

/// One more point multiplies the vanishing polynomial by `X - x`.
proof fn lemma_vanishing_step(xs: Seq<nat>, i: int)
    requires
        0 <= i < xs.len(),
    ensures
        spec_vanishing(xs.subrange(0, i + 1)) == spec_poly_mul(
            spec_vanishing(xs.subrange(0, i)),
            seq![((0 - xs[i]) % (bls_modulus() as int)) as nat, 1nat],
        ),
{
    assert(xs.subrange(0, i + 1).drop_last() =~= xs.subrange(0, i));
}

/// Compute a coefficient-form vanishing polynomial over `xs`.
#[verifier::spinoff_prover]
pub fn vanishing_polynomialcoeff(xs: &[BLSFieldElement]) -> (r: Vec<BLSFieldElement>)
    requires
        spec_all_wf(xs@),
        xs@.len() + 2 <= usize::MAX,
    ensures
        spec_all_wf(r@),
        spec_field_values(r@) == spec_vanishing(spec_field_values(xs@)),
{
    let ghost xv = spec_field_values(xs@);
    let mut out: Vec<BLSFieldElement> = Vec::new();
    out.push(BLSFieldElement::one());
    proof {
        assert(xv.subrange(0, 0) =~= Seq::<nat>::empty());
        assert(spec_field_values(out@) =~= seq![1nat]);
    }
    let mut i: usize = 0;
    while i < xs.len()
        invariant
            i <= xs@.len(),
            xs@.len() + 2 <= usize::MAX,
            spec_all_wf(xs@),
            spec_all_wf(out@),
            out@.len() == i + 1,
            xv == spec_field_values(xs@),
            spec_field_values(out@) == spec_vanishing(xv.subrange(0, i as int)),
        decreases xs@.len() - i,
    {
        let factor = vec![field_neg(xs[i]), BLSFieldElement::one()];
        let ghost linear = seq![((0 - xv[i as int]) % (bls_modulus() as int)) as nat, 1nat];
        proof {
            lemma_small_mod(1, bls_modulus());
            assert(spec_field_values(factor@) =~= linear);
            lemma_vanishing_step(xv, i as int);
        }
        let next = multiply_polynomialcoeff(out.as_slice(), factor.as_slice());
        proof {
            assert(spec_field_values(next@) == spec_poly_mul(spec_vanishing(xv.subrange(0, i as int)), linear));
            assert(spec_field_values(next@).len() == next@.len());
        }
        out = next;
        i = i + 1;
    }
    proof {
        assert(xv.subrange(0, xs@.len() as int) =~= xv);
    }
    out
}


/// The items at even positions.
pub open spec fn spec_evens<T>(s: Seq<T>) -> Seq<T> {
    Seq::new(((s.len() + 1) / 2) as nat, |i: int| s[2 * i])
}

/// The items at odd positions.
pub open spec fn spec_odds<T>(s: Seq<T>) -> Seq<T> {
    Seq::new(s.len() / 2, |i: int| s[2 * i + 1])
}

/// The radix-2 butterfly: transform the even and the odd values over the
/// even roots, then combine output `i` of each half with root `i` into
/// outputs `i` and `i` plus the even half's length, reduced modulo the field
/// order.
pub open spec fn spec_fft(vals: Seq<nat>, roots: Seq<nat>) -> Seq<nat>
    decreases vals.len(),
{
    if vals.len() <= 1 {
        vals
    } else {
        let left = spec_fft(spec_evens(vals), spec_evens(roots));
        let right = spec_fft(spec_odds(vals), spec_evens(roots));
        let half = left.len();
        let p = bls_modulus() as int;
        Seq::new(
            vals.len(),
            |i: int|
                if i < right.len() {
                    ((left[i] as int + (right[i] as int * roots[i] as int) % p) % p) as nat
                } else if half <= i < half + right.len() {
                    ((left[i - half] as int - (right[i - half] as int * roots[i - half] as int) % p) % p) as nat
                } else {
                    0nat
                },
        )
    }
}

/// The transform keeps the length.
pub proof fn lemma_fft_len(vals: Seq<nat>, roots: Seq<nat>)
    ensures
        spec_fft(vals, roots).len() == vals.len(),
    decreases vals.len(),
{
    if vals.len() > 1 {
        lemma_fft_len(spec_evens(vals), spec_evens(roots));
        lemma_fft_len(spec_odds(vals), spec_evens(roots));
    }
}

/// The items of `s` at positions `start, start + 2, ...`.
fn every_other(s: &[BLSFieldElement], start: usize) -> (r: Vec<BLSFieldElement>)
    requires
        start <= 1,
    ensures
        start == 0 ==> r@ == spec_evens(s@),
        start == 1 ==> r@ == spec_odds(s@),
{
    let count = if start == 0 {
        s.len() - s.len() / 2
    } else {
        s.len() / 2
    };
    let len = s.len();
    let mut out: Vec<BLSFieldElement> = Vec::new();
    let mut j: usize = 0;
    while j < count
        invariant
            start <= 1,
            len == s@.len(),
            count as int == if start == 0 {
                (s@.len() - s@.len() / 2) as int
            } else {
                (s@.len() / 2) as int
            },
            j <= count,
            out@.len() == j,
            forall|t: int| 0 <= t < j ==> #[trigger] out@[t] == s@[2 * t + start],
        decreases count - j,
    {
        assert(2 * j + start < s@.len());
        out.push(s[2 * j + start]);
        j = j + 1;
    }
    assert(start == 0 ==> out@ =~= spec_evens(s@));
    assert(start == 1 ==> out@ =~= spec_odds(s@));
    out
}

/// Recursive radix-2 FFT over field values.
#[verifier::spinoff_prover]
pub fn fft_field_impl(vals: &[BLSFieldElement], roots_of_unity: &[BLSFieldElement]) -> (r: Vec<BLSFieldElement>)
    requires
        vals@.len() >= 1,
        roots_of_unity@.len() >= vals@.len(),
        spec_all_wf(vals@),
        spec_all_wf(roots_of_unity@),
    ensures
        spec_all_wf(r@),
        spec_field_values(r@) == spec_fft(spec_field_values(vals@), spec_field_values(roots_of_unity@)),
    decreases vals@.len(),
{
    let ghost vv = spec_field_values(vals@);
    let ghost rv = spec_field_values(roots_of_unity@);
    if vals.len() == 1 {
        let r = vec![vals[0]];
        assert(spec_field_values(r@) =~= vv);
        return r;
    }
    let even_vals = every_other(vals, 0);
    let odd_vals = every_other(vals, 1);
    let even_roots = every_other(roots_of_unity, 0);
    proof {
        assert(spec_field_values(even_vals@) =~= spec_evens(vv));
        assert(spec_field_values(odd_vals@) =~= spec_odds(vv));
        assert(spec_field_values(even_roots@) =~= spec_evens(rv));
    }
    let left = fft_field_impl(even_vals.as_slice(), even_roots.as_slice());
    let right = fft_field_impl(odd_vals.as_slice(), even_roots.as_slice());
    let ghost lv = spec_fft(spec_evens(vv), spec_evens(rv));
    let ghost rtv = spec_fft(spec_odds(vv), spec_evens(rv));
    proof {
        lemma_fft_len(spec_evens(vv), spec_evens(rv));
        lemma_fft_len(spec_odds(vv), spec_evens(rv));
        assert(left@.len() == lv.len());
        assert(right@.len() == rtv.len());
    }
    let n = vals.len();
    let half = left.len();
    let mut out: Vec<BLSFieldElement> = Vec::new();
    while out.len() < n
        invariant
            out@.len() <= n,
            spec_all_wf(out@),
            forall|j: int| 0 <= j < out@.len() ==> #[trigger] out@[j].value() == 0,
        decreases n - out@.len(),
    {
        out.push(BLSFieldElement::zero());
    }
    let ghost expected = spec_fft(vv, rv);
    let mut i: usize = 0;
    while i < right.len()
        invariant
            n == vals@.len(),
            n > 1,
            half == left@.len(),
            half == n - n / 2,
            right@.len() == n / 2,
            i <= right@.len(),
            out@.len() == n,
            roots_of_unity@.len() >= n,
            spec_all_wf(out@),
            spec_all_wf(left@),
            spec_all_wf(right@),
            spec_all_wf(roots_of_unity@),
            spec_field_values(left@) == lv,
            spec_field_values(right@) == rtv,
            lv == spec_fft(spec_evens(vv), spec_evens(rv)),
            rtv == spec_fft(spec_odds(vv), spec_evens(rv)),
            lv.len() == half,
            rtv.len() == n / 2,
            rv == spec_field_values(roots_of_unity@),
            vv == spec_field_values(vals@),
            expected == spec_fft(vv, rv),
            expected.len() == n,
            forall|j: int| 0 <= j < n ==> #[trigger] out@[j].value() == if j < i || half <= j < half + i {
                expected[j]
            } else {
                0
            },
        decreases right@.len() - i,
    {
        let y_times_root = field_mul(right[i], roots_of_unity[i]);
        let x = left[i];
        let sum = field_add(x, y_times_root);
        let difference = field_sub(x, y_times_root);
        out.set(i, sum);
        out.set(i + half, difference);
        proof {
            let p = bls_modulus() as int;
            assert(lv[i as int] == left@[i as int].value());
            assert(rtv[i as int] == right@[i as int].value());
            assert(rv[i as int] == roots_of_unity@[i as int].value());
            assert(vv.len() == n);
            assert(expected[i as int] == ((lv[i as int] as int + (rtv[i as int] as int * rv[i as int] as int) % p)
                % p) as nat);
            assert(expected[i + half] == ((lv[i as int] as int - (rtv[i as int] as int * rv[i as int] as int) % p)
                % p) as nat);
        }
        i = i + 1;
    }
    proof {
        assert forall|j: int| 0 <= j < n implies #[trigger] out@[j].value() == expected[j] by {
        }
        assert(spec_field_values(out@) =~= expected);
    }
    out
}


/// The roots of the inverse transform: the first root, then the others in
/// reverse order.
pub open spec fn spec_inverse_roots(roots: Seq<nat>) -> Seq<nat> {
    Seq::new(roots.len(), |i: int| if i == 0 { roots[0] } else { roots[roots.len() - i] })
}

/// `c` is the inverse of `x` modulo the field order.
pub open spec fn spec_is_inverse(x: nat, c: nat) -> bool {
    c < bls_modulus() && (x * c) % bls_modulus() == 1
}

/// The inverse transform: the transform over the inverse roots, each
/// output times `c`, the inverse of the length.
pub open spec fn spec_inverse_fft(vals: Seq<nat>, roots: Seq<nat>, c: nat) -> Seq<nat> {
    Seq::new(
        vals.len(),
        |i: int| ((spec_fft(vals, spec_inverse_roots(roots))[i] * c) % bls_modulus()) as nat,
    )
}

/// Compute an FFT or inverse FFT over the supplied root domain.
#[verifier::spinoff_prover]
pub fn fft_field(vals: &[BLSFieldElement], roots_of_unity: &[BLSFieldElement], inv: bool) -> (r: Result<
    Vec<BLSFieldElement>,
    KzgError,
>)
    requires
        spec_all_wf(vals@),
        spec_all_wf(roots_of_unity@),
    ensures
        match r {
            Ok(out) => {
                &&& vals@.len() == roots_of_unity@.len()
                &&& spec_is_pow2(vals@.len())
                &&& spec_all_wf(out@)
                &&& if inv {
                    &&& spec_is_inverse(vals@.len(), spec_field_inverse(vals@.len()))
                    &&& spec_field_values(out@) == spec_inverse_fft(
                        spec_field_values(vals@),
                        spec_field_values(roots_of_unity@),
                        spec_field_inverse(vals@.len()),
                    )
                } else {
                    spec_field_values(out@) == spec_fft(spec_field_values(vals@), spec_field_values(roots_of_unity@))
                }
            },
            Err(e) => if vals@.len() != roots_of_unity@.len() {
                e == (KzgError::LengthMismatch {
                    context: "FFT domain",
                    expected: vals@.len() as usize,
                    got: roots_of_unity@.len() as usize,
                })
            } else {
                !spec_is_pow2(vals@.len()) && e == KzgError::UnsupportedDomainSize(vals@.len() as usize)
            },
        },
{
    if vals.len() != roots_of_unity.len() {
        return Err(
            KzgError::LengthMismatch { context: "FFT domain", expected: vals.len(), got: roots_of_unity.len() },
        );
    }
    if vals.len() == 0 || !is_power_of_two(vals.len()) {
        return Err(KzgError::UnsupportedDomainSize(vals.len()));
    }
    let ghost vv = spec_field_values(vals@);
    let ghost rv = spec_field_values(roots_of_unity@);
    if inv {
        let n = roots_of_unity.len();
        let mut inverse_roots: Vec<BLSFieldElement> = Vec::new();
        inverse_roots.push(roots_of_unity[0]);
        let mut k: usize = 1;
        while k < n
            invariant
                1 <= k <= n,
                n == roots_of_unity@.len(),
                inverse_roots@.len() == k,
                inverse_roots@[0] == roots_of_unity@[0],
                forall|t: int| 1 <= t < k ==> #[trigger] inverse_roots@[t] == roots_of_unity@[n - t],
            decreases n - k,
        {
            inverse_roots.push(roots_of_unity[n - k]);
            k = k + 1;
        }
        proof {
            assert(spec_field_values(inverse_roots@) =~= spec_inverse_roots(rv));
            assert(spec_all_wf(inverse_roots@));
        }
        let len_element = BLSFieldElement::from_u64(vals.len() as u64);
        proof {
            assert(len_element.wf());
        }
        let inv_len = match field_inverse(len_element) {
            Some(value) => value,
            None => {
                return Err(KzgError::DivisionByZero);
            },
        };
        let transformed = fft_field_impl(vals, inverse_roots.as_slice());
        let ghost ft = spec_fft(vv, spec_inverse_roots(rv));
        proof {
            lemma_fft_len(vv, spec_inverse_roots(rv));
        }
        let mut out: Vec<BLSFieldElement> = Vec::new();
        let mut i: usize = 0;
        while i < transformed.len()
            invariant
                i <= transformed@.len(),
                transformed@.len() == vals@.len(),
                spec_all_wf(transformed@),
                spec_field_values(transformed@) == ft,
                inv_len.wf(),
                out@.len() == i,
                spec_all_wf(out@),
                forall|j: int| 0 <= j < i ==> #[trigger] out@[j].value() == (ft[j] * inv_len.value()) % bls_modulus(),
            decreases transformed@.len() - i,
        {
            let scaled = field_mul(transformed[i], inv_len);
            proof {
                assert(ft[i as int] == transformed@[i as int].value());
            }
            out.push(scaled);
            i = i + 1;
        }
        proof {
            assert(spec_field_values(out@) =~= spec_inverse_fft(vv, rv, inv_len.value()));
            assert(spec_is_inverse(vals@.len(), inv_len.value()));
        }
        Ok(out)
    } else {
        Ok(fft_field_impl(vals, roots_of_unity))
    }
}


/// Compute an FFT or inverse FFT over the coset of the root domain shifted
/// by the field's multiplicative generator.
pub fn coset_fft_field(vals: &[BLSFieldElement], roots_of_unity: &[BLSFieldElement], inv: bool) -> (r: Result<
    Vec<BLSFieldElement>,
    KzgError,
>)
    requires
        spec_all_wf(vals@),
        spec_all_wf(roots_of_unity@),
    ensures
        match r {
            Ok(out) => {
                &&& vals@.len() == roots_of_unity@.len()
                &&& spec_is_pow2(vals@.len())
                &&& spec_all_wf(out@)
                &&& if inv {
                    &&& spec_is_inverse(vals@.len(), spec_field_inverse(vals@.len()))
                    &&& spec_is_inverse(
                        PRIMITIVE_ROOT_OF_UNITY as nat,
                        spec_field_inverse(PRIMITIVE_ROOT_OF_UNITY as nat),
                    )
                    &&& spec_field_values(out@) == spec_shifted(
                        spec_inverse_fft(
                            spec_field_values(vals@),
                            spec_field_values(roots_of_unity@),
                            spec_field_inverse(vals@.len()),
                        ),
                        spec_field_inverse(PRIMITIVE_ROOT_OF_UNITY as nat),
                    )
                } else {
                    spec_field_values(out@) == spec_fft(
                        spec_shifted(spec_field_values(vals@), PRIMITIVE_ROOT_OF_UNITY as nat),
                        spec_field_values(roots_of_unity@),
                    )
                }
            },
            Err(e) => if vals@.len() != roots_of_unity@.len() {
                e == (KzgError::LengthMismatch {
                    context: "FFT domain",
                    expected: vals@.len() as usize,
                    got: roots_of_unity@.len() as usize,
                })
            } else {
                !spec_is_pow2(vals@.len()) && e == KzgError::UnsupportedDomainSize(vals@.len() as usize)
            },
        },
{
    let shift_factor = BLSFieldElement::from_u64(PRIMITIVE_ROOT_OF_UNITY);
    let ghost vv = spec_field_values(vals@);
    let ghost rv = spec_field_values(roots_of_unity@);
    if inv {
        let transformed = match fft_field(vals, roots_of_unity, true) {
            Ok(out) => out,
            Err(e) => {
                return Err(e);
            },
        };
        let inverse = match field_inverse(shift_factor) {
            Some(value) => value,
            None => {
                return Err(KzgError::DivisionByZero);
            },
        };
        let r = shift_vals(transformed.as_slice(), inverse);
        proof {
            assert(spec_is_inverse(PRIMITIVE_ROOT_OF_UNITY as nat, inverse.value()));
        }
        r
    } else {
        let shifted = match shift_vals(vals, shift_factor) {
            Ok(out) => out,
            Err(e) => {
                return Err(e);
            },
        };
        proof {
            assert(spec_field_values(shifted@).len() == vv.len());
        }
        fft_field(shifted.as_slice(), roots_of_unity, false)
    }
}


/// A convolution over coefficients that are all zero is zero.
proof fn lemma_conv_of_zeros(q: Seq<nat>, b: Seq<nat>, k: int, n: nat)
    requires
        forall|j: int| 0 <= j < n ==> #[trigger] spec_coef(q, j) == 0,
    ensures
        spec_conv(q, b, k, n) == 0,
    decreases n,
{
    if n > 0 {
        lemma_conv_of_zeros(q, b, k, (n - 1) as nat);
        let zero = spec_coef(q, n - 1);
        assert(zero * spec_coef(b, k - (n - 1)) == 0) by (nonlinear_arith)
            requires
                zero == 0,
        ;
    }
}

/// Setting a zero coefficient `idx` of the first factor to `v` adds `v`
/// times the matching coefficient of the second.
proof fn lemma_conv_set(q: Seq<nat>, b: Seq<nat>, k: int, n: nat, idx: int, v: nat)
    requires
        0 <= idx < q.len(),
        q[idx] == 0,
        n <= q.len(),
    ensures
        spec_conv(q.update(idx, v), b, k, n) == spec_conv(q, b, k, n) + if idx < n {
            v * spec_coef(b, k - idx)
        } else {
            0
        },
    decreases n,
{
    if n > 0 {
        lemma_conv_set(q, b, k, (n - 1) as nat, idx, v);
        if n - 1 == idx {
            let zero = spec_coef(q, idx);
            assert(zero * spec_coef(b, k - idx) == 0) by (nonlinear_arith)
                requires
                    zero == 0,
            ;
        }
    }
}

/// Taking `t` off `r` modulo `p` cancels adding it to `c`.
proof fn lemma_sub_cancels(c: int, t: int, r: int, p: int)
    requires
        p > 0,
    ensures
        ((c + t) + (r - t % p) % p) % p == (c + r) % p,
{
    lemma_add_mod_noop_right(c + t, r - t % p, p);
    lemma_fundamental_div_mod(t, p);
    assert(c + t + (r - t % p) == p * (t / p) + (c + r));
    lemma_mod_multiples_vanish(t / p, c + r, p);
}

/// The leading coefficient times the quotient digit it chose is the
/// remainder coefficient it was chosen for.
proof fn lemma_digit_cancels(lead: nat, inv: nat, rem: nat, p: nat)
    requires
        p > 0,
        rem < p,
        (lead * inv) % p == 1,
    ensures
        ((rem as int - ((lead * ((rem * inv) % p)) % p) as int) % (p as int)) == 0,
{
    let pi = p as int;
    let l = lead as int;
    let x = (rem * inv) as int;
    let r = rem as int;
    let li = (lead * inv) as int;
    lemma_mul_mod_noop_right(l, x, pi);
    assert(l * (x % pi) % pi == (l * x) % pi);
    assert(l * x == r * li) by (nonlinear_arith)
        requires
            x == rem * inv,
            l == lead,
            r == rem,
            li == lead * inv,
    ;
    lemma_mul_mod_noop_right(r, li, pi);
    assert(li % pi == 1);
    assert(r * (li % pi) == r);
    lemma_small_mod(rem, p);
    assert((l * (x % pi)) % pi == r);
    assert(((rem * inv) % p) as int == x % pi);
    assert(((lead * ((rem * inv) % p)) % p) as int == (l * (x % pi)) % pi);
    assert(rem as int - ((lead * ((rem * inv) % p)) % p) as int == 0);
    lemma_small_mod(0, p);
}

/// `q` and `r` divide `a` by `b`: `a = q * b + r` modulo the field order,
/// with `r` of lower degree than `b`.
pub open spec fn spec_divides_with_remainder(a: Seq<nat>, b: Seq<nat>, q: Seq<nat>, r: Seq<nat>) -> bool {
    &&& r.len() == a.len()
    &&& forall|k: int| b.len() - 1 <= k < a.len() ==> #[trigger] r[k] == 0
    &&& forall|k: int|
        0 <= k < a.len() ==> (spec_conv(q, b, k, q.len()) + r[k]) % bls_modulus() == #[trigger] a[k]
}

/// Divide coefficient-form polynomial `a` by `b`: the quotient of long
/// division, empty where `a` has fewer coefficients than `b`.
#[verifier::spinoff_prover]
pub fn divide_polynomialcoeff(a: &[BLSFieldElement], b: &[BLSFieldElement]) -> (r: Result<
    Vec<BLSFieldElement>,
    KzgError,
>)
    requires
        spec_all_wf(a@),
        spec_all_wf(b@),
    ensures
        match r {
            Ok(q) => {
                &&& b@.len() > 0
                &&& b@.last().value() != 0
                &&& spec_all_wf(q@)
                &&& q@.len() == if a@.len() < b@.len() {
                    0
                } else {
                    a@.len() - b@.len() + 1
                }
                &&& exists|rem: Seq<nat>|
                    spec_divides_with_remainder(
                        spec_field_values(a@),
                        spec_field_values(b@),
                        spec_field_values(q@),
                        rem,
                    )
            },
            Err(e) => if b@.len() == 0 {
                e == KzgError::EmptyDivisor
            } else {
                b@.last().value() == 0 && e == KzgError::DivisionByZero
            },
        },
{
    let ghost av = spec_field_values(a@);
    let ghost bv = spec_field_values(b@);
    let ghost p = bls_modulus();
    if b.len() == 0 {
        return Err(KzgError::EmptyDivisor);
    }
    let leading_inverse = match field_inverse(b[b.len() - 1]) {
        Some(value) => value,
        None => {
            return Err(KzgError::DivisionByZero);
        },
    };
    if a.len() < b.len() {
        let q: Vec<BLSFieldElement> = Vec::new();
        proof {
            assert forall|k: int| 0 <= k < av.len() implies (spec_conv(spec_field_values(q@), bv, k, 0) + av[k])
                % bls_modulus() == #[trigger] av[k] by {
                assert(a@[k].wf());
                lemma_small_mod(av[k], bls_modulus());
            }
            assert(spec_divides_with_remainder(av, bv, spec_field_values(q@), av));
        }
        return Ok(q);
    }
    let blen = b.len();
    let alen = a.len();
    let qlen = alen - blen + 1;
    let mut remainder: Vec<BLSFieldElement> = Vec::new();
    let mut k: usize = 0;
    while k < alen
        invariant
            k <= alen,
            alen == a@.len(),
            remainder@.len() == k,
            forall|t: int| 0 <= t < k ==> #[trigger] remainder@[t] == a@[t],
        decreases alen - k,
    {
        remainder.push(a[k]);
        k = k + 1;
    }
    let mut quotient: Vec<BLSFieldElement> = Vec::new();
    while quotient.len() < qlen
        invariant
            quotient@.len() <= qlen,
            spec_all_wf(quotient@),
            forall|j: int| 0 <= j < quotient@.len() ==> #[trigger] quotient@[j].value() == 0,
        decreases qlen - quotient@.len(),
    {
        quotient.push(BLSFieldElement::zero());
    }
    proof {
        assert(remainder@ =~= a@);
        assert forall|k: int| 0 <= k < alen implies (spec_conv(spec_field_values(quotient@), bv, k, qlen as nat)
            + spec_field_values(remainder@)[k]) % p == #[trigger] av[k] by {
            assert forall|j: int| 0 <= j < qlen implies #[trigger] spec_coef(spec_field_values(quotient@), j) == 0 by {
                assert(quotient@[j].value() == 0);
            }
            lemma_conv_of_zeros(spec_field_values(quotient@), bv, k, qlen as nat);
            assert(a@[k].wf());
            lemma_small_mod(av[k], p);
        }
    }
    let mut qi = qlen;
    while qi > 0
        invariant
            qi <= qlen,
            qlen == alen - blen + 1,
            alen == a@.len(),
            blen == b@.len(),
            blen >= 1,
            alen >= blen,
            p == bls_modulus(),
            av == spec_field_values(a@),
            bv == spec_field_values(b@),
            spec_all_wf(b@),
            leading_inverse.wf(),
            (bv[blen - 1] * leading_inverse.value()) % p == 1,
            quotient@.len() == qlen,
            remainder@.len() == alen,
            spec_all_wf(quotient@),
            spec_all_wf(remainder@),
            forall|j: int| 0 <= j < qi ==> #[trigger] quotient@[j].value() == 0,
            forall|k: int| qi + blen - 1 <= k < alen ==> #[trigger] remainder@[k].value() == 0,
            forall|k: int|
                0 <= k < alen ==> (spec_conv(spec_field_values(quotient@), bv, k, qlen as nat)
                    + spec_field_values(remainder@)[k]) % p == #[trigger] av[k],
        decreases qi,
    {
        qi = qi - 1;
        let ri = qi + blen - 1;
        let digit = field_mul(remainder[ri], leading_inverse);
        let ghost q_before = spec_field_values(quotient@);
        let ghost rem_before = spec_field_values(remainder@);
        quotient.set(qi, digit);
        proof {
            assert(spec_field_values(quotient@) =~= q_before.update(qi as int, digit.value()));
        }
        let mut di: usize = 0;
        while di < blen
            invariant
                di <= blen,
                qi < qlen,
                qlen == alen - blen + 1,
                alen == a@.len(),
                blen == b@.len(),
                p == bls_modulus(),
                bv == spec_field_values(b@),
                spec_all_wf(b@),
                digit.wf(),
                remainder@.len() == alen,
                spec_all_wf(remainder@),
                rem_before.len() == alen,
                forall|k: int| 0 <= k < alen ==> #[trigger] remainder@[k].value() == if qi <= k < qi + di {
                    ((rem_before[k] - (bv[k - qi] * digit.value()) % p) % (p as int)) as nat
                } else {
                    rem_before[k]
                },
            decreases blen - di,
        {
            let t = field_mul(b[di], digit);
            let updated = field_sub(remainder[qi + di], t);
            remainder.set(qi + di, updated);
            di = di + 1;
        }
        proof {
            let qv = spec_field_values(quotient@);
            let rv = spec_field_values(remainder@);
            assert forall|k: int| 0 <= k < alen implies (spec_conv(qv, bv, k, qlen as nat) + #[trigger] rv[k]) % p
                == av[k] by {
                lemma_conv_set(q_before, bv, k, qlen as nat, qi as int, digit.value());
                assert(q_before[qi as int] == 0);
                let c = spec_conv(q_before, bv, k, qlen as nat) as int;
                if qi <= k < qi + blen {
                    let t = (digit.value() * bv[k - qi]) as int;
                    assert(bv[k - qi] * digit.value() == digit.value() * bv[k - qi]);
                    assert(spec_coef(bv, k - qi) == bv[k - qi]);
                    lemma_sub_cancels(c, t, rem_before[k] as int, p as int);
                } else {
                    assert(spec_coef(bv, k - qi) == 0);
                    let zero = spec_coef(bv, k - qi);
                    assert(digit.value() * zero == 0) by (nonlinear_arith)
                        requires
                            zero == 0,
                    ;
                }
            }
            assert(remainder@[ri as int].value() == 0) by {
                assert(digit.value() == (rem_before[ri as int] * leading_inverse.value()) % p);
                assert(remainder@[ri as int].wf() || true);
                lemma_digit_cancels(bv[blen - 1], leading_inverse.value(), rem_before[ri as int], p);
            }
        }
    }
    proof {
        let rem = spec_field_values(remainder@);
        assert forall|k: int| blen - 1 <= k < alen implies #[trigger] rem[k] == 0 by {
            assert(remainder@[k].value() == 0);
        }
        assert(spec_divides_with_remainder(av, bv, spec_field_values(quotient@), rem));
    }
    Ok(quotient)
}


/// A convolution with a two-coefficient factor, taken at the top
/// coefficient, has only its last term.
proof fn lemma_conv_top(a: Seq<nat>, b: Seq<nat>, n: nat)
    requires
        b.len() == 2,
        n <= a.len(),
        a.len() >= 1,
    ensures
        spec_conv(a, b, a.len() as int, n) == if n == a.len() {
            a[a.len() - 1] * b[1]
        } else {
            0
        },
    decreases n,
{
    if n > 0 {
        lemma_conv_top(a, b, (n - 1) as nat);
        let k = a.len() as int;
        if n < a.len() {
            let zero = spec_coef(b, k - (n - 1));
            assert(zero == 0);
            assert(spec_coef(a, n - 1) * zero == 0) by (nonlinear_arith)
                requires
                    zero == 0,
            ;
        } else {
            assert(spec_coef(b, k - (n - 1)) == b[1]);
        }
    }
}

/// The vanishing polynomial of `n` points has `n + 1` coefficients, the
/// last of them one.
pub proof fn lemma_vanishing_monic(xs: Seq<nat>)
    ensures
        spec_vanishing(xs).len() == xs.len() + 1,
        spec_vanishing(xs).last() == 1,
    decreases xs.len(),
{
    if xs.len() > 0 {
        let prev = spec_vanishing(xs.drop_last());
        lemma_vanishing_monic(xs.drop_last());
        let linear = seq![((0 - xs.last()) % (bls_modulus() as int)) as nat, 1nat];
        lemma_conv_top(prev, linear, prev.len());
        assert(prev[prev.len() - 1] * 1 == 1);
        lemma_small_mod(1, bls_modulus());
    }
}


/// The points among the first `m` other than point `i`, in order.
pub open spec fn spec_skip(xs: Seq<nat>, i: int, m: nat) -> Seq<nat>
    decreases m,
{
    if m == 0 {
        Seq::empty()
    } else if m - 1 == i {
        spec_skip(xs, i, (m - 1) as nat)
    } else {
        spec_skip(xs, i, (m - 1) as nat).push(xs[m - 1])
    }
}

/// `prod(x_i - x_j)` over the first `m` points `j` other than `i`, reduced
/// modulo the field order.
pub open spec fn spec_denominator(xs: Seq<nat>, i: int, m: nat) -> nat
    decreases m,
{
    if m == 0 {
        1
    } else if m - 1 == i {
        spec_denominator(xs, i, (m - 1) as nat)
    } else {
        (spec_denominator(xs, i, (m - 1) as nat) * (((xs[i] - xs[m - 1]) % (bls_modulus() as int)) as nat))
            % bls_modulus()
    }
}

/// Coefficient `k` of the interpolating polynomial summed over the first
/// `t` points: each point's Lagrange basis polynomial, the product of
/// `X - x_j` over the other points, scaled by its value over the product of
/// `x_i - x_j`.
pub open spec fn spec_lagrange_coef(xs: Seq<nat>, ys: Seq<nat>, t: nat, k: int) -> nat
    decreases t,
{
    if t == 0 {
        0
    } else {
        let i = t - 1;
        let scale = (ys[i] * spec_field_inverse(spec_denominator(xs, i, xs.len()))) % bls_modulus();
        (spec_lagrange_coef(xs, ys, (t - 1) as nat, k) + (spec_coef(
            spec_vanishing(spec_skip(xs, i, xs.len())),
            k,
        ) * scale) % bls_modulus()) % bls_modulus()
    }
}

/// The first point whose denominator is zero, that is, a point that occurs
/// twice, is `i`.
pub open spec fn spec_first_duplicate(xs: Seq<nat>, i: int) -> bool {
    &&& 0 <= i < xs.len()
    &&& spec_denominator(xs, i, xs.len()) == 0
    &&& forall|j: int| 0 <= j < i ==> #[trigger] spec_denominator(xs, j, xs.len()) != 0
}

/// Skipping one of `m` points leaves `m - 1` of them, else `m`.
proof fn lemma_skip_len(xs: Seq<nat>, i: int, m: nat)
    ensures
        spec_skip(xs, i, m).len() == if 0 <= i < m {
            m - 1
        } else {
            m as int
        },
    decreases m,
{
    if m > 0 {
        lemma_skip_len(xs, i, (m - 1) as nat);
    }
}

/// Interpolate a polynomial in coefficient form from points and evaluations.
#[verifier::spinoff_prover]
#[verifier::loop_isolation(false)]
pub fn interpolate_polynomialcoeff(xs: &[BLSFieldElement], ys: &[BLSFieldElement]) -> (r: Result<
    Vec<BLSFieldElement>,
    KzgError,
>)
    requires
        spec_all_wf(xs@),
        spec_all_wf(ys@),
        xs@.len() + 2 <= usize::MAX,
    ensures
        match r {
            Ok(out) => {
                &&& xs@.len() == ys@.len()
                &&& forall|i: int| 0 <= i < xs@.len() ==> #[trigger] spec_denominator(spec_field_values(xs@), i, xs@.len()) != 0
                &&& spec_all_wf(out@)
                &&& out@.len() == xs@.len()
                &&& forall|k: int|
                    0 <= k < xs@.len() ==> (#[trigger] out@[k]).value() == spec_lagrange_coef(
                        spec_field_values(xs@),
                        spec_field_values(ys@),
                        xs@.len(),
                        k,
                    )
            },
            Err(e) => if xs@.len() != ys@.len() {
                e == (KzgError::LengthMismatch {
                    context: "interpolation",
                    expected: xs@.len() as usize,
                    got: ys@.len() as usize,
                })
            } else {
                e == KzgError::DuplicateInterpolationPoint && exists|i: int|
                    #[trigger] spec_first_duplicate(spec_field_values(xs@), i)
            },
        },
{
    if xs.len() != ys.len() {
        return Err(KzgError::LengthMismatch { context: "interpolation", expected: xs.len(), got: ys.len() });
    }
    let n = xs.len();
    let ghost xv = spec_field_values(xs@);
    let ghost yv = spec_field_values(ys@);
    let mut out: Vec<BLSFieldElement> = Vec::new();
    while out.len() < n
        invariant
            out@.len() <= n,
            spec_all_wf(out@),
            forall|k: int| 0 <= k < out@.len() ==> (#[trigger] out@[k]).value() == 0,
        decreases n - out@.len(),
    {
        out.push(BLSFieldElement::zero());
    }
    let mut i: usize = 0;
    while i < n
        invariant
            i <= n,
            n == xs@.len(),
            n == ys@.len(),
            xv == spec_field_values(xs@),
            yv == spec_field_values(ys@),
            out@.len() == n,
            spec_all_wf(out@),
            forall|j: int| 0 <= j < i ==> #[trigger] spec_denominator(xv, j, n as nat) != 0,
            forall|k: int| 0 <= k < n ==> (#[trigger] out@[k]).value() == spec_lagrange_coef(xv, yv, i as nat, k),
        decreases n - i,
    {
        let mut basis: Vec<BLSFieldElement> = Vec::new();
        basis.push(BLSFieldElement::one());
        let mut denominator = BLSFieldElement::one();
        proof {
            lemma_small_mod(1, bls_modulus());
            assert(spec_field_values(basis@) =~= seq![1nat]);
            assert(spec_skip(xv, i as int, 0) =~= Seq::<nat>::empty());
        }
        let mut j: usize = 0;
        while j < n
            invariant
                j <= n,
                i < n,
                n == xs@.len(),
                xv == spec_field_values(xs@),
                spec_all_wf(xs@),
                spec_all_wf(basis@),
                denominator.wf(),
                denominator.value() == spec_denominator(xv, i as int, j as nat),
                spec_field_values(basis@) == spec_vanishing(spec_skip(xv, i as int, j as nat)),
                basis@.len() == spec_skip(xv, i as int, j as nat).len() + 1,
                spec_skip(xv, i as int, j as nat).len() <= j,
            decreases n - j,
        {
            if i != j {
                let factor = vec![field_neg(xs[j]), BLSFieldElement::one()];
                let ghost linear = seq![((0 - xv[j as int]) % (bls_modulus() as int)) as nat, 1nat];
                proof {
                    lemma_small_mod(1, bls_modulus());
                    assert(spec_field_values(factor@) =~= linear);
                    let skipped = spec_skip(xv, i as int, j as nat);
                    assert(spec_skip(xv, i as int, (j + 1) as nat) == skipped.push(xv[j as int]));
                    assert(skipped.push(xv[j as int]).drop_last() =~= skipped);
                    lemma_vanishing_monic(skipped.push(xv[j as int]));
                }
                basis = multiply_polynomialcoeff(basis.as_slice(), factor.as_slice());
                let difference = field_sub(xs[i], xs[j]);
                denominator = field_mul(denominator, difference);
                proof {
                    assert(spec_field_values(basis@).len() == basis@.len());
                }
            }
            j = j + 1;
        }
        proof {
            lemma_skip_len(xv, i as int, n as nat);
        }
        let denominator_inverse = match field_inverse(denominator) {
            Some(value) => value,
            None => {
                proof {
                    assert(spec_first_duplicate(xv, i as int));
                }
                return Err(KzgError::DuplicateInterpolationPoint);
            },
        };
        let scale = field_mul(ys[i], denominator_inverse);
        let mut k: usize = 0;
        while k < basis.len()
            invariant
                k <= basis@.len(),
                basis@.len() == n,
                out@.len() == n,
                spec_all_wf(out@),
                spec_all_wf(basis@),
                scale.wf(),
                forall|t: int| 0 <= t < n ==> (#[trigger] out@[t]).value() == if t < k {
                    spec_lagrange_coef(xv, yv, (i + 1) as nat, t)
                } else {
                    spec_lagrange_coef(xv, yv, i as nat, t)
                },
            decreases basis@.len() - k,
        {
            let term = field_mul(basis[k], scale);
            let sum = field_add(out[k], term);
            proof {
                assert(spec_field_values(basis@)[k as int] == basis@[k as int].value());
                assert(spec_coef(spec_vanishing(spec_skip(xv, i as int, n as nat)), k as int) == basis@[k as int].value());
            }
            out.set(k, sum);
            k = k + 1;
        }
        i = i + 1;
    }
    Ok(out)
}

} // verus!
