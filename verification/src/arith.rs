//! Fixed-point arithmetic helpers: truncating division and an integer
//! square root, with exact contracts.

use vstd::prelude::*;
use vstd::arithmetic::div_mod::*;
use vstd::arithmetic::mul::*;

verus! {

/// Number of fractional bits in every fixed-point feature output.
pub const OUTPUT_SHIFT: u64 = 20;

/// `2^OUTPUT_SHIFT`, the denominator of the fixed-point feature outputs.
pub const OUTPUT_SCALE: i128 = 0x100000;

/// Quotient of `a` by `b` rounded toward zero, as Rust's integer `/` does.
/// Meaningful for `b > 0` only.
pub open spec fn trunc_div(a: int, b: int) -> int {
    if a >= 0 {
        a / b
    } else {
        -((-a) / b)
    }
}

/// Truncating division agrees with Euclidean division on nonnegative
/// dividends and is antisymmetric in the dividend.
pub proof fn lemma_trunc_div_bounds(a: int, b: int)
    requires
        b > 0,
    ensures
        a >= 0 ==> 0 <= trunc_div(a, b) <= a,
        a < 0 ==> a <= trunc_div(a, b) <= 0,
{
    if a >= 0 {
        lemma_div_pos_is_pos(a, b);
        lemma_div_nonincreasing(a, b);
    } else {
        lemma_div_pos_is_pos(-a, b);
        lemma_div_nonincreasing(-a, b);
    }
}

/// Scaling a quotient's numerator and denominator by the same positive
/// factor leaves the truncated quotient unchanged.
pub proof fn lemma_trunc_div_scale(a: int, b: int, k: int)
    requires
        b > 0,
        k > 0,
    ensures
        trunc_div(k * a, k * b) == trunc_div(a, b),
{
    lemma_mul_strictly_positive(k, b);
    if a >= 0 {
        lemma_mul_nonnegative(k, a);
        lemma_div_multiples_vanish_quotient(k, a, b);
        assert((k * a) / (k * b) == a / b);
    } else {
        lemma_mul_unary_negation(k, a);
        lemma_mul_nonnegative(k, -a);
        lemma_div_multiples_vanish_quotient(k, -a, b);
        assert((k * -a) / (k * b) == (-a) / b);
    }
}

/// Floor of the square root of a natural number.
pub open spec fn sqrt_floor(x: nat) -> nat
    decreases x,
{
    if x == 0 {
        0
    } else {
        let r = sqrt_floor((x - 1) as nat);
        if (r + 1) * (r + 1) <= x {
            r + 1
        } else {
            r
        }
    }
}

/// `sqrt_floor(x)` is the unique natural number whose square brackets `x`.
pub proof fn lemma_sqrt_floor_bracket(x: nat)
    ensures
        sqrt_floor(x) * sqrt_floor(x) <= x,
        x < (sqrt_floor(x) + 1) * (sqrt_floor(x) + 1),
    decreases x,
{
    if x == 0 {
        assert(sqrt_floor(x) == 0);
        assert(x < (sqrt_floor(x) + 1) * (sqrt_floor(x) + 1)) by (nonlinear_arith)
            requires
                sqrt_floor(x) == 0,
                x == 0nat,
        ;
    } else {
        lemma_sqrt_floor_bracket((x - 1) as nat);
        let r = sqrt_floor((x - 1) as nat);
        assert(r * r <= x - 1);
        assert(((x - 1) as nat) < (r + 1) * (r + 1));
        if (r + 1) * (r + 1) <= x {
            assert(sqrt_floor(x) == r + 1);
            assert(x < (r + 2) * (r + 2)) by (nonlinear_arith)
                requires
                    x <= (r + 1) * (r + 1),
            ;
            assert(sqrt_floor(x) * sqrt_floor(x) <= x);
            assert(x < (sqrt_floor(x) + 1) * (sqrt_floor(x) + 1));
        } else {
            assert(sqrt_floor(x) == r);
            assert(x < (r + 1) * (r + 1));
            assert(sqrt_floor(x) * sqrt_floor(x) <= x);
            assert(x < (sqrt_floor(x) + 1) * (sqrt_floor(x) + 1));
        }
    }
}

/// Any natural number whose square brackets `x` is `sqrt_floor(x)`.
pub proof fn lemma_sqrt_floor_unique(x: nat, r: nat)
    requires
        r * r <= x,
        x < (r + 1) * (r + 1),
    ensures
        r == sqrt_floor(x),
{
    lemma_sqrt_floor_bracket(x);
    let q = sqrt_floor(x);
    if r < q {
        assert(false) by (nonlinear_arith)
            requires
                r < q,
                q * q <= x,
                x < (r + 1) * (r + 1),
        ;
    }
    if q < r {
        assert(false) by (nonlinear_arith)
            requires
                q < r,
                r * r <= x,
                x < (q + 1) * (q + 1),
        ;
    }
}

/// `a / b` with the quotient rounded toward zero, on `i128` operands.
pub fn div_trunc(a: i128, b: i128) -> (r: i128)
    requires
        b > 0,
        a > i128::MIN,
    ensures
        r == trunc_div(a as int, b as int),
        a >= 0 ==> 0 <= r <= a,
        a < 0 ==> a <= r <= 0,
{
    proof {
        lemma_trunc_div_bounds(a as int, b as int);
    }
    if a >= 0 {
        let q = (a as u128) / (b as u128);
        q as i128
    } else {
        let n = (-a) as u128;
        let q = n / (b as u128);
        -(q as i128)
    }
}

/// Largest integer whose square does not exceed `x`.
pub fn isqrt(x: u128) -> (r: u128)
    requires
        x < 1u128 << 126,
    ensures
        r * r <= x,
        x < (r + 1) * (r + 1),
        r < 1u128 << 63,
        r as nat == sqrt_floor(x as nat),
{
    let mut lo: u128 = 0;
    let mut hi: u128 = 1u128 << 63;
    proof {
        assert((1u128 << 63) * (1u128 << 63) == 1u128 << 126) by (bit_vector);
        assert(1u128 << 63 > 0) by (bit_vector);
    }
    while lo + 1 < hi
        invariant
            lo < hi,
            hi <= 1u128 << 63,
            lo * lo <= x,
            x < hi * hi,
        decreases hi - lo,
    {
        let mid = lo + (hi - lo) / 2;
        proof {
            assert(lo < mid < hi);
            lemma_mul_upper_bound(mid as int, (1u128 << 63) as int, mid as int, (1u128 << 63) as int);
            assert((1u128 << 63) * (1u128 << 63) == 1u128 << 126) by (bit_vector);
        }
        if mid * mid <= x {
            lo = mid;
        } else {
            hi = mid;
        }
    }
    proof {
        lemma_sqrt_floor_unique(x as nat, lo as nat);
    }
    lo
}

} // verus!
