//! Weighted sums over observation sequences.
//!
//! The least-squares fit is assembled from sums of the form
//! `sum_i w_i * f(obs_i)`.  Working on integer ticks keeps every such sum
//! exact, so the facts proved here (non-negativity of the second-moment
//! determinant, bounds by the weight total, vanishing on constant columns)
//! are exact statements, not floating-point approximations.

use crate::obs::Obs;
use vstd::prelude::*;
use vstd::arithmetic::mul::*;

verus! {

/// Weight of one observation: its `w` field in weighted mode, `1` otherwise.
pub open spec fn wt(o: Obs, use_w: bool) -> int {
    if use_w {
        o.w as int
    } else {
        1
    }
}

/// `sum_i wt(s[i]) * f(s[i])`.
pub open spec fn wsum(s: Seq<Obs>, use_w: bool, f: spec_fn(Obs) -> int) -> int
    decreases s.len(),
{
    if s.len() == 0 {
        0
    } else {
        wsum(s.drop_last(), use_w, f) + wt(s.last(), use_w) * f(s.last())
    }
}

/// Projection `1`, so that `wsum` yields the weight total.
pub open spec fn one_proj() -> spec_fn(Obs) -> int {
    |o: Obs| 1
}

/// Projection onto time, shifted by `t0`.
pub open spec fn u_proj(t0: int) -> spec_fn(Obs) -> int {
    |o: Obs| o.t - t0
}

/// Projection onto magnitude, shifted by `m0`.
pub open spec fn v_proj(m0: int) -> spec_fn(Obs) -> int {
    |o: Obs| o.m - m0
}

/// Square of a projection.
pub open spec fn sq_proj(f: spec_fn(Obs) -> int) -> spec_fn(Obs) -> int {
    |o: Obs| f(o) * f(o)
}

/// Product of two projections.
pub open spec fn prod_proj(f: spec_fn(Obs) -> int, g: spec_fn(Obs) -> int) -> spec_fn(
    Obs,
) -> int {
    |o: Obs| f(o) * g(o)
}

/// Squared deviation of a projection from a constant `x`.
pub open spec fn dev_proj(f: spec_fn(Obs) -> int, x: int) -> spec_fn(Obs) -> int {
    |o: Obs| (f(o) - x) * (f(o) - x)
}

/// Raw squared time, for the intercept uncertainty.
pub open spec fn tt_proj() -> spec_fn(Obs) -> int {
    |o: Obs| (o.t as int) * (o.t as int)
}

/// Without weights, the weight total is simply the number of observations.
pub proof fn lemma_wsum_one(s: Seq<Obs>)
    ensures
        wsum(s, false, one_proj()) == s.len(),
    decreases s.len(),
{
    if s.len() > 0 {
        lemma_wsum_one(s.drop_last());
    }
}

/// One more element extends the weighted sum by its weighted term.
pub proof fn lemma_wsum_take_succ(s: Seq<Obs>, use_w: bool, f: spec_fn(Obs) -> int, i: int)
    requires
        0 <= i < s.len(),
    ensures
        wsum(s.take(i + 1), use_w, f) == wsum(s.take(i), use_w, f) + wt(s[i], use_w) * f(s[i]),
{
    assert(s.take(i + 1).drop_last() =~= s.take(i));
    assert(s.take(i + 1).last() == s[i]);
}

/// A weighted sum of pointwise non-negative terms is non-negative.
pub proof fn lemma_wsum_nonneg(s: Seq<Obs>, use_w: bool, f: spec_fn(Obs) -> int)
    requires
        forall|i: int| 0 <= i < s.len() ==> wt(#[trigger] s[i], use_w) >= 0,
        forall|i: int| 0 <= i < s.len() ==> f(#[trigger] s[i]) >= 0,
    ensures
        wsum(s, use_w, f) >= 0,
    decreases s.len(),
{
    if s.len() > 0 {
        lemma_wsum_nonneg(s.drop_last(), use_w, f);
        lemma_mul_nonnegative(wt(s.last(), use_w), f(s.last()));
    }
}

/// A weighted sum vanishes when the projection vanishes on every element.
pub proof fn lemma_wsum_zero(s: Seq<Obs>, use_w: bool, f: spec_fn(Obs) -> int)
    requires
        forall|i: int| 0 <= i < s.len() ==> f(#[trigger] s[i]) == 0,
    ensures
        wsum(s, use_w, f) == 0,
    decreases s.len(),
{
    if s.len() > 0 {
        lemma_wsum_zero(s.drop_last(), use_w, f);
    }
}

/// A weighted sum is bounded by the bound on the projection times the weight
/// total.
pub proof fn lemma_wsum_abs_bound(s: Seq<Obs>, use_w: bool, f: spec_fn(Obs) -> int, fb: int)
    requires
        forall|i: int| 0 <= i < s.len() ==> wt(#[trigger] s[i], use_w) >= 0,
        forall|i: int| 0 <= i < s.len() ==> -fb <= f(#[trigger] s[i]) <= fb,
    ensures
        -(fb * wsum(s, use_w, one_proj())) <= wsum(s, use_w, f) <= fb * wsum(
            s,
            use_w,
            one_proj(),
        ),
    decreases s.len(),
{
    if s.len() == 0 {
    } else {
        let o = s.last();
        let w = wt(o, use_w);
        lemma_wsum_abs_bound(s.drop_last(), use_w, f, fb);
        assert(one_proj()(o) == 1);
        assert(w * 1 == w);
        assert(-(w * fb) <= w * f(o) <= w * fb) by (nonlinear_arith)
            requires
                w >= 0,
                -fb <= f(o) <= fb,
        ;
        assert(fb * wsum(s, use_w, one_proj()) == fb * wsum(s.drop_last(), use_w, one_proj()) + fb
            * w) by (nonlinear_arith)
            requires
                wsum(s, use_w, one_proj()) == wsum(s.drop_last(), use_w, one_proj()) + w * 1,
        ;
        assert(fb * w == w * fb) by (nonlinear_arith);
    }
}

/// Expansion of the weighted sum of squared deviations:
/// `sum w (f - x)^2 == x^2 * sum w - 2 x * sum w f + sum w f^2`.
pub proof fn lemma_wsum_dev_expand(s: Seq<Obs>, use_w: bool, f: spec_fn(Obs) -> int, x: int)
    ensures
        wsum(s, use_w, dev_proj(f, x)) == x * x * wsum(s, use_w, one_proj()) - 2 * x * wsum(
            s,
            use_w,
            f,
        ) + wsum(s, use_w, sq_proj(f)),
    decreases s.len(),
{
    if s.len() == 0 {
    } else {
        let o = s.last();
        let w = wt(o, use_w);
        let y = f(o);
        lemma_wsum_dev_expand(s.drop_last(), use_w, f, x);
        assert(dev_proj(f, x)(o) == (y - x) * (y - x));
        assert(sq_proj(f)(o) == y * y);
        assert(one_proj()(o) == 1);
        let a0 = wsum(s.drop_last(), use_w, one_proj());
        let c0 = wsum(s.drop_last(), use_w, f);
        let b0 = wsum(s.drop_last(), use_w, sq_proj(f));
        assert(x * x * a0 - 2 * x * c0 + b0 + w * ((y - x) * (y - x)) == x * x * (a0 + w * 1) - 2
            * x * (c0 + w * y) + (b0 + w * (y * y))) by (nonlinear_arith);
    }
}

/// Ring identity behind one induction step of [`lemma_wsum_quad_nonneg`].
proof fn lemma_quad_push(a0: int, b0: int, c0: int, w: int, x: int)
    ensures
        (a0 + w) * (b0 + w * (x * x)) - (c0 + w * x) * (c0 + w * x) == (a0 * b0 - c0 * c0) + w * (
        x * x * a0 - 2 * x * c0 + b0),
{
    let p = x * x;
    assert((a0 + w) * (b0 + w * p) == a0 * b0 + w * (p * a0) + w * b0 + (w * p) * w)
        by (nonlinear_arith);
    assert((c0 + w * x) * (c0 + w * x) == c0 * c0 + w * (2 * x * c0) + (w * x) * (w * x))
        by (nonlinear_arith);
    assert((w * p) * w == (w * x) * (w * x)) by (nonlinear_arith)
        requires
            p == x * x,
    ;
    assert(w * (p * a0 - 2 * x * c0 + b0) == w * (p * a0) - w * (2 * x * c0) + w * b0)
        by (nonlinear_arith);
}

/// The second-moment determinant `sum w * sum w f^2 - (sum w f)^2` is
/// non-negative whenever all weights are: the exact-integer form of the
/// Cauchy-Schwarz guarantee that the normal-equation denominator of a
/// least-squares fit cannot be negative.
pub proof fn lemma_wsum_quad_nonneg(s: Seq<Obs>, use_w: bool, f: spec_fn(Obs) -> int)
    requires
        forall|i: int| 0 <= i < s.len() ==> wt(#[trigger] s[i], use_w) >= 0,
    ensures
        wsum(s, use_w, one_proj()) * wsum(s, use_w, sq_proj(f)) - wsum(s, use_w, f) * wsum(
            s,
            use_w,
            f,
        ) >= 0,
    decreases s.len(),
{
    if s.len() == 0 {
    } else {
        let o = s.last();
        let w = wt(o, use_w);
        let x = f(o);
        let tail = s.drop_last();
        lemma_wsum_quad_nonneg(tail, use_w, f);
        lemma_wsum_dev_expand(tail, use_w, f, x);
        assert forall|i: int| 0 <= i < tail.len() implies dev_proj(f, x)(#[trigger] tail[i])
            >= 0 by {
            let z = f(tail[i]) - x;
            assert(z * z >= 0) by (nonlinear_arith);
            assert(dev_proj(f, x)(tail[i]) == z * z);
        }
        lemma_wsum_nonneg(tail, use_w, dev_proj(f, x));
        let a0 = wsum(tail, use_w, one_proj());
        let c0 = wsum(tail, use_w, f);
        let b0 = wsum(tail, use_w, sq_proj(f));
        assert(dev_proj(f, x)(o) == (x - x) * (x - x));
        assert(sq_proj(f)(o) == x * x);
        assert(one_proj()(o) == 1);
        assert(wsum(s, use_w, one_proj()) == a0 + w * 1);
        assert(wsum(s, use_w, f) == c0 + w * x);
        assert(wsum(s, use_w, sq_proj(f)) == b0 + w * (x * x));
        lemma_quad_push(a0, b0, c0, w, x);
        assert(a0 + w * 1 == a0 + w);
        lemma_mul_nonnegative(w, x * x * a0 - 2 * x * c0 + b0);
    }
}

/// A weighted sum of pointwise non-negative terms dominates each of its
/// terms.
pub proof fn lemma_wsum_ge_term(s: Seq<Obs>, use_w: bool, f: spec_fn(Obs) -> int, i: int)
    requires
        forall|k: int| 0 <= k < s.len() ==> wt(#[trigger] s[k], use_w) >= 0,
        forall|k: int| 0 <= k < s.len() ==> f(#[trigger] s[k]) >= 0,
        0 <= i < s.len(),
    ensures
        wsum(s, use_w, f) >= wt(s[i], use_w) * f(s[i]),
    decreases s.len(),
{
    if i == s.len() - 1 {
        lemma_wsum_nonneg(s.drop_last(), use_w, f);
    } else {
        lemma_wsum_ge_term(s.drop_last(), use_w, f, i);
        lemma_mul_nonnegative(wt(s.last(), use_w), f(s.last()));
    }
}

/// Strict second-moment determinant: with weights of at least one, two
/// observations on which the projection differs make
/// `sum w * sum w f^2 - (sum w f)^2` strictly positive.  This is the exact
/// reason a least-squares fit over two distinct time values can never hit a
/// singular normal-equation matrix.
pub proof fn lemma_wsum_quad_pos(
    s: Seq<Obs>,
    use_w: bool,
    f: spec_fn(Obs) -> int,
    i: int,
    j: int,
)
    requires
        forall|k: int| 0 <= k < s.len() ==> wt(#[trigger] s[k], use_w) >= 1,
        0 <= i < j < s.len(),
        f(s[i]) != f(s[j]),
    ensures
        wsum(s, use_w, one_proj()) * wsum(s, use_w, sq_proj(f)) - wsum(s, use_w, f) * wsum(
            s,
            use_w,
            f,
        ) > 0,
    decreases s.len(),
{
    let o = s.last();
    let w = wt(o, use_w);
    let x = f(o);
    let tail = s.drop_last();
    let a0 = wsum(tail, use_w, one_proj());
    let c0 = wsum(tail, use_w, f);
    let b0 = wsum(tail, use_w, sq_proj(f));
    lemma_wsum_dev_expand(tail, use_w, f, x);
    assert forall|k: int| 0 <= k < tail.len() implies dev_proj(f, x)(#[trigger] tail[k])
        >= 0 by {
        let z = f(tail[k]) - x;
        assert(z * z >= 0) by (nonlinear_arith);
        assert(dev_proj(f, x)(tail[k]) == z * z);
    }
    assert(dev_proj(f, x)(o) == (x - x) * (x - x));
    assert(sq_proj(f)(o) == x * x);
    assert(one_proj()(o) == 1);
    assert(wsum(s, use_w, one_proj()) == a0 + w * 1);
    assert(wsum(s, use_w, f) == c0 + w * x);
    assert(wsum(s, use_w, sq_proj(f)) == b0 + w * (x * x));
    lemma_quad_push(a0, b0, c0, w, x);
    assert(a0 + w * 1 == a0 + w);
    let dev_total = x * x * a0 - 2 * x * c0 + b0;
    if j == s.len() - 1 {
        lemma_wsum_quad_nonneg(tail, use_w, f);
        lemma_wsum_ge_term(tail, use_w, dev_proj(f, x), i);
        let z = f(tail[i]) - x;
        assert(z != 0);
        assert(z * z >= 1) by (nonlinear_arith)
            requires
                z != 0,
        ;
        assert(wt(tail[i], use_w) * (z * z) >= 1) by (nonlinear_arith)
            requires
                wt(tail[i], use_w) >= 1,
                z * z >= 1,
        ;
        assert(dev_proj(f, x)(tail[i]) == z * z);
        assert(dev_total >= 1);
        assert(w * dev_total >= 1) by (nonlinear_arith)
            requires
                w >= 1,
                dev_total >= 1,
        ;
    } else {
        lemma_wsum_quad_pos(tail, use_w, f, i, j);
        lemma_wsum_nonneg(tail, use_w, dev_proj(f, x));
        lemma_mul_nonnegative(w, dev_total);
    }
}

/// Two projections in a fixed rational ratio keep that ratio under weighted
/// summation.
pub proof fn lemma_wsum_proportional(
    s: Seq<Obs>,
    use_w: bool,
    f: spec_fn(Obs) -> int,
    g: spec_fn(Obs) -> int,
    p: int,
    q: int,
)
    requires
        forall|i: int| 0 <= i < s.len() ==> q * f(#[trigger] s[i]) == p * g(s[i]),
    ensures
        q * wsum(s, use_w, f) == p * wsum(s, use_w, g),
    decreases s.len(),
{
    if s.len() == 0 {
        assert(q * 0 == 0) by (nonlinear_arith);
        assert(p * 0 == 0) by (nonlinear_arith);
    } else {
        let o = s.last();
        let w = wt(o, use_w);
        lemma_wsum_proportional(s.drop_last(), use_w, f, g, p, q);
        assert(q * (wsum(s.drop_last(), use_w, f) + w * f(o)) == q * wsum(
            s.drop_last(),
            use_w,
            f,
        ) + w * (q * f(o))) by (nonlinear_arith);
        assert(p * (wsum(s.drop_last(), use_w, g) + w * g(o)) == p * wsum(
            s.drop_last(),
            use_w,
            g,
        ) + w * (p * g(o))) by (nonlinear_arith);
    }
}

/// A weighted sum is an ordinary sum of weighted terms.
proof fn lemma_wsum_as_int_sum(s: Seq<Obs>, use_w: bool, f: spec_fn(Obs) -> int)
    ensures
        wsum(s, use_w, f) == crate::obs::int_sum(
            s.map_values(|o: Obs| wt(o, use_w) * f(o)),
        ),
    decreases s.len(),
{
    let g = |o: Obs| wt(o, use_w) * f(o);
    if s.len() == 0 {
        assert(s.map_values(g) =~= Seq::<int>::empty());
    } else {
        lemma_wsum_as_int_sum(s.drop_last(), use_w, f);
        assert(s.map_values(g).drop_last() =~= s.drop_last().map_values(g));
        assert(s.map_values(g).last() == g(s.last()));
    }
}

/// Weighted sums depend only on the multiset of observations, not on their
/// order.
pub proof fn lemma_wsum_multiset(s1: Seq<Obs>, s2: Seq<Obs>, use_w: bool, f: spec_fn(Obs) -> int)
    requires
        s1.to_multiset() == s2.to_multiset(),
    ensures
        wsum(s1, use_w, f) == wsum(s2, use_w, f),
{
    let g = |o: Obs| wt(o, use_w) * f(o);
    lemma_wsum_as_int_sum(s1, use_w, f);
    lemma_wsum_as_int_sum(s2, use_w, f);
    crate::obs::lemma_obs_sum_multiset(s1, s2, g);
}

} // verus!
