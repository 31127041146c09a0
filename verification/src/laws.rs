//! Library-wide laws, stated and proved over the specification functions
//! that the executable contracts use.

use crate::arith::{trunc_div, OUTPUT_SCALE};
use crate::evaluator::{DegenerateReason, EvaluatorError};
use crate::fit::{
    det_of, e_of, fit_err_of, ivar_q_of, m0_of, rss_num_of, slope_num_of, slope_q_of,
    slope_var_q_of, s_w, s_wu, s_wuu, s_wuv, s_wv, s_wvv, t0_of, tm_of, two_point_slope_q, x1_of,
    x2_of,
};
use crate::linear_trend::lt_result_spec;
use crate::obs::{canon, lemma_canon_ensures, lemma_canon_same_multiset, Obs};
use crate::sums::{lemma_wsum_proportional, lemma_wsum_zero, prod_proj, sq_proj, u_proj, v_proj};
use vstd::prelude::*;
use vstd::arithmetic::div_mod::*;
use vstd::arithmetic::mul::*;
use vstd::multiset::Multiset;
use vstd::relations::sorted_by;
use vstd::seq_lib::group_to_multiset_ensures;

verus! {

/// A series meeting the linear-trend requirements is never refused on
/// requirement grounds: the evaluation yields exactly the declared two
/// values, or fails only as a degenerate fit.
pub proof fn lemma_requirements_met(s: Seq<Obs>, hw: bool)
    requires
        s.len() >= 2,
    ensures
        (match lt_result_spec(s, hw) {
            Ok(v) => v.len() == 2,
            Err(e) => e matches EvaluatorError::DegenerateFit { .. },
        }),
{
    lemma_canon_ensures(s);
}

/// A series below the minimum length is refused as short, with the exact
/// length carried in the error.
pub proof fn lemma_short_series_refused(s: Seq<Obs>, hw: bool)
    requires
        s.len() < 2,
    ensures
        lt_result_spec(s, hw) == Err::<Seq<i128>, EvaluatorError>(
            EvaluatorError::ShortSeries { have: s.len() as usize, need: 2 },
        ),
{
}

/// Order invariance: two series holding the same observations, in any
/// orders, evaluate to exactly the same linear-trend output.
pub proof fn lemma_order_invariance(s1: Seq<Obs>, s2: Seq<Obs>, hw: bool)
    requires
        s1.to_multiset() == s2.to_multiset(),
    ensures
        lt_result_spec(s1, hw) == lt_result_spec(s2, hw),
{
    broadcast use group_to_multiset_ensures;

    lemma_canon_same_multiset(s1, s2);
    assert(s1.len() == s1.to_multiset().len());
    assert(s2.len() == s2.to_multiset().len());
    assert(s1.len() == s2.len());
}

/// Two observations with one shared time value, or any longer series whose
/// times are all equal, make the fit degenerate.
pub proof fn lemma_constant_time_degenerate(s: Seq<Obs>, hw: bool)
    requires
        s.len() >= 2,
        forall|i: int| 0 <= i < s.len() ==> (#[trigger] s[i]).t == s[0].t,
    ensures
        lt_result_spec(s, hw) == Err::<Seq<i128>, EvaluatorError>(
            EvaluatorError::DegenerateFit { reason: DegenerateReason::Singular },
        ),
{
    broadcast use group_to_multiset_ensures;

    let c = canon(s);
    lemma_canon_ensures(s);
    assert forall|i: int| 0 <= i < c.len() implies (#[trigger] c[i]).t == s[0].t by {
        assert(c.contains(c[i]));
        assert(c.to_multiset().count(c[i]) > 0);
        assert(s.contains(c[i]));
        let j = choose|j: int| 0 <= j < s.len() && s[j] == c[i];
        assert(s[j].t == s[0].t);
    }
    if s.len() == 2 {
        assert(c[0].t == c[1].t);
    } else {
        let u = u_proj(t0_of(c));
        assert forall|i: int| 0 <= i < c.len() implies u(#[trigger] c[i]) == 0 by {
            assert(c[i].t == s[0].t);
            assert(c[0].t == s[0].t);
        }
        assert forall|i: int| 0 <= i < c.len() implies sq_proj(u)(#[trigger] c[i]) == 0 by {
            assert(u(c[i]) == 0);
            assert(sq_proj(u)(c[i]) == u(c[i]) * u(c[i]));
        }
        lemma_wsum_zero(c, false, u);
        lemma_wsum_zero(c, false, sq_proj(u));
        assert(s_wu(c, false) == 0);
        assert(s_wuu(c, false) == 0);
        assert(s_w(c, false) * 0 == 0) by (nonlinear_arith);
        assert(det_of(c, false) == 0);
        assert(fit_err_of(c, false, hw) == Some(
            EvaluatorError::DegenerateFit { reason: DegenerateReason::Singular },
        ));
    }
}

/// Two-point shortcut: any two observations with distinct times give
/// exactly the slope between the pair — a value of the time and magnitude
/// fields alone, so the outcome depends neither on the weights nor on the
/// presence of a weight column — with uncertainty exactly zero.
pub proof fn lemma_two_point_shortcut(s: Seq<Obs>, hw1: bool, hw2: bool)
    requires
        s.len() == 2,
        s[0].t != s[1].t,
    ensures
        lt_result_spec(s, hw1) == lt_result_spec(s, hw2),
        lt_result_spec(s, hw1) is Ok,
        (lt_result_spec(s, hw1))->Ok_0 == seq![
            (if s[0].t < s[1].t {
                trunc_div((s[1].m - s[0].m) * (OUTPUT_SCALE as int), s[1].t - s[0].t)
            } else {
                trunc_div((s[0].m - s[1].m) * (OUTPUT_SCALE as int), s[0].t - s[1].t)
            }) as i128,
            0i128,
        ],
{
    broadcast use group_to_multiset_ensures;

    let c = canon(s);
    lemma_canon_ensures(s);
    assert forall|i: int| 0 <= i < c.len() implies (#[trigger] c[i]) == s[0] || c[i] == s[1] by {
        assert(c.contains(c[i]));
        assert(c.to_multiset().count(c[i]) > 0);
        assert(s.contains(c[i]));
        let j = choose|j: int| 0 <= j < s.len() && s[j] == c[i];
        assert(j == 0 || j == 1);
    }
    lemma_pair_multiset(c);
    lemma_pair_multiset(s);
    if c[0].t == c[1].t {
        assert(c[0] == c[1]);
        let x = c[0];
        assert(c.to_multiset().count(x) == 2);
        assert(s.to_multiset().count(x) == 2);
        assert(s[0] == x && s[1] == x);
        assert(false);
    }
    assert(sorted_by(c, crate::obs::obs_order()));
    assert(crate::obs::obs_order()(c[0], c[1]));
    assert(c[0].t < c[1].t);
    if c[0] == s[0] {
        assert(s.to_multiset().count(s[0]) == c.to_multiset().count(s[0]));
        assert(c[1] == s[1]) by {
            if c[1] == s[0] {
                assert(c.to_multiset().count(s[0]) >= 2);
                assert(s[1] == s[0]);
                assert(false);
            }
        }
        assert(s[0].t < s[1].t);
    } else {
        assert(c[0] == s[1]);
        assert(c[1] == s[0]) by {
            if c[1] == s[1] {
                assert(c.to_multiset().count(s[1]) >= 2);
                assert(s[0] == s[1]);
                assert(false);
            }
        }
        assert(s[1].t < s[0].t);
    }
}

/// Success is owed: a series of at least two observations whose times are
/// not all equal, and which stays inside the fit's documented working range,
/// always evaluates to a value — no error of any kind is possible.
pub proof fn lemma_distinct_times_succeed(s: Seq<Obs>, hw: bool, i: int, j: int)
    requires
        s.len() >= 2,
        0 <= i < s.len(),
        0 <= j < s.len(),
        s[i].t != s[j].t,
        s.len() >= 3 ==> crate::fit::in_range(canon(s), false),
    ensures
        lt_result_spec(s, hw) is Ok,
{
    broadcast use group_to_multiset_ensures;

    if s.len() == 2 {
        assert(i != j);
        assert(s[0].t != s[1].t);
        lemma_two_point_shortcut(s, hw, hw);
    } else {
        let c = canon(s);
        lemma_canon_ensures(s);
        assert(c.contains(s[i])) by {
            assert(s.contains(s[i]));
            assert(c.to_multiset().count(s[i]) > 0);
        }
        assert(c.contains(s[j])) by {
            assert(s.contains(s[j]));
            assert(c.to_multiset().count(s[j]) > 0);
        }
        let p = choose|p: int| 0 <= p < c.len() && c[p] == s[i];
        let q = choose|q: int| 0 <= q < c.len() && c[q] == s[j];
        let u = u_proj(t0_of(c));
        assert(u(c[p]) != u(c[q]));
        assert forall|k: int| 0 <= k < c.len() implies crate::sums::wt(#[trigger] c[k], false)
            >= 1 by {}
        if p < q {
            crate::sums::lemma_wsum_quad_pos(c, false, u, p, q);
        } else {
            crate::sums::lemma_wsum_quad_pos(c, false, u, q, p);
        }
        assert(det_of(c, false) > 0);
    }
}

/// Commuted associativity: `x * (y * z) == y * (x * z)`.
proof fn lemma_mul_shuffle(x: int, y: int, z: int)
    ensures
        x * (y * z) == y * (x * z),
{
    lemma_mul_is_associative(x, y, z);
    lemma_mul_is_associative(y, x, z);
    lemma_mul_is_commutative(x, y);
}

/// The multiset of a two-element sequence is the pair of its elements.
proof fn lemma_pair_multiset(a: Seq<Obs>)
    requires
        a.len() == 2,
    ensures
        a.to_multiset() == Multiset::<Obs>::empty().insert(a[0]).insert(a[1]),
{
    broadcast use group_to_multiset_ensures;

    let one = a.drop_last();
    assert(one =~= Seq::<Obs>::empty().push(a[0]));
    assert(a =~= one.push(a[1]));
    assert(Seq::<Obs>::empty().to_multiset() =~= Multiset::<Obs>::empty()) by {
        assert(Seq::<Obs>::empty().to_multiset().len() == 0);
        assert forall|x: Obs| true implies Seq::<Obs>::empty().to_multiset().count(x) == 0 by {
            assert(!Seq::<Obs>::empty().contains(x));
        }
    }
    assert(one.to_multiset() =~= Multiset::<Obs>::empty().insert(a[0]));
    assert(a.to_multiset() =~= Multiset::<Obs>::empty().insert(a[0]).insert(a[1]));
}

/// Linear-fit exactness on collinear data: if every observation satisfies
/// `bd * m == bn * t + an` exactly (the line `m = (bn/bd) t + an/bd`), then
/// the slope numerator and the determinant stand in exactly the ratio
/// `bn/bd`, the clamped residual numerator is exactly zero — so the
/// reported slope variance of a non-degenerate fit is exactly zero — and
/// the fixed-point slope is the exact fixed-point rendering of `bn/bd`.
pub proof fn lemma_collinear_fit_exact(s: Seq<Obs>, uw: bool, bn: int, bd: int, an: int)
    requires
        bd > 0,
        s.len() >= 1,
        forall|i: int| 0 <= i < s.len() ==> bd * ((#[trigger] s[i]).m as int) == bn * (s[i].t
            as int) + an,
    ensures
        bd * slope_num_of(s, uw) == bn * det_of(s, uw),
        rss_num_of(s, uw) == 0,
        det_of(s, uw) > 0 ==> slope_q_of(s, uw) == trunc_div(bn * (OUTPUT_SCALE as int), bd),
        det_of(s, uw) > 0 && s.len() >= 3 ==> slope_var_q_of(s, uw) == 0 && ivar_q_of(s, uw)
            == 0,
{
    let t0 = t0_of(s);
    let m0 = m0_of(s);
    let u = u_proj(t0);
    let v = v_proj(m0);
    assert(bd * (s[0].m as int) == bn * (s[0].t as int) + an);
    assert forall|i: int| 0 <= i < s.len() implies bd * v(#[trigger] s[i]) == bn * u(s[i]) by {
        assert(bd * (s[i].m as int) == bn * (s[i].t as int) + an);
        assert(bd * (s[i].m as int - m0) == bn * (s[i].t as int - t0)) by (nonlinear_arith)
            requires
                bd * (s[i].m as int) == bn * (s[i].t as int) + an,
                bd * m0 == bn * t0 + an,
        ;
    }
    assert forall|i: int| 0 <= i < s.len() implies bd * prod_proj(u, v)(#[trigger] s[i]) == bn
        * sq_proj(u)(s[i]) by {
        assert(bd * (u(s[i]) * v(s[i])) == bn * (u(s[i]) * u(s[i]))) by (nonlinear_arith)
            requires
                bd * v(s[i]) == bn * u(s[i]),
        ;
    }
    assert forall|i: int| 0 <= i < s.len() implies bd * sq_proj(v)(#[trigger] s[i]) == bn
        * prod_proj(u, v)(s[i]) by {
        assert(bd * (v(s[i]) * v(s[i])) == bn * (u(s[i]) * v(s[i]))) by (nonlinear_arith)
            requires
                bd * v(s[i]) == bn * u(s[i]),
        ;
    }
    lemma_wsum_proportional(s, uw, v, u, bn, bd);
    lemma_wsum_proportional(s, uw, prod_proj(u, v), sq_proj(u), bn, bd);
    lemma_wsum_proportional(s, uw, sq_proj(v), prod_proj(u, v), bn, bd);
    let a = s_w(s, uw);
    let su = s_wu(s, uw);
    let sv = s_wv(s, uw);
    let suu = s_wuu(s, uw);
    let suv = s_wuv(s, uw);
    let svv = s_wvv(s, uw);
    let dd = det_of(s, uw);
    let sn = slope_num_of(s, uw);
    let ee = e_of(s, uw);
    assert(bd * sn == bn * dd) by {
        lemma_mul_is_distributive_sub(bd, a * suv, su * sv);
        lemma_mul_shuffle(bd, a, suv);
        lemma_mul_shuffle(a, bn, suu);
        lemma_mul_shuffle(bd, su, sv);
        lemma_mul_shuffle(su, bn, su);
        lemma_mul_is_distributive_sub(bn, a * suu, su * su);
    }
    assert(bd * ee == bn * sn) by {
        lemma_mul_is_distributive_sub(bd, a * svv, sv * sv);
        lemma_mul_shuffle(bd, a, svv);
        lemma_mul_shuffle(a, bn, suv);
        lemma_mul_shuffle(bd, sv, sv);
        lemma_mul_shuffle(sv, bn, su);
        lemma_mul_shuffle(bn, sv, su);
        lemma_mul_is_commutative(sv, su);
        lemma_mul_is_distributive_sub(bn, a * suv, su * sv);
    }
    assert(bd * (ee * dd - sn * sn) == 0) by {
        lemma_mul_is_distributive_sub(bd, ee * dd, sn * sn);
        lemma_mul_is_associative(bd, ee, dd);
        lemma_mul_is_associative(bd, sn, sn);
        lemma_mul_is_associative(bn, sn, dd);
        lemma_mul_is_associative(bn, dd, sn);
        lemma_mul_is_commutative(sn, dd);
    }
    assert(bd * 0 == 0) by (nonlinear_arith);
    lemma_mul_equality_converse(bd, ee * dd - sn * sn, 0);
    assert(ee * dd - sn * sn == 0);
    assert(rss_num_of(s, uw) == 0);
    if dd > 0 {
        let sc = OUTPUT_SCALE as int;
        assert(bd * (sn * sc) == (bn * sc) * dd) by (nonlinear_arith)
            requires
                bd * sn == bn * dd,
        ;
        crate::arith::lemma_trunc_div_scale(sn * sc, dd, bd);
        assert(bd * (sn * sc) == dd * (bn * sc)) by (nonlinear_arith)
            requires
                bd * (sn * sc) == (bn * sc) * dd,
        ;
        assert(bd * dd == dd * bd) by (nonlinear_arith);
        crate::arith::lemma_trunc_div_scale(bn * sc, bd, dd);
        assert(slope_q_of(s, uw) == trunc_div(bn * sc, bd));
        if s.len() >= 3 {
            lemma_div_of0(dd);
            assert(x1_of(s, uw) == 0);
            assert(0 * sc == 0) by (nonlinear_arith);
            lemma_div_of0(dd);
            assert(x2_of(s, uw) == trunc_div(0, dd));
            assert(trunc_div(0, dd) == 0);
            assert(slope_var_q_of(s, uw) == trunc_div(0, s.len() - 2));
            assert(trunc_div(0, s.len() - 2) == 0);
            assert(0 * tm_of(s, uw) == 0) by (nonlinear_arith);
            assert(ivar_q_of(s, uw) == trunc_div(0, s.len() - 2));
        }
    }
}

} // verus!
