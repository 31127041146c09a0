//! Ordinary and weighted least-squares straight-line fit on fixed-point
//! samples.
//!
//! All sums of the normal equations are computed exactly over `i128`, so
//! the determinant `sum w * sum w u^2 - (sum w u)^2` suffers no cancellation:
//! it is zero exactly when every time value is equal.  Time is re-centered
//! at the first (smallest) sample before squaring, which keeps the exact
//! sums inside `i128` even for large absolute time values.  The returned
//! slope and intercept carry [`crate::arith::OUTPUT_SHIFT`] fractional bits;
//! the variances carry twice as many, so their integer square root is again
//! an `OUTPUT_SHIFT`-bit fixed-point number.

use crate::arith::{div_trunc, trunc_div, OUTPUT_SCALE};
use crate::evaluator::{Column, DegenerateReason, EvaluatorError};
use crate::obs::{obs_le, obs_order, Obs};
use crate::sums::{
    lemma_wsum_abs_bound, lemma_wsum_quad_nonneg, lemma_wsum_take_succ, one_proj, prod_proj,
    sq_proj, tt_proj, u_proj, v_proj, wsum, wt,
};
use crate::time_series::{obs_in_bounds, TimeSeries};
use vstd::prelude::*;
use vstd::arithmetic::div_mod::*;
use vstd::arithmetic::mul::*;
use vstd::relations::sorted_by;

verus! {

/// Result of a straight-line fit `magnitude ~ intercept + slope * time`.
///
/// `slope` and `intercept` are fixed-point with `OUTPUT_SHIFT` fractional
/// bits; the variances carry `2 * OUTPUT_SHIFT` fractional bits and are
/// never negative.  `reduced_chi_square` is reported for weighted fits
/// only.
#[derive(Clone, Copy, PartialEq, Eq, Structural, Debug)]
pub struct FitResult {
    pub slope: i128,
    pub intercept: i128,
    pub slope_variance: i128,
    pub intercept_variance: i128,
    pub reduced_chi_square: Option<i128>,
}

/// Working-range bound on the product of the magnitude and time second
/// moments.
pub const MOMENT_PRODUCT_LIMIT: i128 = 0x40000000000000000000000000000000;

/// Working-range bound on the slope numerator and the fixed-point slope.
pub const SLOPE_LIMIT: i128 = 0x8000000000000000;

/// Working-range bound on the magnitude second moment and the mean squared
/// time.
pub const SECOND_MOMENT_LIMIT: i128 = 0x100000000000000000000;

/// Working-range bound on the scaled residual factor entering the intercept
/// uncertainty.
pub const RESIDUAL_FACTOR_LIMIT: i128 = 0x400000000000;

/// Time re-centered at the first observation.
pub open spec fn t0_of(s: Seq<Obs>) -> int {
    s[0].t as int
}

/// Magnitude re-centered at the first observation.
pub open spec fn m0_of(s: Seq<Obs>) -> int {
    s[0].m as int
}

/// Weight total.
pub open spec fn s_w(s: Seq<Obs>, uw: bool) -> int {
    wsum(s, uw, one_proj())
}

/// Weighted sum of re-centered times.
pub open spec fn s_wu(s: Seq<Obs>, uw: bool) -> int {
    wsum(s, uw, u_proj(t0_of(s)))
}

/// Weighted sum of re-centered magnitudes.
pub open spec fn s_wv(s: Seq<Obs>, uw: bool) -> int {
    wsum(s, uw, v_proj(m0_of(s)))
}

/// Weighted sum of squared re-centered times.
pub open spec fn s_wuu(s: Seq<Obs>, uw: bool) -> int {
    wsum(s, uw, sq_proj(u_proj(t0_of(s))))
}

/// Weighted sum of products of re-centered time and magnitude.
pub open spec fn s_wuv(s: Seq<Obs>, uw: bool) -> int {
    wsum(s, uw, prod_proj(u_proj(t0_of(s)), v_proj(m0_of(s))))
}

/// Weighted sum of squared re-centered magnitudes.
pub open spec fn s_wvv(s: Seq<Obs>, uw: bool) -> int {
    wsum(s, uw, sq_proj(v_proj(m0_of(s))))
}

/// Weighted sum of raw squared times.
pub open spec fn s_wtt(s: Seq<Obs>, uw: bool) -> int {
    wsum(s, uw, tt_proj())
}

/// The normal-equation determinant.  Exactly zero when all times are
/// equal; never negative.
pub open spec fn det_of(s: Seq<Obs>, uw: bool) -> int {
    s_w(s, uw) * s_wuu(s, uw) - s_wu(s, uw) * s_wu(s, uw)
}

/// The slope numerator of Cramer's rule.
pub open spec fn slope_num_of(s: Seq<Obs>, uw: bool) -> int {
    s_w(s, uw) * s_wuv(s, uw) - s_wu(s, uw) * s_wv(s, uw)
}

/// The magnitude second-moment determinant.
pub open spec fn e_of(s: Seq<Obs>, uw: bool) -> int {
    s_w(s, uw) * s_wvv(s, uw) - s_wv(s, uw) * s_wv(s, uw)
}

/// Scaled residual sum of squares:
/// `rss * (s_w * det) == e * det - slope_num^2`, clamped at zero against
/// cancellation.
pub open spec fn rss_num_of(s: Seq<Obs>, uw: bool) -> int {
    let raw = e_of(s, uw) * det_of(s, uw) - slope_num_of(s, uw) * slope_num_of(s, uw);
    if raw >= 0 {
        raw
    } else {
        0
    }
}

/// Fixed-point slope.
pub open spec fn slope_q_of(s: Seq<Obs>, uw: bool) -> int {
    trunc_div(slope_num_of(s, uw) * (OUTPUT_SCALE as int), det_of(s, uw))
}

/// First residual quotient, `rss_num / det`.
pub open spec fn x1_of(s: Seq<Obs>, uw: bool) -> int {
    rss_num_of(s, uw) / det_of(s, uw)
}

/// Second residual quotient, scaled: `x1 * 2^OUTPUT_SHIFT / det`.
pub open spec fn x2_of(s: Seq<Obs>, uw: bool) -> int {
    trunc_div(x1_of(s, uw) * (OUTPUT_SCALE as int), det_of(s, uw))
}

/// Fixed-point slope variance, `2 * OUTPUT_SHIFT` fractional bits.
pub open spec fn slope_var_q_of(s: Seq<Obs>, uw: bool) -> int {
    trunc_div(x2_of(s, uw) * (OUTPUT_SCALE as int), s.len() - 2)
}

/// Fixed-point reduced chi-square of a weighted fit.
pub open spec fn chi2_q_of(s: Seq<Obs>, uw: bool) -> int {
    trunc_div(x1_of(s, uw) * (OUTPUT_SCALE as int), s_w(s, uw) * (s.len() - 2))
}

/// Fixed-point weighted mean of the re-centered times.
pub open spec fn qu_of(s: Seq<Obs>, uw: bool) -> int {
    trunc_div(s_wu(s, uw) * (OUTPUT_SCALE as int), s_w(s, uw))
}

/// Fixed-point weighted mean of the re-centered magnitudes.
pub open spec fn qv_of(s: Seq<Obs>, uw: bool) -> int {
    trunc_div(s_wv(s, uw) * (OUTPUT_SCALE as int), s_w(s, uw))
}

/// Fixed-point intercept at time zero.
pub open spec fn intercept_q_of(s: Seq<Obs>, uw: bool) -> int {
    m0_of(s) * (OUTPUT_SCALE as int) + qv_of(s, uw) - trunc_div(
        slope_q_of(s, uw) * qu_of(s, uw),
        OUTPUT_SCALE as int,
    ) - slope_q_of(s, uw) * t0_of(s)
}

/// Fixed-point weighted mean of the raw squared times.
pub open spec fn tm_of(s: Seq<Obs>, uw: bool) -> int {
    trunc_div(s_wtt(s, uw) * (OUTPUT_SCALE as int), s_w(s, uw))
}

/// Fixed-point intercept variance, `2 * OUTPUT_SHIFT` fractional bits.
pub open spec fn ivar_q_of(s: Seq<Obs>, uw: bool) -> int {
    trunc_div(x2_of(s, uw) * tm_of(s, uw), s.len() - 2)
}

/// The documented fixed-point working range of the general fit: within it
/// every intermediate product fits in `i128`.
pub open spec fn in_range(s: Seq<Obs>, uw: bool) -> bool {
    &&& e_of(s, uw) * det_of(s, uw) <= MOMENT_PRODUCT_LIMIT
    &&& -SLOPE_LIMIT <= slope_num_of(s, uw) <= SLOPE_LIMIT
    &&& e_of(s, uw) <= SECOND_MOMENT_LIMIT
    &&& -SLOPE_LIMIT <= slope_q_of(s, uw) <= SLOPE_LIMIT
    &&& x2_of(s, uw) <= RESIDUAL_FACTOR_LIMIT
    &&& tm_of(s, uw) <= SECOND_MOMENT_LIMIT
}

/// Fixed-point slope of the two-point shortcut.
pub open spec fn two_point_slope_q(s: Seq<Obs>) -> int {
    trunc_div((s[1].m - s[0].m) * (OUTPUT_SCALE as int), s[1].t - s[0].t)
}

/// Fixed-point intercept of the two-point shortcut.
pub open spec fn two_point_intercept_q(s: Seq<Obs>) -> int {
    m0_of(s) * (OUTPUT_SCALE as int) - two_point_slope_q(s) * t0_of(s)
}

/// The successful fit value for a sorted series.
pub open spec fn fit_ok_of(s: Seq<Obs>, uw: bool) -> FitResult {
    if s.len() == 2 {
        FitResult {
            slope: two_point_slope_q(s) as i128,
            intercept: two_point_intercept_q(s) as i128,
            slope_variance: 0,
            intercept_variance: 0,
            reduced_chi_square: None,
        }
    } else {
        FitResult {
            slope: slope_q_of(s, uw) as i128,
            intercept: intercept_q_of(s, uw) as i128,
            slope_variance: slope_var_q_of(s, uw) as i128,
            intercept_variance: ivar_q_of(s, uw) as i128,
            reduced_chi_square: if uw {
                Some(chi2_q_of(s, uw) as i128)
            } else {
                None
            },
        }
    }
}

/// The error the fit owes for a sorted series, if any.  A weighted fit
/// needs a third observation for its residual degree of freedom; a
/// two-point unweighted fit takes the exact-line shortcut.
pub open spec fn fit_err_of(s: Seq<Obs>, uw: bool, has_w: bool) -> Option<EvaluatorError> {
    if s.len() < 2 {
        Some(EvaluatorError::ShortSeries { have: s.len() as usize, need: 2 })
    } else if uw && !has_w {
        Some(EvaluatorError::MissingColumn { which: Column::Weight })
    } else if uw && s.len() == 2 {
        Some(EvaluatorError::ShortSeries { have: 2, need: 3 })
    } else if s.len() == 2 {
        if s[0].t == s[1].t {
            Some(EvaluatorError::DegenerateFit { reason: DegenerateReason::Singular })
        } else {
            None
        }
    } else if det_of(s, uw) == 0 {
        Some(EvaluatorError::DegenerateFit { reason: DegenerateReason::Singular })
    } else if !in_range(s, uw) {
        Some(EvaluatorError::DegenerateFit { reason: DegenerateReason::OutOfRange })
    } else {
        None
    }
}

/// The exact outcome of [`fit_straight_line`] on a sorted series.
pub open spec fn fit_spec(s: Seq<Obs>, uw: bool, has_w: bool) -> Result<
    FitResult,
    EvaluatorError,
> {
    match fit_err_of(s, uw, has_w) {
        Some(e) => Err(e),
        None => Ok(fit_ok_of(s, uw)),
    }
}

/// Least-squares straight-line fit of a sorted series, unweighted or
/// weighted.  Call [`TimeSeries::ensure_sorted_by_time`] first.
#[verifier::loop_isolation(false)]
pub fn fit_straight_line(ts: &TimeSeries, weighted: bool) -> (r: Result<
    FitResult,
    EvaluatorError,
>)
    requires
        ts.wf(),
        sorted_by(ts.obs@, obs_order()),
    ensures
        r == fit_spec(ts.obs@, weighted, ts.has_weight),
{
    let ghost s = ts.obs@;
    let n = ts.obs.len();
    if n < 2 {
        return Err(EvaluatorError::ShortSeries { have: n, need: 2 });
    }
    if weighted && !ts.has_weight {
        return Err(EvaluatorError::MissingColumn { which: Column::Weight });
    }
    if weighted && n == 2 {
        return Err(EvaluatorError::ShortSeries { have: 2, need: 3 });
    }
    let o0 = ts.obs[0];
    if n == 2 {
        let o1 = ts.obs[1];
        if o1.t == o0.t {
            return Err(
                EvaluatorError::DegenerateFit { reason: DegenerateReason::Singular },
            );
        }
        proof {
            assert(obs_order()(s[0], s[1]));
            assert(obs_le(s[0], s[1]));
        }
        let dt = o1.t as i128 - o0.t as i128;
        let dm = o1.m as i128 - o0.m as i128;
        let slope = div_trunc(dm * OUTPUT_SCALE, dt);
        proof {
            assert(-0x20000000000000i128 * 0x100000000i128 <= slope * (o0.t as i128)
                <= 0x20000000000000i128 * 0x100000000i128) by (nonlinear_arith)
                requires
                    -0x20000000000000i128 <= slope <= 0x20000000000000i128,
                    -0x100000000i128 <= o0.t as i128 <= 0x100000000i128,
            ;
        }
        let intercept = o0.m as i128 * OUTPUT_SCALE - slope * (o0.t as i128);
        return Ok(
            FitResult {
                slope,
                intercept,
                slope_variance: 0,
                intercept_variance: 0,
                reduced_chi_square: None,
            },
        );
    }    let t0 = o0.t;
    let m0 = o0.m;
    let ghost t0i = o0.t as int;
    let ghost m0i = o0.m as int;
    let mut sw: i128 = 0;
    let mut swu: i128 = 0;
    let mut swv: i128 = 0;
    let mut swuu: i128 = 0;
    let mut swuv: i128 = 0;
    let mut swvv: i128 = 0;
    let mut swtt: i128 = 0;
    let mut i: usize = 0;
    while i < n
        invariant
            i <= n,
            sw == wsum(s.take(i as int), weighted, one_proj()),
            swu == wsum(s.take(i as int), weighted, u_proj(t0i)),
            swv == wsum(s.take(i as int), weighted, v_proj(m0i)),
            swuu == wsum(s.take(i as int), weighted, sq_proj(u_proj(t0i))),
            swuv == wsum(s.take(i as int), weighted, prod_proj(u_proj(t0i), v_proj(m0i))),
            swvv == wsum(s.take(i as int), weighted, sq_proj(v_proj(m0i))),
            swtt == wsum(s.take(i as int), weighted, tt_proj()),
            i as int <= sw <= (i as int) * 0x400,
            -((i as int) * 0x80000000000) <= swu <= (i as int) * 0x80000000000,
            -((i as int) * 0x80000000000) <= swv <= (i as int) * 0x80000000000,
            0 <= swuu <= (i as int) * 0x10000000000000000000,
            -((i as int) * 0x10000000000000000000) <= swuv <= (i as int)
                * 0x10000000000000000000,
            0 <= swvv <= (i as int) * 0x10000000000000000000,
            0 <= swtt <= (i as int) * 0x10000000000000000000,
        decreases n - i,
    {
        let o = ts.obs[i];
        let w: i128 = if weighted {
            o.w as i128
        } else {
            1
        };
        proof {
            assert(obs_in_bounds(s[i as int]));
            assert(1 <= w <= 0x400i128);
        }
        let u = o.t as i128 - t0 as i128;
        let v = o.m as i128 - m0 as i128;
        proof {
            assert(-0x200000000i128 <= u <= 0x200000000i128);
            assert(-0x200000000i128 <= v <= 0x200000000i128);
            assert(-0x80000000000i128 <= w * u <= 0x80000000000i128 && -0x80000000000i128 <= w
                * v <= 0x80000000000i128) by (nonlinear_arith)
                requires
                    1 <= w <= 0x400i128,
                    -0x200000000i128 <= u <= 0x200000000i128,
                    -0x200000000i128 <= v <= 0x200000000i128,
            ;
            assert(0 <= u * u <= 0x40000000000000000i128 && 0 <= v * v
                <= 0x40000000000000000i128 && -0x40000000000000000i128 <= u * v
                <= 0x40000000000000000i128) by (nonlinear_arith)
                requires
                    -0x200000000i128 <= u <= 0x200000000i128,
                    -0x200000000i128 <= v <= 0x200000000i128,
            ;
            assert(0 <= (o.t as i128) * (o.t as i128) <= 0x10000000000000000i128)
                by (nonlinear_arith)
                requires
                    -0x100000000i128 <= o.t as i128 <= 0x100000000i128,
            ;
        }
        let wu = w * u;
        let wv = w * v;
        let uu = u * u;
        let uv = u * v;
        let vv = v * v;
        let tt = (o.t as i128) * (o.t as i128);
        proof {
            assert(0 <= w * uu <= 0x10000000000000000000i128 && 0 <= w * vv
                <= 0x10000000000000000000i128 && -0x10000000000000000000i128 <= w * uv
                <= 0x10000000000000000000i128 && 0 <= w * tt <= 0x10000000000000000000i128)
                by (nonlinear_arith)
                requires
                    1 <= w <= 0x400i128,
                    0 <= uu <= 0x40000000000000000i128,
                    0 <= vv <= 0x40000000000000000i128,
                    -0x40000000000000000i128 <= uv <= 0x40000000000000000i128,
                    0 <= tt <= 0x10000000000000000i128,
            ;
            lemma_wsum_take_succ(s, weighted, one_proj(), i as int);
            lemma_wsum_take_succ(s, weighted, u_proj(t0i), i as int);
            lemma_wsum_take_succ(s, weighted, v_proj(m0i), i as int);
            lemma_wsum_take_succ(s, weighted, sq_proj(u_proj(t0i)), i as int);
            lemma_wsum_take_succ(s, weighted, prod_proj(u_proj(t0i), v_proj(m0i)), i as int);
            lemma_wsum_take_succ(s, weighted, sq_proj(v_proj(m0i)), i as int);
            lemma_wsum_take_succ(s, weighted, tt_proj(), i as int);
            assert(wt(s[i as int], weighted) == w as int);
            assert(one_proj()(s[i as int]) == 1);
            assert(w * 1 == w);
            assert(u_proj(t0i)(s[i as int]) == u as int);
            assert(v_proj(m0i)(s[i as int]) == v as int);
            assert(sq_proj(u_proj(t0i))(s[i as int]) == (u as int) * (u as int));
            assert(prod_proj(u_proj(t0i), v_proj(m0i))(s[i as int]) == (u as int) * (v as int));
            assert(sq_proj(v_proj(m0i))(s[i as int]) == (v as int) * (v as int));
            assert(tt_proj()(s[i as int]) == (o.t as int) * (o.t as int));
        }
        sw = sw + w;
        swu = swu + wu;
        swv = swv + wv;
        swuu = swuu + w * uu;
        swuv = swuv + w * uv;
        swvv = swvv + w * vv;
        swtt = swtt + w * tt;
        i += 1;
        proof {
            lemma_mul_is_distributive_add_other_way(0x400, i - 1, 1);
            lemma_mul_is_distributive_add_other_way(0x80000000000, i - 1, 1);
            lemma_mul_is_distributive_add_other_way(0x10000000000000000000, i - 1, 1);
        }
    }
    proof {
        assert(s.take(n as int) =~= s);
        assert(3 <= sw <= 0x400000i128);
        assert(-0x80000000000000i128 <= swu <= 0x80000000000000i128);
        assert(-0x80000000000000i128 <= swv <= 0x80000000000000i128);
        assert(0 <= swuu <= 0x10000000000000000000000i128);
        assert(-0x10000000000000000000000i128 <= swuv <= 0x10000000000000000000000i128);
        assert(0 <= swvv <= 0x10000000000000000000000i128);
        assert(0 <= swtt <= 0x10000000000000000000000i128);
        assert forall|k: int| 0 <= k < s.len() implies wt(#[trigger] s[k], weighted) >= 0 by {
            assert(obs_in_bounds(s[k]));
        }
        lemma_wsum_quad_nonneg(s, weighted, u_proj(t0i));
        lemma_wsum_quad_nonneg(s, weighted, v_proj(m0i));
        assert(0 <= swu * swu <= 0x100000000000000000000000000000i128 && 0 <= swv * swv
            <= 0x100000000000000000000000000000i128 && -0x100000000000000000000000000000i128
            <= swu * swv <= 0x100000000000000000000000000000i128) by (nonlinear_arith)
            requires
                -0x80000000000000i128 <= swu <= 0x80000000000000i128,
                -0x80000000000000i128 <= swv <= 0x80000000000000i128,
        ;
        assert(0 <= sw * swuu <= 0x100000000000000000000000000000i128 && 0 <= sw * swvv
            <= 0x100000000000000000000000000000i128 && -0x100000000000000000000000000000i128
            <= sw * swuv <= 0x100000000000000000000000000000i128) by (nonlinear_arith)
            requires
                0 <= sw <= 0x400000i128,
                0 <= swuu <= 0x10000000000000000000000i128,
                0 <= swvv <= 0x10000000000000000000000i128,
                -0x10000000000000000000000i128 <= swuv <= 0x10000000000000000000000i128,
        ;
    }
    let det = sw * swuu - swu * swu;
    if det == 0 {
        return Err(EvaluatorError::DegenerateFit { reason: DegenerateReason::Singular });
    }
    let e = sw * swvv - swv * swv;
    let slope_num = sw * swuv - swu * swv;
    proof {
        assert(det > 0);
        assert(e >= 0);
    }
    let det_budget = div_trunc(MOMENT_PRODUCT_LIMIT, det);
    if e > det_budget {
        proof {
            let di = det as int;
            let dbi = det_budget as int;
            let li = MOMENT_PRODUCT_LIMIT as int;
            lemma_fundamental_div_mod(li, di);
            lemma_mod_division_less_than_divisor(li, di);
            assert((dbi + 1) * di > li) by (nonlinear_arith)
                requires
                    di > 0,
                    li == di * dbi + li % di,
                    0 <= li % di < di,
            ;
            assert(e as int * di > li) by (nonlinear_arith)
                requires
                    e as int >= dbi + 1,
                    di > 0,
                    (dbi + 1) * di > li,
            ;
        }
        return Err(EvaluatorError::DegenerateFit { reason: DegenerateReason::OutOfRange });
    }
    proof {
        let di = det as int;
        let dbi = det_budget as int;
        let li = MOMENT_PRODUCT_LIMIT as int;
        lemma_fundamental_div_mod(li, di);
        lemma_mod_division_less_than_divisor(li, di);
        assert(e as int * di <= li) by (nonlinear_arith)
            requires
                e as int <= dbi,
                di > 0,
                e as int >= 0,
                li == di * dbi + li % di,
                0 <= li % di < di,
        ;
    }
    if slope_num > SLOPE_LIMIT || slope_num < -SLOPE_LIMIT {
        return Err(EvaluatorError::DegenerateFit { reason: DegenerateReason::OutOfRange });
    }
    if e > SECOND_MOMENT_LIMIT {
        return Err(EvaluatorError::DegenerateFit { reason: DegenerateReason::OutOfRange });
    }
    proof {
        assert(0 <= slope_num * slope_num <= 0x40000000000000000000000000000000i128)
            by (nonlinear_arith)
            requires
                -0x8000000000000000i128 <= slope_num <= 0x8000000000000000i128,
        ;
    }
    let rss_raw = e * det;
    let sq = slope_num * slope_num;
    let rss: i128 = if rss_raw >= sq {
        rss_raw - sq
    } else {
        0
    };
    let x1 = div_trunc(rss, det);
    proof {
        lemma_div_is_ordered(rss as int, e as int * det as int, det as int);
        lemma_mul_is_commutative(e as int, det as int);
        lemma_div_multiples_vanish(e as int, det as int);
        assert(0 <= x1 <= e);
    }
    let x2 = div_trunc(x1 * OUTPUT_SCALE, det);
    let slope_q = div_trunc(slope_num * OUTPUT_SCALE, det);
    if slope_q > SLOPE_LIMIT || slope_q < -SLOPE_LIMIT {
        return Err(EvaluatorError::DegenerateFit { reason: DegenerateReason::OutOfRange });
    }
    let slope_var = div_trunc(x2 * OUTPUT_SCALE, n as i128 - 2);
    if x2 > RESIDUAL_FACTOR_LIMIT {
        return Err(EvaluatorError::DegenerateFit { reason: DegenerateReason::OutOfRange });
    }
    let tm = div_trunc(swtt * OUTPUT_SCALE, sw);
    if tm > SECOND_MOMENT_LIMIT {
        return Err(EvaluatorError::DegenerateFit { reason: DegenerateReason::OutOfRange });
    }
    proof {
        assert(0 <= x2 * tm <= 0x40000000000000000000000000000000i128) by (nonlinear_arith)
            requires
                0 <= x2 <= 0x400000000000i128,
                0 <= tm <= 0x100000000000000000000i128,
        ;
    }
    let ivar = div_trunc(x2 * tm, n as i128 - 2);
    let chi2 = if weighted {
        proof {
            assert(1 <= sw * (n as i128 - 2) <= 0x400000000i128) by (nonlinear_arith)
                requires
                    3 <= sw <= 0x400000i128,
                    1 <= n as i128 - 2 <= 0x1000i128,
            ;
        }
        let den = sw * (n as i128 - 2);
        Some(div_trunc(x1 * OUTPUT_SCALE, den))
    } else {
        None
    };
    proof {
        lemma_wsum_abs_bound(s, weighted, u_proj(t0i), 0x200000000);
        lemma_wsum_abs_bound(s, weighted, v_proj(m0i), 0x200000000);
        assert(-0x200000000 * (sw as int) * 0x100000 <= swu as int * 0x100000 <= 0x200000000 * (
        sw as int) * 0x100000) by (nonlinear_arith)
            requires
                -0x200000000 * (sw as int) <= swu as int <= 0x200000000 * (sw as int),
        ;
        assert(-0x200000000 * (sw as int) * 0x100000 <= swv as int * 0x100000 <= 0x200000000 * (
        sw as int) * 0x100000) by (nonlinear_arith)
            requires
                -0x200000000 * (sw as int) <= swv as int <= 0x200000000 * (sw as int),
        ;
        assert(0x200000000 * (sw as int) * 0x100000 == 0x20000000000000 * (sw as int))
            by (nonlinear_arith);
    }
    let qu = div_trunc(swu * OUTPUT_SCALE, sw);
    let qv = div_trunc(swv * OUTPUT_SCALE, sw);
    proof {
        crate::time_series::lemma_trunc_div_le_multiple(
            swu as int * OUTPUT_SCALE as int,
            sw as int,
            0x20000000000000,
        );
        crate::time_series::lemma_trunc_div_le_multiple(
            swv as int * OUTPUT_SCALE as int,
            sw as int,
            0x20000000000000,
        );
        assert(-0x8000000000000000i128 * 0x20000000000000i128 <= slope_q * qu
            <= 0x8000000000000000i128 * 0x20000000000000i128) by (nonlinear_arith)
            requires
                -0x8000000000000000i128 <= slope_q <= 0x8000000000000000i128,
                -0x20000000000000i128 <= qu <= 0x20000000000000i128,
        ;
        assert(-0x8000000000000000i128 * 0x100000000i128 <= slope_q * (t0 as i128)
            <= 0x8000000000000000i128 * 0x100000000i128) by (nonlinear_arith)
            requires
                -0x8000000000000000i128 <= slope_q <= 0x8000000000000000i128,
                -0x100000000i128 <= t0 as i128 <= 0x100000000i128,
        ;
    }
    let ic_cross = div_trunc(slope_q * qu, OUTPUT_SCALE);
    let intercept = m0 as i128 * OUTPUT_SCALE + qv - ic_cross - slope_q * (t0 as i128);
    Ok(
        FitResult {
            slope: slope_q,
            intercept,
            slope_variance: slope_var,
            intercept_variance: ivar,
            reduced_chi_square: chi2,
        },
    )
}

} // verus!
