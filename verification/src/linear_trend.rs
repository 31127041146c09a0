//! The linear-trend feature: the slope of the least-squares line through
//! the light curve, and the uncertainty of that slope.
//!
//! The fit treats the magnitudes as a linear model with constant noise and
//! no observation errors.  For a two-observation series no least-squares fit
//! is done: the slope between the pair is returned with uncertainty zero.
//! Two observations sharing one time value are refused as a degenerate fit.
//!
//! - Depends on: **time**, **magnitude**
//! - Minimum number of observations: **2**
//! - Number of features: **2**

use crate::arith::{div_trunc, isqrt, sqrt_floor, trunc_div, OUTPUT_SCALE};
use crate::evaluator::{
    check_ts_length, DegenerateReason, EvaluatorError, EvaluatorInfo, FeatureEvaluator,
};
use crate::fit::{
    fit_spec, fit_straight_line, slope_var_q_of, two_point_slope_q, x1_of, x2_of, FitResult,
    RESIDUAL_FACTOR_LIMIT,
};
use crate::obs::{canon, lemma_canon_ensures, obs_le, obs_order, Obs};
use crate::time_series::TimeSeries;
use vstd::prelude::*;
use vstd::arithmetic::div_mod::*;
use vstd::relations::sorted_by;

verus! {

/// The linear-trend feature.
#[derive(Clone, Default, Debug)]
pub struct LinearTrend {}

impl LinearTrend {
    /// A fresh linear-trend evaluator.
    pub fn new() -> (r: Self)
        ensures
            r == (LinearTrend {  }),
    {
        Self {  }
    }
}

/// The linear-trend requirement descriptor: two outputs, at least two
/// observations, time and magnitude required, sorted by time.
pub open spec fn linear_trend_info() -> EvaluatorInfo {
    EvaluatorInfo {
        size: 2,
        min_ts_length: 2,
        t_required: true,
        m_required: true,
        w_required: false,
        sorting_required: true,
    }
}

/// The exact linear-trend output for a series holding the observations `s`:
/// the fixed-point slope of the unweighted fit over the canonically sorted
/// series and the integer square root of its fixed-point variance.
pub open spec fn lt_result_spec(s: Seq<Obs>, has_w: bool) -> Result<Seq<i128>, EvaluatorError> {
    let c = canon(s);
    if s.len() < 2 {
        Err(EvaluatorError::ShortSeries { have: s.len() as usize, need: 2 })
    } else if s.len() == 2 {
        if c[0].t == c[1].t {
            Err(EvaluatorError::DegenerateFit { reason: DegenerateReason::Singular })
        } else {
            Ok(seq![two_point_slope_q(c) as i128, 0i128])
        }
    } else {
        match fit_spec(c, false, has_w) {
            Err(e) => Err(e),
            Ok(fr) => Ok(seq![fr.slope, sqrt_floor(fr.slope_variance as nat) as i128]),
        }
    }
}

impl FeatureEvaluator for LinearTrend {
    open spec fn info_spec(&self) -> EvaluatorInfo {
        linear_trend_info()
    }

    open spec fn result_spec(&self, s: Seq<Obs>, has_w: bool) -> Result<
        Seq<i128>,
        EvaluatorError,
    > {
        lt_result_spec(s, has_w)
    }

    open spec fn series_post_spec(&self, s: Seq<Obs>) -> Seq<Obs> {
        if s.len() < 2 {
            s
        } else {
            canon(s)
        }
    }

    open spec fn names_spec(&self) -> Seq<Seq<char>> {
        seq!["linear_trend"@, "linear_trend_sigma"@]
    }

    open spec fn descriptions_spec(&self) -> Seq<Seq<char>> {
        seq![
            "linear trend without respect to observation errors"@,
            "error of slope of linear fit without respect to observation errors"@,
        ]
    }

    proof fn lemma_metadata_wf(&self) {
        assert forall|s: Seq<Obs>, hw: bool| (#[trigger] self.result_spec(s, hw)) is Ok implies (
        self.result_spec(s, hw))->Ok_0.len() == self.info_spec().size by {
            let v = lt_result_spec(s, hw)->Ok_0;
            assert(v.len() == 2);
        }
    }

    fn eval(&self, ts: &mut TimeSeries) -> (r: Result<Vec<i128>, EvaluatorError>) {
        let info = EvaluatorInfo {
            size: 2,
            min_ts_length: 2,
            t_required: true,
            m_required: true,
            w_required: false,
            sorting_required: true,
        };
        let size = match check_ts_length(ts, &info) {
            Ok(size) => size,
            Err(e) => {
                return Err(e);
            },
        };
        proof {
            lemma_canon_ensures(old(ts).obs@);
        }
        if size == 2 {
            let o0 = ts.obs[0];
            let o1 = ts.obs[1];
            if o1.t == o0.t {
                return Err(
                    EvaluatorError::DegenerateFit { reason: DegenerateReason::Singular },
                );
            }
            proof {
                assert(obs_order()(ts.obs@[0], ts.obs@[1]));
                assert(obs_le(ts.obs@[0], ts.obs@[1]));
            }
            let dt = o1.t as i128 - o0.t as i128;
            let dm = o1.m as i128 - o0.m as i128;
            let slope = div_trunc(dm * OUTPUT_SCALE, dt);
            let mut out: Vec<i128> = Vec::new();
            out.push(slope);
            out.push(0);
            proof {
                assert(out@ =~= seq![
                    two_point_slope_q(canon(old(ts).obs@)) as i128,
                    0i128,
                ]);
            }
            return Ok(out);
        }
        match fit_straight_line(ts, false) {
            Ok(fr) => {
                proof {
                    let c = canon(old(ts).obs@);
                    assert(ts.obs@ == c);
                    assert(c.len() >= 3);
                    let d = crate::fit::det_of(c, false);
                    assert(d != 0);
                    assert forall|k: int| 0 <= k < c.len() implies crate::sums::wt(
                        #[trigger] c[k],
                        false,
                    ) >= 0 by {}
                    crate::sums::lemma_wsum_quad_nonneg(
                        c,
                        false,
                        crate::sums::u_proj(crate::fit::t0_of(c)),
                    );
                    assert(d > 0);
                    let rn = crate::fit::rss_num_of(c, false);
                    assert(rn >= 0);
                    lemma_div_pos_is_pos(rn, d);
                    assert(x1_of(c, false) >= 0);
                    lemma_trunc_div_nonneg_le(x1_of(c, false) * (OUTPUT_SCALE as int), d);
                    assert(x2_of(c, false) >= 0);
                    assert(x2_of(c, false) <= RESIDUAL_FACTOR_LIMIT as int);
                    lemma_trunc_div_nonneg_le(
                        x2_of(c, false) * (OUTPUT_SCALE as int),
                        c.len() - 2,
                    );
                    assert(0 <= slope_var_q_of(c, false) <= 0x40000000000000000);
                    assert(fr.slope_variance as int == slope_var_q_of(c, false));
                    assert(1u128 << 126 == 0x40000000000000000000000000000000u128)
                        by (bit_vector);
                }
                let sigma = isqrt(fr.slope_variance as u128);
                let mut out: Vec<i128> = Vec::new();
                out.push(fr.slope);
                out.push(sigma as i128);
                proof {
                    let c = canon(old(ts).obs@);
                    assert(out@ =~= seq![
                        fr.slope,
                        sqrt_floor(fr.slope_variance as nat) as i128,
                    ]);
                }
                Ok(out)
            },
            Err(e) => Err(e),
        }
    }

    fn get_info(&self) -> (r: EvaluatorInfo) {
        EvaluatorInfo {
            size: 2,
            min_ts_length: 2,
            t_required: true,
            m_required: true,
            w_required: false,
            sorting_required: true,
        }
    }

    fn get_names(&self) -> (r: Vec<&'static str>) {
        let mut out: Vec<&'static str> = Vec::new();
        out.push("linear_trend");
        out.push("linear_trend_sigma");
        out
    }

    fn get_descriptions(&self) -> (r: Vec<&'static str>) {
        let mut out: Vec<&'static str> = Vec::new();
        out.push("linear trend without respect to observation errors");
        out.push("error of slope of linear fit without respect to observation errors");
        out
    }
}

/// A truncated quotient of a non-negative dividend by a positive divisor is
/// non-negative and at most the dividend.
pub proof fn lemma_trunc_div_nonneg_le(a: int, b: int)
    requires
        a >= 0,
        b > 0,
    ensures
        0 <= trunc_div(a, b) <= a,
{
    crate::arith::lemma_trunc_div_bounds(a, b);
}

} // verus!
