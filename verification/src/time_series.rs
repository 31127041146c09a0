//! The light-curve container: columnar access to (time, magnitude, weight)
//! observations, lock-step sorting by time, and memoized order-independent
//! statistics.

use crate::arith::{div_trunc, trunc_div};
use crate::obs::{
    canon, int_sum, lemma_canon_ensures, lemma_canon_of_sorted, lemma_sorted_unique,
    lemma_swap_multiset, obs_le, obs_le_exec, obs_order, Obs,
};
use crate::sums::{
    lemma_wsum_multiset, lemma_wsum_one, lemma_wsum_quad_nonneg, one_proj, sq_proj, v_proj, wsum,
};
use vstd::prelude::*;
use vstd::arithmetic::div_mod::*;
use vstd::arithmetic::mul::*;
use vstd::relations::sorted_by;

verus! {

/// Largest number of observations a series may hold.
pub const MAX_LEN: usize = 4096;

/// Largest magnitude of a time or magnitude sample, in ticks.
pub const MAX_ABS_TICKS: i64 = 0x100000000;

/// Largest admissible weight; weights are at least 1.
pub const MAX_WEIGHT: i64 = 1024;

/// One observation lies within the sample bounds.
pub open spec fn obs_in_bounds(o: Obs) -> bool {
    &&& -MAX_ABS_TICKS <= o.t <= MAX_ABS_TICKS
    &&& -MAX_ABS_TICKS <= o.m <= MAX_ABS_TICKS
    &&& 1 <= o.w <= MAX_WEIGHT
}

/// Truncated mean of the magnitude column.
pub open spec fn mean_spec(s: Seq<Obs>) -> int {
    trunc_div(wsum(s, false, v_proj(0)), s.len() as int)
}

/// Sample variance of the magnitude column, truncated:
/// `(n * sum m^2 - (sum m)^2) / (n * (n - 1))`.
pub open spec fn variance_spec(s: Seq<Obs>) -> int {
    let n = s.len() as int;
    let sm = wsum(s, false, v_proj(0));
    let smm = wsum(s, false, sq_proj(v_proj(0)));
    (n * smm - sm * sm) / (n * (n - 1))
}

/// A light curve: equally long time, magnitude and (optional) weight
/// columns, stored row-wise, with lazily cached statistics.
///
/// The fields are public so that specifications can speak about them, but
/// all mutation must go through the methods here: every method requires and
/// preserves [`TimeSeries::wf`].
pub struct TimeSeries {
    /// The observations, one row per sample.
    pub obs: Vec<Obs>,
    /// Whether a weight column was supplied; without one every `w` is 1.
    pub has_weight: bool,
    /// Whether the rows are known to be in canonical ascending time order.
    pub time_sorted: bool,
    /// Memoized truncated mean of the magnitude column.
    pub mean_cache: Option<i64>,
    /// Memoized truncated sample variance of the magnitude column.
    pub variance_cache: Option<i128>,
}

impl TimeSeries {
    /// Well-formedness: bounded samples, honest `has_weight` and
    /// `time_sorted` flags, and caches that hold exactly the memoized
    /// statistic of the current magnitude column.
    pub open spec fn wf(&self) -> bool {
        &&& self.obs@.len() <= MAX_LEN
        &&& forall|i: int| 0 <= i < self.obs@.len() ==> obs_in_bounds(#[trigger] self.obs@[i])
        &&& (!self.has_weight ==> forall|i: int|
            0 <= i < self.obs@.len() ==> (#[trigger] self.obs@[i]).w == 1)
        &&& (self.time_sorted ==> sorted_by(self.obs@, obs_order()))
        &&& (self.mean_cache matches Some(v) ==> self.obs@.len() > 0 && v == mean_spec(self.obs@))
        &&& (self.variance_cache matches Some(v) ==> self.obs@.len() >= 2 && v == variance_spec(
            self.obs@,
        ))
    }

    /// Build a series from a time, magnitude and weight column.
    pub fn new(time: &Vec<i64>, magnitude: &Vec<i64>, weight: &Vec<i64>) -> (r: TimeSeries)
        requires
            time@.len() == magnitude@.len(),
            time@.len() == weight@.len(),
            time@.len() <= MAX_LEN,
            forall|i: int|
                0 <= i < time@.len() ==> -MAX_ABS_TICKS <= #[trigger] time@[i] <= MAX_ABS_TICKS,
            forall|i: int|
                0 <= i < magnitude@.len() ==> -MAX_ABS_TICKS <= #[trigger] magnitude@[i]
                    <= MAX_ABS_TICKS,
            forall|i: int| 0 <= i < weight@.len() ==> 1 <= #[trigger] weight@[i] <= MAX_WEIGHT,
        ensures
            r.wf(),
            r.obs@.len() == time@.len(),
            forall|i: int|
                0 <= i < time@.len() ==> #[trigger] r.obs@[i] == (Obs {
                    t: time@[i],
                    m: magnitude@[i],
                    w: weight@[i],
                }),
            r.has_weight == true,
            r.time_sorted == false,
            r.mean_cache is None,
            r.variance_cache is None,
    {
        let n = time.len();
        let mut rows: Vec<Obs> = Vec::new();
        let mut i: usize = 0;
        while i < n
            invariant
                i <= n,
                n == time@.len(),
                n == magnitude@.len(),
                n == weight@.len(),
                rows@.len() == i,
                forall|k: int|
                    0 <= k < i ==> #[trigger] rows@[k] == (Obs {
                        t: time@[k],
                        m: magnitude@[k],
                        w: weight@[k],
                    }),
            decreases n - i,
        {
            rows.push(Obs { t: time[i], m: magnitude[i], w: weight[i] });
            i += 1;
        }
        TimeSeries {
            obs: rows,
            has_weight: true,
            time_sorted: false,
            mean_cache: None,
            variance_cache: None,
        }
    }

    /// Build a series without a weight column; every weight is 1.
    pub fn new_without_weight(time: &Vec<i64>, magnitude: &Vec<i64>) -> (r: TimeSeries)
        requires
            time@.len() == magnitude@.len(),
            time@.len() <= MAX_LEN,
            forall|i: int|
                0 <= i < time@.len() ==> -MAX_ABS_TICKS <= #[trigger] time@[i] <= MAX_ABS_TICKS,
            forall|i: int|
                0 <= i < magnitude@.len() ==> -MAX_ABS_TICKS <= #[trigger] magnitude@[i]
                    <= MAX_ABS_TICKS,
        ensures
            r.wf(),
            r.obs@.len() == time@.len(),
            forall|i: int|
                0 <= i < time@.len() ==> #[trigger] r.obs@[i] == (Obs {
                    t: time@[i],
                    m: magnitude@[i],
                    w: 1,
                }),
            r.has_weight == false,
            r.time_sorted == false,
            r.mean_cache is None,
            r.variance_cache is None,
    {
        let n = time.len();
        let mut rows: Vec<Obs> = Vec::new();
        let mut i: usize = 0;
        while i < n
            invariant
                i <= n,
                n == time@.len(),
                n == magnitude@.len(),
                rows@.len() == i,
                forall|k: int|
                    0 <= k < i ==> #[trigger] rows@[k] == (Obs {
                        t: time@[k],
                        m: magnitude@[k],
                        w: 1,
                    }),
            decreases n - i,
        {
            rows.push(Obs { t: time[i], m: magnitude[i], w: 1 });
            i += 1;
        }
        TimeSeries {
            obs: rows,
            has_weight: false,
            time_sorted: false,
            mean_cache: None,
            variance_cache: None,
        }
    }

    /// Number of observations.
    pub fn length(&self) -> (r: usize)
        ensures
            r == self.obs@.len(),
    {
        self.obs.len()
    }

    /// Reorder the observations into canonical ascending time order,
    /// carrying magnitudes and weights along in lock step.  Idempotent, and
    /// the order-independent cached statistics survive unchanged.
    pub fn ensure_sorted_by_time(&mut self)
        requires
            old(self).wf(),
        ensures
            final(self).wf(),
            final(self).obs@ == canon(old(self).obs@),
            final(self).obs@.to_multiset() == old(self).obs@.to_multiset(),
            final(self).has_weight == old(self).has_weight,
            final(self).time_sorted,
            final(self).mean_cache == old(self).mean_cache,
            final(self).variance_cache == old(self).variance_cache,
    {
        proof {
            lemma_canon_ensures(old(self).obs@);
        }
        if self.time_sorted {
            proof {
                lemma_canon_of_sorted(self.obs@);
            }
            return ;
        }
        sort_rows(&mut self.obs);
        self.time_sorted = true;
        proof {
            broadcast use vstd::seq_lib::group_to_multiset_ensures;

            assert forall|i: int| 0 <= i < self.obs@.len() implies obs_in_bounds(
                #[trigger] self.obs@[i],
            ) && (!old(self).has_weight ==> self.obs@[i].w == 1) by {
                let x = self.obs@[i];
                assert(self.obs@.contains(x));
                assert(self.obs@.to_multiset().count(x) > 0);
                assert(old(self).obs@.contains(x));
                let j = choose|j: int| 0 <= j < old(self).obs@.len() && old(self).obs@[j] == x;
                assert(obs_in_bounds(old(self).obs@[j]));
            }
            lemma_sorted_unique(self.obs@, canon(old(self).obs@));
            if self.mean_cache is Some {
                lemma_wsum_multiset(self.obs@, old(self).obs@, false, v_proj(0));
            }
            if self.variance_cache is Some {
                lemma_wsum_multiset(self.obs@, old(self).obs@, false, v_proj(0));
                lemma_wsum_multiset(self.obs@, old(self).obs@, false, sq_proj(v_proj(0)));
            }
        }
    }

    /// Truncated mean of the magnitude column, memoized on first use.
    pub fn mean_magnitude(&mut self) -> (r: i64)
        requires
            old(self).wf(),
            old(self).obs@.len() > 0,
        ensures
            final(self).wf(),
            final(self).obs@ == old(self).obs@,
            final(self).has_weight == old(self).has_weight,
            final(self).time_sorted == old(self).time_sorted,
            final(self).variance_cache == old(self).variance_cache,
            final(self).mean_cache == Some(r),
            r == mean_spec(old(self).obs@),
    {
        if let Some(v) = self.mean_cache {
            return v;
        }
        let n = self.obs.len();
        let mut acc: i128 = 0;
        let mut i: usize = 0;
        while i < n
            invariant
                i <= n,
                n == self.obs@.len(),
                n <= MAX_LEN,
                forall|k: int| 0 <= k < n ==> obs_in_bounds(#[trigger] self.obs@[k]),
                acc == wsum(self.obs@.take(i as int), false, v_proj(0)),
                -((i as int) * 0x100000000) <= acc <= (i as int) * 0x100000000,
            decreases n - i,
        {
            let o = self.obs[i];
            proof {
                crate::sums::lemma_wsum_take_succ(self.obs@, false, v_proj(0), i as int);
                assert(v_proj(0)(self.obs@[i as int]) == o.m as int);
            }
            acc = acc + o.m as i128;
            i += 1;
            proof {
                lemma_mul_is_distributive_add_other_way(0x100000000, i - 1, 1);
            }
        }
        proof {
            assert(self.obs@.take(n as int) =~= self.obs@);
            lemma_mul_is_commutative(MAX_ABS_TICKS as int, n as int);
            lemma_trunc_div_le_multiple(acc as int, n as int, MAX_ABS_TICKS as int);
        }
        let r = div_trunc(acc, n as i128) as i64;
        self.mean_cache = Some(r);
        r
    }

    /// Truncated sample variance of the magnitude column, memoized on first
    /// use.
    pub fn variance_magnitude(&mut self) -> (r: i128)
        requires
            old(self).wf(),
            old(self).obs@.len() >= 2,
        ensures
            final(self).wf(),
            final(self).obs@ == old(self).obs@,
            final(self).has_weight == old(self).has_weight,
            final(self).time_sorted == old(self).time_sorted,
            final(self).mean_cache == old(self).mean_cache,
            final(self).variance_cache == Some(r),
            r == variance_spec(old(self).obs@),
            r >= 0,
    {
        proof {
            lemma_wsum_quad_nonneg(self.obs@, false, v_proj(0));
            lemma_wsum_one(self.obs@);
            let nn = self.obs@.len() as int;
            let num = nn * wsum(self.obs@, false, sq_proj(v_proj(0))) - wsum(
                self.obs@,
                false,
                v_proj(0),
            ) * wsum(self.obs@, false, v_proj(0));
            assert(nn * (nn - 1) > 0) by (nonlinear_arith)
                requires
                    nn >= 2,
            ;
            lemma_div_pos_is_pos(num, nn * (nn - 1));
        }
        if let Some(v) = self.variance_cache {
            return v;
        }
        let n = self.obs.len();
        let mut sm: i128 = 0;
        let mut smm: i128 = 0;
        let mut i: usize = 0;
        while i < n
            invariant
                i <= n,
                n == self.obs@.len(),
                n <= MAX_LEN,
                forall|k: int| 0 <= k < n ==> obs_in_bounds(#[trigger] self.obs@[k]),
                sm == wsum(self.obs@.take(i as int), false, v_proj(0)),
                smm == wsum(self.obs@.take(i as int), false, sq_proj(v_proj(0))),
                -((i as int) * 0x100000000) <= sm <= (i as int) * 0x100000000,
                0 <= smm <= (i as int) * 0x10000000000000000,
            decreases n - i,
        {
            let o = self.obs[i];
            proof {
                crate::sums::lemma_wsum_take_succ(self.obs@, false, v_proj(0), i as int);
                crate::sums::lemma_wsum_take_succ(
                    self.obs@,
                    false,
                    sq_proj(v_proj(0)),
                    i as int,
                );
                assert(v_proj(0)(self.obs@[i as int]) == o.m as int);
                assert(sq_proj(v_proj(0))(self.obs@[i as int]) == (o.m as int) * (o.m as int));
                assert(0 <= (o.m as int) * (o.m as int) <= (MAX_ABS_TICKS as int) * (
                MAX_ABS_TICKS as int)) by (nonlinear_arith)
                    requires
                        -MAX_ABS_TICKS <= o.m <= MAX_ABS_TICKS,
                ;
            }
            let mm = o.m as i128;
            sm = sm + mm;
            smm = smm + mm * mm;
            i += 1;
            proof {
                lemma_mul_is_distributive_add_other_way(0x100000000, i - 1, 1);
                lemma_mul_is_distributive_add_other_way(0x10000000000000000, i - 1, 1);
            }
        }
        proof {
            assert(self.obs@.take(n as int) =~= self.obs@);
            assert(-0x100000000000i128 <= sm <= 0x100000000000i128);
            assert((n as int) * smm <= 0x1000i128 * 0x100000000000000000000i128)
                by (nonlinear_arith)
                requires
                    0 <= smm <= 0x1000i128 * 0x10000000000000000i128,
                    n <= 0x1000,
            ;
            assert(0 <= sm * sm <= 0x100000000000i128 * 0x100000000000i128) by (nonlinear_arith)
                requires
                    -0x100000000000i128 <= sm <= 0x100000000000i128,
            ;
            assert(0 < (n as int) * ((n as int) - 1) <= 0x1000000i128) by (nonlinear_arith)
                requires
                    2 <= n <= 0x1000,
            ;
        }
        let num = (n as i128) * smm - sm * sm;
        let den = (n as i128) * ((n as i128) - 1);
        let r = div_trunc(num, den);
        self.variance_cache = Some(r);
        r
    }
}

/// Bound a truncated quotient by a bound on the dividend: if
/// `|a| <= k * b` then `|a / b| <= k`.
pub proof fn lemma_trunc_div_le_multiple(a: int, b: int, k: int)
    requires
        b > 0,
        k >= 0,
        -(k * b) <= a <= k * b,
    ensures
        -k <= trunc_div(a, b) <= k,
{
    lemma_mul_is_commutative(k, b);
    lemma_div_multiples_vanish(k, b);
    if a >= 0 {
        lemma_div_is_ordered(a, k * b, b);
        lemma_div_pos_is_pos(a, b);
    } else {
        lemma_div_is_ordered(-a, k * b, b);
        lemma_div_pos_is_pos(-a, b);
    }
}

/// Sort the rows into ascending `(t, m, w)` order by selection sort.
fn sort_rows(v: &mut Vec<Obs>)
    ensures
        final(v)@.len() == old(v)@.len(),
        final(v)@.to_multiset() == old(v)@.to_multiset(),
        sorted_by(final(v)@, obs_order()),
{
    let n = v.len();
    let mut i: usize = 0;
    while i < n
        invariant
            i <= n,
            n == v@.len(),
            v@.to_multiset() == old(v)@.to_multiset(),
            forall|p: int, q: int| 0 <= p < q < i as int ==> obs_le(#[trigger] v@[p], #[trigger] v@[q]),
            forall|p: int, q: int|
                0 <= p < i as int <= q < n as int ==> obs_le(#[trigger] v@[p], #[trigger] v@[q]),
        decreases n - i,
    {
        let ghost snap = v@;
        let mut k: usize = i;
        let mut j: usize = i + 1;
        while j < n
            invariant
                i <= k < j <= n,
                n == v@.len(),
                v@ == snap,
                forall|p: int| i as int <= p < j as int ==> obs_le(v@[k as int], #[trigger] v@[p]),
            decreases n - j,
        {
            let take_new = obs_le_exec(&v[j], &v[k]);
            if take_new {
                k = j;
            }
            j += 1;
        }
        if k != i {
            let a = v[i];
            let b = v[k];
            v.set(i, b);
            v.set(k, a);
            proof {
                lemma_swap_multiset(snap, i as int, k as int);
            }
        }
        i += 1;
    }
    assert forall|p: int, q: int| 0 <= p < q < v@.len() implies #[trigger] obs_order()(
        v@[p],
        v@[q],
    ) by {
        assert(obs_le(v@[p], v@[q]));
    }
}

} // verus!
