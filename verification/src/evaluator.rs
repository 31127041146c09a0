//! The evaluator contract: requirement descriptors, the error taxonomy, the
//! validation gate every feature runs first, and the polymorphic feature
//! interface.

use crate::obs::{canon, Obs};
use crate::time_series::TimeSeries;
use vstd::prelude::*;

verus! {

/// A column of a [`TimeSeries`].
#[derive(Clone, Copy, PartialEq, Eq, Structural, Debug)]
pub enum Column {
    Time,
    Magnitude,
    Weight,
}

/// Why a fit was refused as degenerate.
#[derive(Clone, Copy, PartialEq, Eq, Structural, Debug)]
pub enum DegenerateReason {
    /// The normal-equation matrix is singular: every time value is equal.
    Singular,
    /// The samples exceed the documented fixed-point working range, so the
    /// fit could not be computed without overflow.
    OutOfRange,
}

/// Failure of one feature evaluation.  No partial results are ever
/// returned.
#[derive(Clone, Copy, PartialEq, Eq, Structural, Debug)]
pub enum EvaluatorError {
    /// The series is shorter than the feature's minimum length.
    ShortSeries { have: usize, need: usize },
    /// A required column is absent.
    MissingColumn { which: Column },
    /// The fit is degenerate and no value can be reported.
    DegenerateFit { reason: DegenerateReason },
}

/// Static per-feature requirements: how many values the feature yields and
/// what it demands of a series.
#[derive(Clone, Copy, PartialEq, Eq, Structural, Debug)]
pub struct EvaluatorInfo {
    /// Number of scalar results the feature produces.
    pub size: usize,
    /// Minimum number of observations required.
    pub min_ts_length: usize,
    /// Whether the time column is read.
    pub t_required: bool,
    /// Whether the magnitude column is read.
    pub m_required: bool,
    /// Whether a weight column must be present.
    pub w_required: bool,
    /// Whether the series must be in ascending time order.
    pub sorting_required: bool,
}

/// The validation outcome for a series against a descriptor: the error owed,
/// if any.
pub open spec fn check_err_spec(s: Seq<Obs>, has_w: bool, info: EvaluatorInfo) -> Option<
    EvaluatorError,
> {
    if s.len() < info.min_ts_length {
        Some(
            EvaluatorError::ShortSeries { have: s.len() as usize, need: info.min_ts_length },
        )
    } else if info.w_required && !has_w {
        Some(EvaluatorError::MissingColumn { which: Column::Weight })
    } else {
        None
    }
}

/// The single gate every feature calls before reading a series: reject a
/// series that is too short or lacks a required column, otherwise sort it if
/// the feature demands time order, and hand back its length.
pub fn check_ts_length(ts: &mut TimeSeries, info: &EvaluatorInfo) -> (r: Result<
    usize,
    EvaluatorError,
>)
    requires
        old(ts).wf(),
    ensures
        final(ts).wf(),
        final(ts).has_weight == old(ts).has_weight,
        final(ts).mean_cache == old(ts).mean_cache,
        final(ts).variance_cache == old(ts).variance_cache,
        final(ts).obs@.to_multiset() == old(ts).obs@.to_multiset(),
        (match check_err_spec(old(ts).obs@, old(ts).has_weight, *info) {
            Some(e) => r == Err::<usize, EvaluatorError>(e) && final(ts).obs@ == old(ts).obs@
                && final(ts).time_sorted == old(ts).time_sorted,
            None => r == Ok::<usize, EvaluatorError>(old(ts).obs@.len() as usize)
                && final(ts).obs@ == (if info.sorting_required {
                canon(old(ts).obs@)
            } else {
                old(ts).obs@
            }) && (info.sorting_required ==> final(ts).time_sorted),
        }),
{
    let n = ts.length();
    if n < info.min_ts_length {
        return Err(EvaluatorError::ShortSeries { have: n, need: info.min_ts_length });
    }
    if info.w_required && !ts.has_weight {
        return Err(EvaluatorError::MissingColumn { which: Column::Weight });
    }
    if info.sorting_required {
        ts.ensure_sorted_by_time();
    }
    Ok(n)
}

/// The contract every feature implements: validate, then compute, with
/// static metadata whose lengths always match the declared output size.
pub trait FeatureEvaluator {
    /// The feature's requirement descriptor.
    spec fn info_spec(&self) -> EvaluatorInfo;

    /// The exact value [`Self::eval`] returns for a series with the given
    /// observations and weight-column flag.
    spec fn result_spec(&self, s: Seq<Obs>, has_w: bool) -> Result<Seq<i128>, EvaluatorError>;

    /// The exact observation sequence the series holds after
    /// [`Self::eval`].
    spec fn series_post_spec(&self, s: Seq<Obs>) -> Seq<Obs>;

    /// The feature's output names.
    spec fn names_spec(&self) -> Seq<Seq<char>>;

    /// The feature's output descriptions.
    spec fn descriptions_spec(&self) -> Seq<Seq<char>>;

    /// Metadata discipline: names and descriptions match the declared
    /// output size, a successful evaluation yields exactly that many
    /// values, and a series below the minimum length is always refused as
    /// short.
    proof fn lemma_metadata_wf(&self)
        ensures
            self.names_spec().len() == self.info_spec().size,
            self.descriptions_spec().len() == self.info_spec().size,
            forall|s: Seq<Obs>, hw: bool|
                (#[trigger] self.result_spec(s, hw)) matches Ok(v) ==> v.len()
                    == self.info_spec().size,
            forall|s: Seq<Obs>, hw: bool|
                s.len() < self.info_spec().min_ts_length ==> #[trigger] self.result_spec(s, hw)
                    == Err::<Seq<i128>, EvaluatorError>(
                    EvaluatorError::ShortSeries {
                        have: s.len() as usize,
                        need: self.info_spec().min_ts_length,
                    },
                ),
    ;

    /// Validate the series and compute the feature values.
    fn eval(&self, ts: &mut TimeSeries) -> (r: Result<Vec<i128>, EvaluatorError>)
        requires
            old(ts).wf(),
        ensures
            final(ts).wf(),
            final(ts).has_weight == old(ts).has_weight,
            final(ts).obs@ == self.series_post_spec(old(ts).obs@),
            final(ts).obs@.to_multiset() == old(ts).obs@.to_multiset(),
            (match r {
                Ok(v) => self.result_spec(old(ts).obs@, old(ts).has_weight) == Ok::<
                    Seq<i128>,
                    EvaluatorError,
                >(v@) && v@.len() == self.info_spec().size,
                Err(e) => self.result_spec(old(ts).obs@, old(ts).has_weight) == Err::<
                    Seq<i128>,
                    EvaluatorError,
                >(e),
            }),
            old(ts).obs@.len() < self.info_spec().min_ts_length ==> final(ts).obs@ == old(
                ts,
            ).obs@,
    ;

    /// The requirement descriptor, as a value.
    fn get_info(&self) -> (r: EvaluatorInfo)
        ensures
            r == self.info_spec(),
    ;

    /// Stable output names, one per output value.
    fn get_names(&self) -> (r: Vec<&'static str>)
        ensures
            r@.len() == self.names_spec().len(),
            forall|i: int| 0 <= i < r@.len() ==> (#[trigger] r@[i])@ == self.names_spec()[i],
    ;

    /// Human-readable output descriptions, one per output value.
    fn get_descriptions(&self) -> (r: Vec<&'static str>)
        ensures
            r@.len() == self.descriptions_spec().len(),
            forall|i: int|
                0 <= i < r@.len() ==> (#[trigger] r@[i])@ == self.descriptions_spec()[i],
    ;
}

} // verus!
