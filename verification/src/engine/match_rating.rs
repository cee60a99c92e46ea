//! The rule capability: a named, weighted scoring strategy.

use vstd::prelude::*;
use crate::dto::{JobDto, WorkerDto};
use crate::engine::config::EvaluationContext;
use crate::engine::config::EvaluationConfig;

verus! {

/// What one rule reports: a fixed-point rating (negative means the candidate
/// is disqualified) and the optional diagnostic metrics, in insertion order.
#[derive(Debug)]
pub struct RatingResult {
    pub rating: i64,
    pub metrics: Vec<(String, i64)>,
}

/// The executable metrics vector denotes exactly the specified sequence of
/// name/value pairs.
pub open spec fn metrics_match(actual: Seq<(String, i64)>, expected: Seq<(Seq<char>, int)>) -> bool {
    &&& actual.len() == expected.len()
    &&& forall|i: int|
        0 <= i < actual.len() ==> (#[trigger] actual[i]).0@ == expected[i].0 && actual[i].1 as int
            == expected[i].1
}

/// A scoring strategy with a name, a configured weight, and a rating function
/// whose exact value is pinned down per implementation.
pub trait MatchRating: Sized {
    /// The rule's name.
    spec fn spec_name(&self) -> Seq<char>;

    /// The rule's configured weight, in micro-units.
    spec fn spec_weight(&self) -> int;

    /// What the rule may demand of its inputs before it is run.
    spec fn rating_requires(&self, worker: &WorkerDto, job: &JobDto) -> bool;

    /// The rating the rule assigns to the pair, in micro-units.
    spec fn spec_rating(&self, worker: &WorkerDto, job: &JobDto, config: &EvaluationConfig) -> int;

    /// The metrics the rule records for the pair under the policy.
    spec fn spec_metrics(&self, worker: &WorkerDto, job: &JobDto, config: &EvaluationConfig) -> Seq<
        (Seq<char>, int),
    >;

    fn get_name(&self) -> (r: &'static str)
        ensures
            r@ == self.spec_name(),
    ;

    fn get_weight(&self) -> (r: i64)
        ensures
            r as int == self.spec_weight(),
    ;

    fn determine_rating(&self, ctx: &EvaluationContext) -> (r: RatingResult)
        requires
            self.rating_requires(ctx.worker, ctx.job),
        ensures
            r.rating as int == self.spec_rating(ctx.worker, ctx.job, ctx.config),
            metrics_match(r.metrics@, self.spec_metrics(ctx.worker, ctx.job, ctx.config)),
    ;
}

/// A count shown as a fixed-point metric value, clamped to the metric range.
pub open spec fn metric_of_count(c: int) -> int {
    crate::fixed::sat_i64(c * 1000000)
}

/// Turns a count into a fixed-point metric value.
pub fn count_metric(c: usize) -> (r: i64)
    ensures
        r as int == metric_of_count(c as int),
{
    if (c as u64) > 9223372036854 {
        proof {
            assert(c as int * 1000000 > i64::MAX) by (nonlinear_arith)
                requires
                    c > 9223372036854,
            ;
        }
        i64::MAX
    } else {
        proof {
            assert(c as int * 1000000 <= 9223372036854000000int) by (nonlinear_arith)
                requires
                    0 <= c <= 9223372036854,
            ;
        }
        (c as i64) * 1000000
    }
}

} // verus!
