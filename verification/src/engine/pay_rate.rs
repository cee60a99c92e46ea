//! Scores a job by its bill rate: the weight multiplied by the parsed rate.
//! A rate that does not parse yields a rating of zero, never a
//! disqualification.

use vstd::prelude::*;
use crate::decimal::{decimal_micro, decimal_micro_mag, decimal_shape, parse_decimal_micro};
use crate::dto::{JobDto, WorkerDto};
use crate::engine::config::{EvaluationConfig, EvaluationContext};
use crate::engine::match_rating::{metrics_match, MatchRating, RatingResult};
use crate::fixed::{fixed_mul, fixed_mul_spec};

verus! {

#[derive(Debug)]
pub struct PayRate {
    pub weight_value: i64,
}

impl PayRate {
    pub fn new(weight: i64) -> (r: PayRate)
        ensures
            r.spec_weight() == weight as int,
    {
        PayRate { weight_value: weight }
    }
}

/// The bill-rate string with every leading currency symbol removed.
pub open spec fn strip_dollars(s: Seq<char>) -> Seq<char>
    decreases s.len(),
{
    if s.len() > 0 && s[0] == '$' {
        strip_dollars(s.skip(1))
    } else {
        s
    }
}

/// The stripped bill rate parses as a decimal within the fixed-point range.
pub open spec fn bill_rate_ok(job: &JobDto) -> bool {
    &&& decimal_shape(strip_dollars(job.bill_rate@))
    &&& decimal_micro_mag(strip_dollars(job.bill_rate@)) <= i64::MAX
}

/// Weight times the parsed rate when the rate parses, zero otherwise.
pub open spec fn pay_rate_rating(weight: int, job: &JobDto) -> int {
    if bill_rate_ok(job) {
        fixed_mul_spec(weight, decimal_micro(strip_dollars(job.bill_rate@)))
    } else {
        0
    }
}

pub open spec fn pay_rate_metrics(job: &JobDto, config: &EvaluationConfig) -> Seq<
    (Seq<char>, int),
> {
    if bill_rate_ok(job) && config.with_diagnosis {
        seq![("billRate"@, decimal_micro(strip_dollars(job.bill_rate@)))]
    } else {
        Seq::empty()
    }
}

/// Skips the leading currency symbols of a bill-rate string.
fn strip_leading_dollars<'a>(s: &'a str) -> (r: &'a str)
    ensures
        r@ == strip_dollars(s@),
{
    let n = s.unicode_len();
    let mut i: usize = 0;
    proof {
        assert(s@.skip(0) =~= s@);
    }
    while i < n && s.get_char(i) == '$'
        invariant
            0 <= i <= n,
            n == s@.len(),
            strip_dollars(s@) == strip_dollars(s@.skip(i as int)),
        decreases n - i,
    {
        proof {
            assert(s@.skip(i as int)[0] == s@[i as int]);
            assert(s@.skip(i as int).skip(1) =~= s@.skip(i + 1));
        }
        i = i + 1;
    }
    let r = s.substring_char(i, n);
    proof {
        assert(r@ =~= s@.skip(i as int));
        if i < n {
            assert(s@.skip(i as int)[0] == s@[i as int]);
        }
    }
    r
}

impl MatchRating for PayRate {
    open spec fn spec_name(&self) -> Seq<char> {
        "PayRate"@
    }

    open spec fn spec_weight(&self) -> int {
        self.weight_value as int
    }

    open spec fn rating_requires(&self, worker: &WorkerDto, job: &JobDto) -> bool {
        true
    }

    open spec fn spec_rating(
        &self,
        worker: &WorkerDto,
        job: &JobDto,
        config: &EvaluationConfig,
    ) -> int {
        pay_rate_rating(self.weight_value as int, job)
    }

    open spec fn spec_metrics(
        &self,
        worker: &WorkerDto,
        job: &JobDto,
        config: &EvaluationConfig,
    ) -> Seq<(Seq<char>, int)> {
        pay_rate_metrics(job, config)
    }

    fn get_name(&self) -> (r: &'static str)
        ensures
            r@ == self.spec_name(),
    {
        "PayRate"
    }

    fn get_weight(&self) -> (r: i64)
        ensures
            r as int == self.spec_weight(),
    {
        self.weight_value
    }

    fn determine_rating(&self, ctx: &EvaluationContext) -> (r: RatingResult)
        ensures
            r.rating as int == self.spec_rating(ctx.worker, ctx.job, ctx.config),
            metrics_match(r.metrics@, self.spec_metrics(ctx.worker, ctx.job, ctx.config)),
    {
        let stripped = strip_leading_dollars(ctx.job.bill_rate.as_str());
        let rate = match parse_decimal_micro(stripped) {
            Ok(v) => v,
            Err(_) => {
                return RatingResult { rating: 0, metrics: Vec::new() };
            },
        };
        let mut metrics: Vec<(String, i64)> = Vec::new();
        if ctx.config.with_diagnosis {
            metrics.push((String::from_str("billRate"), rate));
        }
        let rating = fixed_mul(self.weight_value, rate);
        RatingResult { rating, metrics }
    }
}

} // verus!
