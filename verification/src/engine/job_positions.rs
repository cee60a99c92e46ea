//! Scores a job by how many positions it has open.

use vstd::prelude::*;
use crate::dto::{JobDto, WorkerDto};
use crate::engine::config::{EvaluationConfig, EvaluationContext};
use crate::engine::match_rating::{count_metric, metric_of_count, metrics_match, MatchRating,
    RatingResult};
use crate::fixed::{sat_mul, sat_prod};

verus! {

#[derive(Debug)]
pub struct JobPositions {
    pub weight_value: i64,
}

impl JobPositions {
    pub fn new(weight: i64) -> (r: JobPositions)
        ensures
            r.spec_weight() == weight as int,
    {
        JobPositions { weight_value: weight }
    }
}

/// The weight multiplied by the number of open positions, clamped.
pub open spec fn job_positions_rating(weight: int, job: &JobDto) -> int {
    sat_prod(weight, job.workers_required as int)
}

pub open spec fn job_positions_metrics(job: &JobDto, config: &EvaluationConfig) -> Seq<
    (Seq<char>, int),
> {
    if config.with_diagnosis {
        seq![("workersRequired"@, metric_of_count(job.workers_required as int))]
    } else {
        Seq::empty()
    }
}

impl MatchRating for JobPositions {
    open spec fn spec_name(&self) -> Seq<char> {
        "JobPositions"@
    }

    open spec fn spec_weight(&self) -> int {
        self.weight_value as int
    }

    open spec fn rating_requires(&self, worker: &WorkerDto, job: &JobDto) -> bool {
        true
    }

    open spec fn spec_rating(
        &self,
        worker: &WorkerDto,
        job: &JobDto,
        config: &EvaluationConfig,
    ) -> int {
        job_positions_rating(self.weight_value as int, job)
    }

    open spec fn spec_metrics(
        &self,
        worker: &WorkerDto,
        job: &JobDto,
        config: &EvaluationConfig,
    ) -> Seq<(Seq<char>, int)> {
        job_positions_metrics(job, config)
    }

    fn get_name(&self) -> (r: &'static str)
        ensures
            r@ == self.spec_name(),
    {
        "JobPositions"
    }

    fn get_weight(&self) -> (r: i64)
        ensures
            r as int == self.spec_weight(),
    {
        self.weight_value
    }

    fn determine_rating(&self, ctx: &EvaluationContext) -> (r: RatingResult)
        ensures
            r.rating as int == self.spec_rating(ctx.worker, ctx.job, ctx.config),
            metrics_match(r.metrics@, self.spec_metrics(ctx.worker, ctx.job, ctx.config)),
    {
        let mut metrics: Vec<(String, i64)> = Vec::new();
        if ctx.config.with_diagnosis {
            metrics.push(
                (String::from_str("workersRequired"), count_metric(ctx.job.workers_required as usize)),
            );
        }
        let count: i64 = ctx.job.workers_required as i64;
        let rating = sat_mul(self.weight_value, count);
        RatingResult { rating, metrics }
    }
}

} // verus!
