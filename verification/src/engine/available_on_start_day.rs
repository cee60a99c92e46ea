//! Scores a worker by whether their availability covers the weekday the job
//! starts on.

use vstd::prelude::*;
use crate::dates::weekday_of;
use crate::dto::{DayDto, JobDto, WorkerDto};
use crate::engine::config::{EvaluationConfig, EvaluationContext};
use crate::engine::match_rating::{count_metric, metric_of_count, metrics_match, MatchRating,
    RatingResult};

verus! {

#[derive(Debug)]
pub struct AvailableOnStartDay {
    pub weight_value: i64,
}

impl AvailableOnStartDay {
    pub fn new(weight_value: i64) -> (r: AvailableOnStartDay)
        ensures
            r.spec_weight() == weight_value as int,
    {
        AvailableOnStartDay { weight_value }
    }
}

/// How many availability entries name the given weekday index.
pub open spec fn day_match_count(av: Seq<Option<DayDto>>, idx: int) -> int
    decreases av.len(),
{
    if av.len() == 0 {
        0
    } else {
        day_match_count(av.drop_last(), idx) + if av.last().is_some() && av.last().unwrap().day_index as int
            == idx {
            1int
        } else {
            0int
        }
    }
}

/// The weekday index the job starts on.
pub open spec fn job_weekday(job: &JobDto) -> int {
    weekday_of(job.start_date.year as int, job.start_date.month as int, job.start_date.day as int)
}

/// The weight when the worker is available on the job's start weekday,
/// zero otherwise.
pub open spec fn available_rating(weight: int, worker: &WorkerDto, job: &JobDto) -> int {
    if day_match_count(worker.availability@, job_weekday(job)) > 0 {
        weight
    } else {
        0
    }
}

pub open spec fn available_metrics(
    worker: &WorkerDto,
    job: &JobDto,
    config: &EvaluationConfig,
) -> Seq<(Seq<char>, int)> {
    if config.with_diagnosis {
        seq![
            ("hasStartDay"@, metric_of_count(day_match_count(worker.availability@, job_weekday(job)))),
        ]
    } else {
        Seq::empty()
    }
}

impl MatchRating for AvailableOnStartDay {
    open spec fn spec_name(&self) -> Seq<char> {
        "AvailableOnStartDay"@
    }

    open spec fn spec_weight(&self) -> int {
        self.weight_value as int
    }

    open spec fn rating_requires(&self, worker: &WorkerDto, job: &JobDto) -> bool {
        job.start_date.valid()
    }

    open spec fn spec_rating(
        &self,
        worker: &WorkerDto,
        job: &JobDto,
        config: &EvaluationConfig,
    ) -> int {
        available_rating(self.weight_value as int, worker, job)
    }

    open spec fn spec_metrics(
        &self,
        worker: &WorkerDto,
        job: &JobDto,
        config: &EvaluationConfig,
    ) -> Seq<(Seq<char>, int)> {
        available_metrics(worker, job, config)
    }

    fn get_name(&self) -> (r: &'static str)
        ensures
            r@ == self.spec_name(),
    {
        "AvailableOnStartDay"
    }

    fn get_weight(&self) -> (r: i64)
        ensures
            r as int == self.spec_weight(),
    {
        self.weight_value
    }

    fn determine_rating(&self, ctx: &EvaluationContext) -> (r: RatingResult)
        ensures
            r.rating as int == self.spec_rating(ctx.worker, ctx.job, ctx.config),
            metrics_match(r.metrics@, self.spec_metrics(ctx.worker, ctx.job, ctx.config)),
    {
        let day_required_idx = ctx.job.start_date.weekday_number();
        let av = &ctx.worker.availability;
        let n = av.len();
        let mut has_start_day: usize = 0;
        let mut i: usize = 0;
        while i < n
            invariant
                0 <= i <= n,
                n == av@.len(),
                has_start_day <= i,
                day_required_idx as int == job_weekday(ctx.job),
                has_start_day as int == day_match_count(av@.take(i as int), day_required_idx as int),
        decreases n - i,
        {
            let matched = match &av[i] {
                Some(day) => day.day_index == day_required_idx,
                None => false,
            };
            proof {
                assert(av@.take(i + 1).drop_last() =~= av@.take(i as int));
                assert(av@.take(i + 1).last() == av@[i as int]);
            }
            if matched {
                has_start_day = has_start_day + 1;
            }
            i = i + 1;
        }
        proof {
            assert(av@.take(n as int) =~= av@);
        }

        let rating = if has_start_day > 0 {
            self.weight_value
        } else {
            0
        };
        let mut metrics: Vec<(String, i64)> = Vec::new();
        if ctx.config.with_diagnosis {
            metrics.push((String::from_str("hasStartDay"), count_metric(has_start_day)));
        }
        RatingResult { rating, metrics }
    }
}

} // verus!
