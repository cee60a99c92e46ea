//! Scores a job by how close it lies to the worker's search area: full weight
//! at distance zero, falling off linearly to zero at the area's maximum
//! distance. Jobs beyond that distance, search areas in units other than
//! kilometres, and unparsable coordinates disqualify.

use vstd::prelude::*;
use crate::distance::{coords_ok, GeographicDistanceEvaluator, PythagorasDistanceEvaluator,
    sqrt_floor, squared_distance_micro};
use crate::dto::{JobDto, WorkerDto};
use crate::engine::config::{EvaluationConfig, EvaluationContext};
use crate::engine::match_rating::{metrics_match, MatchRating, RatingResult};
use crate::fixed::{sat_scale, sat_scale_div, RATING_SCALE};

verus! {

#[derive(Debug)]
pub struct JobLocation {
    pub weight_value: i64,
    pub distance_evaluator: PythagorasDistanceEvaluator,
}

impl JobLocation {
    pub fn new(weight: i64, distance_evaluator: PythagorasDistanceEvaluator) -> (r: JobLocation)
        ensures
            r.spec_weight() == weight as int,
    {
        JobLocation { weight_value: weight, distance_evaluator }
    }
}

/// The coordinates the rule reads are all acceptable.
pub open spec fn location_coords_ok(worker: &WorkerDto, job: &JobDto) -> bool {
    coords_ok(
        worker.job_search_address.latitude@,
        worker.job_search_address.longitude@,
        job.location.latitude@,
        job.location.longitude@,
    )
}

/// The distance between search-area centre and job site, in micro-kilometres.
pub open spec fn location_distance(worker: &WorkerDto, job: &JobDto) -> int {
    sqrt_floor(
        squared_distance_micro(
            worker.job_search_address.latitude@,
            worker.job_search_address.longitude@,
            job.location.latitude@,
            job.location.longitude@,
        ),
    )
}

/// Linear falloff from full weight at distance zero to nothing at the maximum
/// distance; disqualified outside the area, on a non-kilometre unit, on
/// unacceptable coordinates, and on a degenerate zero-sized area.
pub open spec fn job_location_rating(weight: int, worker: &WorkerDto, job: &JobDto) -> int {
    let max = worker.job_search_address.max_job_distance as int;
    if worker.job_search_address.unit@ != "km"@ {
        -(RATING_SCALE as int)
    } else if !location_coords_ok(worker, job) {
        -(RATING_SCALE as int)
    } else {
        let d = location_distance(worker, job);
        if d > max {
            -(RATING_SCALE as int)
        } else if max == 0 {
            -(RATING_SCALE as int)
        } else {
            sat_scale(weight, max - d, max)
        }
    }
}

pub open spec fn job_location_metrics(
    worker: &WorkerDto,
    job: &JobDto,
    config: &EvaluationConfig,
) -> Seq<(Seq<char>, int)> {
    if worker.job_search_address.unit@ != "km"@ || !location_coords_ok(worker, job)
        || !config.with_diagnosis {
        Seq::empty()
    } else {
        seq![
            ("distance"@, location_distance(worker, job)),
            ("maxJobDistance"@, worker.job_search_address.max_job_distance as int),
        ]
    }
}

impl MatchRating for JobLocation {
    open spec fn spec_name(&self) -> Seq<char> {
        "JobLocation"@
    }

    open spec fn spec_weight(&self) -> int {
        self.weight_value as int
    }

    open spec fn rating_requires(&self, worker: &WorkerDto, job: &JobDto) -> bool {
        true
    }

    open spec fn spec_rating(
        &self,
        worker: &WorkerDto,
        job: &JobDto,
        config: &EvaluationConfig,
    ) -> int {
        job_location_rating(self.weight_value as int, worker, job)
    }

    open spec fn spec_metrics(
        &self,
        worker: &WorkerDto,
        job: &JobDto,
        config: &EvaluationConfig,
    ) -> Seq<(Seq<char>, int)> {
        job_location_metrics(worker, job, config)
    }

    fn get_name(&self) -> (r: &'static str)
        ensures
            r@ == self.spec_name(),
    {
        "JobLocation"
    }

    fn get_weight(&self) -> (r: i64)
        ensures
            r as int == self.spec_weight(),
    {
        self.weight_value
    }

    fn determine_rating(&self, ctx: &EvaluationContext) -> (r: RatingResult)
        ensures
            r.rating as int == self.spec_rating(ctx.worker, ctx.job, ctx.config),
            metrics_match(r.metrics@, self.spec_metrics(ctx.worker, ctx.job, ctx.config)),
    {
        let km = String::from_str("km");
        if !(ctx.worker.job_search_address.unit == km) {
            return RatingResult { rating: -RATING_SCALE, metrics: Vec::new() };
        }

        let distance = match self.distance_evaluator.determine_distance(
            &ctx.worker.job_search_address,
            &ctx.job.location,
        ) {
            Ok(d) => d,
            Err(_) => {
                return RatingResult { rating: -RATING_SCALE, metrics: Vec::new() };
            },
        };

        let max = ctx.worker.job_search_address.max_job_distance;
        let mut metrics: Vec<(String, i64)> = Vec::new();
        if ctx.config.with_diagnosis {
            metrics.push((String::from_str("distance"), distance));
            metrics.push((String::from_str("maxJobDistance"), max));
        }
        if distance > max {
            return RatingResult { rating: -RATING_SCALE, metrics };
        }
        if max == 0 {
            return RatingResult { rating: -RATING_SCALE, metrics };
        }
        let rating = sat_scale_div(self.weight_value, max - distance, max);
        RatingResult { rating, metrics }
    }
}

} // verus!
