//! The driving-licence gate: never contributes a positive score, only
//! disqualifies a worker who lacks a licence the job requires.

use vstd::prelude::*;
use crate::dto::{JobDto, WorkerDto};
use crate::engine::config::{EvaluationConfig, EvaluationContext};
use crate::engine::match_rating::{metric_of_count, MatchRating, RatingResult};
use crate::fixed::RATING_SCALE;

verus! {

#[derive(Debug)]
pub struct CanDrive {}

impl CanDrive {
    pub fn new() -> (r: CanDrive)
        ensures
            r == (CanDrive {  }),
    {
        CanDrive {  }
    }
}

pub open spec fn can_drive_rating(worker: &WorkerDto, job: &JobDto) -> int {
    if job.driver_license_required && !worker.has_drivers_license {
        -(RATING_SCALE as int)
    } else {
        0
    }
}

pub open spec fn can_drive_metrics(
    worker: &WorkerDto,
    job: &JobDto,
    config: &EvaluationConfig,
) -> Seq<(Seq<char>, int)> {
    if config.with_diagnosis {
        seq![
            ("driversLicenseRequired"@, if job.driver_license_required { metric_of_count(1) } else { 0int }),
            ("hasDriversLicense"@, if worker.has_drivers_license { metric_of_count(1) } else { 0int }),
        ]
    } else {
        Seq::empty()
    }
}

impl MatchRating for CanDrive {
    open spec fn spec_name(&self) -> Seq<char> {
        "CanDrive"@
    }

    open spec fn spec_weight(&self) -> int {
        RATING_SCALE as int
    }

    open spec fn rating_requires(&self, worker: &WorkerDto, job: &JobDto) -> bool {
        true
    }

    open spec fn spec_rating(
        &self,
        worker: &WorkerDto,
        job: &JobDto,
        config: &EvaluationConfig,
    ) -> int {
        can_drive_rating(worker, job)
    }

    open spec fn spec_metrics(
        &self,
        worker: &WorkerDto,
        job: &JobDto,
        config: &EvaluationConfig,
    ) -> Seq<(Seq<char>, int)> {
        can_drive_metrics(worker, job, config)
    }

    fn get_name(&self) -> (r: &'static str)
        ensures
            r@ == self.spec_name(),
    {
        "CanDrive"
    }

    fn get_weight(&self) -> (r: i64)
        ensures
            r as int == self.spec_weight(),
    {
        RATING_SCALE
    }

    fn determine_rating(&self, ctx: &EvaluationContext) -> (r: RatingResult)
        ensures
            r.rating as int == self.spec_rating(ctx.worker, ctx.job, ctx.config),
            crate::engine::match_rating::metrics_match(
                r.metrics@,
                self.spec_metrics(ctx.worker, ctx.job, ctx.config),
            ),
    {
        let mut metrics: Vec<(String, i64)> = Vec::new();
        if ctx.config.with_diagnosis {
            metrics.push(
                (
                    String::from_str("driversLicenseRequired"),
                    if ctx.job.driver_license_required {
                        RATING_SCALE
                    } else {
                        0
                    },
                ),
            );
            metrics.push(
                (
                    String::from_str("hasDriversLicense"),
                    if ctx.worker.has_drivers_license {
                        RATING_SCALE
                    } else {
                        0
                    },
                ),
            );
        }
        let rating = if ctx.job.driver_license_required && !ctx.worker.has_drivers_license {
            -RATING_SCALE
        } else {
            0
        };
        RatingResult { rating, metrics }
    }
}

} // verus!
