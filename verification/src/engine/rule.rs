//! The closed set of scoring strategies, and the production rule list.

use vstd::prelude::*;
use crate::config::RatingWeights;
use crate::distance::PythagorasDistanceEvaluator;
use crate::dto::{JobDto, WorkerDto};
use crate::engine::available_on_start_day::AvailableOnStartDay;
use crate::engine::can_drive::CanDrive;
use crate::engine::config::{EvaluationConfig, EvaluationContext};
use crate::engine::job_location::JobLocation;
use crate::engine::job_positions::JobPositions;
use crate::engine::match_rating::{metrics_match, MatchRating, RatingResult};
use crate::engine::pay_rate::PayRate;
use crate::engine::required_certificates::HasRequiredCertificates;

verus! {

/// One configured scoring strategy.
#[derive(Debug)]
pub enum Rule {
    AvailableOnStartDay(AvailableOnStartDay),
    HasRequiredCertificates(HasRequiredCertificates),
    JobLocation(JobLocation),
    PayRate(PayRate),
    CanDrive(CanDrive),
    JobPositions(JobPositions),
}

impl MatchRating for Rule {
    open spec fn spec_name(&self) -> Seq<char> {
        match self {
            Rule::AvailableOnStartDay(r) => r.spec_name(),
            Rule::HasRequiredCertificates(r) => r.spec_name(),
            Rule::JobLocation(r) => r.spec_name(),
            Rule::PayRate(r) => r.spec_name(),
            Rule::CanDrive(r) => r.spec_name(),
            Rule::JobPositions(r) => r.spec_name(),
        }
    }

    open spec fn spec_weight(&self) -> int {
        match self {
            Rule::AvailableOnStartDay(r) => r.spec_weight(),
            Rule::HasRequiredCertificates(r) => r.spec_weight(),
            Rule::JobLocation(r) => r.spec_weight(),
            Rule::PayRate(r) => r.spec_weight(),
            Rule::CanDrive(r) => r.spec_weight(),
            Rule::JobPositions(r) => r.spec_weight(),
        }
    }

    open spec fn rating_requires(&self, worker: &WorkerDto, job: &JobDto) -> bool {
        match self {
            Rule::AvailableOnStartDay(r) => r.rating_requires(worker, job),
            Rule::HasRequiredCertificates(r) => r.rating_requires(worker, job),
            Rule::JobLocation(r) => r.rating_requires(worker, job),
            Rule::PayRate(r) => r.rating_requires(worker, job),
            Rule::CanDrive(r) => r.rating_requires(worker, job),
            Rule::JobPositions(r) => r.rating_requires(worker, job),
        }
    }

    open spec fn spec_rating(
        &self,
        worker: &WorkerDto,
        job: &JobDto,
        config: &EvaluationConfig,
    ) -> int {
        match self {
            Rule::AvailableOnStartDay(r) => r.spec_rating(worker, job, config),
            Rule::HasRequiredCertificates(r) => r.spec_rating(worker, job, config),
            Rule::JobLocation(r) => r.spec_rating(worker, job, config),
            Rule::PayRate(r) => r.spec_rating(worker, job, config),
            Rule::CanDrive(r) => r.spec_rating(worker, job, config),
            Rule::JobPositions(r) => r.spec_rating(worker, job, config),
        }
    }

    open spec fn spec_metrics(
        &self,
        worker: &WorkerDto,
        job: &JobDto,
        config: &EvaluationConfig,
    ) -> Seq<(Seq<char>, int)> {
        match self {
            Rule::AvailableOnStartDay(r) => r.spec_metrics(worker, job, config),
            Rule::HasRequiredCertificates(r) => r.spec_metrics(worker, job, config),
            Rule::JobLocation(r) => r.spec_metrics(worker, job, config),
            Rule::PayRate(r) => r.spec_metrics(worker, job, config),
            Rule::CanDrive(r) => r.spec_metrics(worker, job, config),
            Rule::JobPositions(r) => r.spec_metrics(worker, job, config),
        }
    }

    fn get_name(&self) -> (r: &'static str)
        ensures
            r@ == self.spec_name(),
    {
        match self {
            Rule::AvailableOnStartDay(r) => r.get_name(),
            Rule::HasRequiredCertificates(r) => r.get_name(),
            Rule::JobLocation(r) => r.get_name(),
            Rule::PayRate(r) => r.get_name(),
            Rule::CanDrive(r) => r.get_name(),
            Rule::JobPositions(r) => r.get_name(),
        }
    }

    fn get_weight(&self) -> (r: i64)
        ensures
            r as int == self.spec_weight(),
    {
        match self {
            Rule::AvailableOnStartDay(r) => r.get_weight(),
            Rule::HasRequiredCertificates(r) => r.get_weight(),
            Rule::JobLocation(r) => r.get_weight(),
            Rule::PayRate(r) => r.get_weight(),
            Rule::CanDrive(r) => r.get_weight(),
            Rule::JobPositions(r) => r.get_weight(),
        }
    }

    fn determine_rating(&self, ctx: &EvaluationContext) -> (r: RatingResult)
        ensures
            r.rating as int == self.spec_rating(ctx.worker, ctx.job, ctx.config),
            metrics_match(r.metrics@, self.spec_metrics(ctx.worker, ctx.job, ctx.config)),
    {
        match self {
            Rule::AvailableOnStartDay(r) => r.determine_rating(ctx),
            Rule::HasRequiredCertificates(r) => r.determine_rating(ctx),
            Rule::JobLocation(r) => r.determine_rating(ctx),
            Rule::PayRate(r) => r.determine_rating(ctx),
            Rule::CanDrive(r) => r.determine_rating(ctx),
            Rule::JobPositions(r) => r.determine_rating(ctx),
        }
    }
}

/// The production rule list, in its fixed registration order.
pub fn build_match_ratings(weights: &RatingWeights) -> (r: Vec<Rule>)
    ensures
        r@.len() == 6,
        r@[0].spec_weight() == weights.available_on_start_days as int,
        r@[1].spec_weight() == weights.required_certificates as int,
        r@[2].spec_weight() == weights.job_location as int,
        r@[3].spec_weight() == weights.pay_rate as int,
        r@[4].spec_weight() == crate::fixed::RATING_SCALE as int,
        r@[5].spec_weight() == weights.job_positions as int,
        r@[0] matches Rule::AvailableOnStartDay(_),
        r@[1] matches Rule::HasRequiredCertificates(_),
        r@[2] matches Rule::JobLocation(_),
        r@[3] matches Rule::PayRate(_),
        r@[4] matches Rule::CanDrive(_),
        r@[5] matches Rule::JobPositions(_),
{
    let mut rules: Vec<Rule> = Vec::new();
    rules.push(Rule::AvailableOnStartDay(AvailableOnStartDay::new(weights.available_on_start_days)));
    rules.push(
        Rule::HasRequiredCertificates(HasRequiredCertificates::new(weights.required_certificates)),
    );
    rules.push(
        Rule::JobLocation(JobLocation::new(weights.job_location, PythagorasDistanceEvaluator::new())),
    );
    rules.push(Rule::PayRate(PayRate::new(weights.pay_rate)));
    rules.push(Rule::CanDrive(CanDrive::new()));
    rules.push(Rule::JobPositions(JobPositions::new(weights.job_positions)));
    rules
}

} // verus!
