//! Process configuration: rule weights and service settings.

use vstd::prelude::*;

verus! {

/// The configured weight of each weighted rule, in micro-units.
#[derive(Debug)]
pub struct RatingWeights {
    pub available_on_start_days: i64,
    pub required_certificates: i64,
    pub job_location: i64,
    pub pay_rate: i64,
    pub job_positions: i64,
}

/// The whole process configuration.
#[derive(Debug)]
pub struct Config {
    pub app_name: String,
    pub jobs_to_return: u32,
    pub workers_to_return: u32,
    pub base_url: String,
    pub weights: RatingWeights,
}

} // verus!
