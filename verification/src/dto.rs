//! The entities and result records the matching core works on.
//!
//! Every numeric score field is a fixed-point value in micro-units (see
//! [`crate::fixed::RATING_SCALE`]): weights, ratings, metric values and the
//! maximum job distance. Coordinates stay as the strings they arrive in and
//! are parsed where they are used.

use vstd::prelude::*;
use crate::dates::StartDate;

verus! {

/// A point on the map, both coordinates as decimal-degree strings.
#[derive(Debug)]
pub struct GeographicLocationDto {
    pub latitude: String,
    pub longitude: String,
}

/// A job opening, already resolved by the caller.
#[derive(Debug)]
pub struct JobDto {
    pub job_id: u32,
    pub guid: String,
    pub location: GeographicLocationDto,
    pub bill_rate: String,
    pub workers_required: u32,
    pub driver_license_required: bool,
    pub required_certificates: Vec<String>,
    pub start_date: StartDate,
    pub about: String,
    pub company: String,
}

/// A worker's name.
#[derive(Debug)]
pub struct NameDto {
    pub first: String,
    pub last: String,
}

/// Where a worker searches for jobs: a centre point, a maximum distance in
/// micro-kilometres, and the unit that distance is expressed in.
#[derive(Debug)]
pub struct GeographicAreaDto {
    pub latitude: String,
    pub longitude: String,
    pub max_job_distance: i64,
    pub unit: String,
}

/// One weekday of a worker's availability; Monday is 1, Sunday is 7.
#[derive(Debug)]
pub struct DayDto {
    pub title: String,
    pub day_index: u32,
}

/// A worker, already resolved by the caller.
#[derive(Debug)]
pub struct WorkerDto {
    pub guid: String,
    pub user_id: u32,
    pub active: bool,
    pub phone: String,
    pub email: String,
    pub name: NameDto,
    pub age: u32,
    pub rating: u32,
    pub certificates: Vec<Option<String>>,
    pub skills: Vec<String>,
    pub job_search_address: GeographicAreaDto,
    pub transportation: String,
    pub has_drivers_license: bool,
    pub availability: Vec<Option<DayDto>>,
}

/// A rule's name and configured weight, for discovery endpoints.
#[derive(Debug)]
pub struct RuleConfigDto {
    pub name: String,
    pub weight: i64,
}

/// One rule's contribution to a match, with its optional diagnostic metrics
/// in insertion order.
#[derive(Debug)]
pub struct RuleResultDto {
    pub rule_name: String,
    pub weight: i64,
    pub rating: i64,
    pub metrics: Vec<(String, i64)>,
}

/// The combined score of one worker/job pair, with the per-rule trail.
#[derive(Debug)]
pub struct MatchScoreDto {
    pub worker_id: u32,
    pub job_id: u32,
    pub rating: i64,
    pub rule_results: Vec<RuleResultDto>,
}

/// Ranked jobs for one worker, with how long the ranking took.
#[derive(Debug)]
pub struct StackDiagnosisResponse {
    pub jobs: Vec<MatchScoreDto>,
    pub calculation_time_ms: u128,
}

/// Ranked workers for one job, with how long the ranking took.
#[derive(Debug)]
pub struct WorkersDiagnosisResponse {
    pub workers: Vec<MatchScoreDto>,
    pub calculation_time_ms: u128,
}

} // verus!
