//! The rule engine: the rule capability, the evaluation context, and the six
//! concrete scoring strategies.

pub mod available_on_start_day;
pub mod can_drive;
pub mod config;
pub mod job_location;
pub mod job_positions;
pub mod match_rating;
pub mod pay_rate;
pub mod required_certificates;
pub mod rule;
