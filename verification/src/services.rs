//! The services built on the rule engine: scoring, ranking and counting.

pub mod job_match;
pub mod rules;
pub mod worker_match;
