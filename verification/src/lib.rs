//! A job-matching core: a fixed-capacity top-K heap, a weighted rule engine,
//! and a ranker that scores candidates and returns the best matches.
//!
//! All scores are fixed-point numbers in micro-units (see [`fixed`]); entity
//! data arrives already resolved (see [`dto`]).

pub mod capped_heap;
pub mod config;
pub mod dates;
pub mod decimal;
pub mod distance;
pub mod dto;
pub mod engine;
pub mod errors;
pub mod fixed;
pub mod repository;
pub mod services;
