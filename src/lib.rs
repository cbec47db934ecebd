//! Data acquisition and aggregation for a periodic game-statistics harvest:
//! badge deduplication, medal rarity, ranking records, throughput estimates
//! and the decisions of a harvest cycle.
pub mod badge;
pub mod client;
pub mod config;
pub mod cycle;
pub mod eta;
pub mod hasher;
pub mod medal;
pub mod progress;
pub mod ranking;
pub mod rarity;
pub mod schedule;
pub mod task;
pub mod text;
pub mod user;
