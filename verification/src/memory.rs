//! Memory domain types: tiers, scopes, edge kinds, compaction jobs and the
//! counters reported by memory maintenance.

pub mod types;
pub mod episodes;
pub mod retrieval;
pub mod segmentation;
pub mod compression;
pub mod two_stage;
pub mod sealing;
