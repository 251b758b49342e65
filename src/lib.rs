//! Hierarchical cascade classification over a taxonomy of domains, areas and
//! topics, with fixed-point cosine similarity search over flat vector tables.
//!
//! Vectors hold `i16` coordinates and scores are integers in which
//! `similarity::SCORE_SCALE` stands for a cosine of one. `similarity` is the
//! kernel; `rank` the stable descending ranking that every search returns;
//! `table` and `taxonomy` the two stores; `cascade` the specification of the
//! greedy domain, area, topic and leaf narrowing, which `classifier` implements;
//! `sources` the bulk loads; `laws` the properties proved of them.

pub mod similarity;
pub mod rank;
pub mod text;
pub mod table;
pub mod order;
pub mod taxonomy;
pub mod cascade;
pub mod classifier;
pub mod sources;
pub mod ids;
pub mod laws;
pub mod clock;
pub mod model;
pub mod stats;
pub mod config;
pub mod service;

pub use cascade::{CascadeResult, CascadeStatus, PatternMatch, TraceStep};
pub use classifier::HierarchicalClassifier;
pub use config::Config;
pub use stats::StatsTracker;
