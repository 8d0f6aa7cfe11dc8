//! The load run: what it sends, what it asks, and what it makes of the answers.

pub mod answer_laws;
pub mod answers;
pub mod closed_loop;
pub mod config;
pub mod config_laws;
pub mod laws;
pub mod matrix;
pub mod matrix_laws;
pub mod probe;
pub mod probe_laws;
pub mod queries;
pub mod readiness;
pub mod report;
pub mod stats;
pub mod tally;
pub mod verdict;
pub mod workload;
