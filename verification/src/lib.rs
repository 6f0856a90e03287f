//! A verified statistics core for a streaming log analyzer.
//!
//! Log lines are classified into records, folded into a sliding time window,
//! and summarized once a second. The window keeps level counters, per-message
//! error histograms, fixed-point trend scores, and a self-adaptive window
//! length; the invariants tying those together are stated and proved here.

pub mod counts;
pub mod hist;
pub mod interner;
pub mod parser;
pub mod report;
pub mod stats;
pub mod trend;
pub mod types;
pub mod window;
