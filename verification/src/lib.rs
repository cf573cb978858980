//! Ranked-choice (instant-runoff) election tabulation.
//!
//! Ballots are ordered lists of candidates. Each round every ballot votes for
//! its first candidate that has not been eliminated; a candidate that reaches
//! the majority threshold wins, several reaching it at once tie, and otherwise
//! every candidate on the lowest count is eliminated and the ballots are
//! counted again.

pub mod types;
pub mod model;
pub mod facts;
pub mod tally;
pub mod round;
pub mod election;
pub mod laws;
pub mod ballot;

pub use crate::types::{ElectionError, ElectionResult, MajorityMode};

pub use crate::election::run_election;
