//! A weighted-vote verification and consensus tally engine.
//!
//! A set of weighted participants ("operators") each submit a candidate
//! result for a task. The engine records at most one vote per operator per
//! task, freezes the weight required to finalize a task when the first vote
//! arrives, and decides acceptance with one of two strategies: exact-match
//! agreement on the submitted bytes, or a numeric median with configurable
//! tolerance bands and outlier flagging.
//!
//! All queries to the outside world (the task registry and the voting-power
//! provider) are passed in as plain values, so every decision the engine
//! makes is a deterministic, verified function of its state and its inputs.

pub mod config;
pub mod error;
pub mod fixed;
pub mod jsonval;
pub mod median;
pub mod orchestrator;
pub mod parse;
pub mod spread;
pub mod state;
pub mod tasks;

pub use config::{Config, TallyStrategy};
pub use error::VerifierError;
pub use fixed::Decimal;
pub use orchestrator::{ExternalFacts, TaskQueryResult, VoteOutcome};
pub use state::{TallyEntry, TaskEntry, Verifier, VoteEntry, VoteValue};
pub use tasks::{TaskMetadata, TaskStatus};
