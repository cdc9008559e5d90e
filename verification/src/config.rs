//! Engine configuration, validated once at construction.

use crate::error::VerifierError;
use crate::fixed::{Decimal, FRACTIONAL};
use vstd::prelude::*;

verus! {

/// How accumulated votes are resolved into an accepted result.
#[derive(Clone, Debug)]
pub enum TallyStrategy {
    /// Operators must submit byte-identical results; a task finalizes when
    /// the operators sharing one result value together reach the required
    /// weight.
    ExactMatch,
    /// Operators submit numeric prices, aggregated by an unweighted median
    /// with tolerance bands around it.
    MedianSpread {
        /// Minimum fraction of all voting weight that must lie inside the
        /// allowed band, in (0, 1].
        threshold_percent: Decimal,
        /// Half-width of the acceptance band, as a fraction of the median,
        /// in (0, 1].
        allowed_spread: Decimal,
        /// Half-width of the band outside of which a voter is flagged for
        /// slashing, in (0, 1]; strictly wider than the allowed spread.
        slashable_spread: Decimal,
    },
}

/// Per-deployment configuration, threaded explicitly through every call.
#[derive(Clone, Debug)]
pub struct Config {
    /// The voting-power provider this engine asks for operator weights.
    pub operator_contract: String,
    /// Percentage of total weight, in (0, 100], a task needs before a
    /// result can be accepted; fixed when the task's first vote arrives.
    pub required_percentage: u32,
    /// The resolution strategy.
    pub strategy: TallyStrategy,
}

impl Config {
    /// All numeric parameters are in range: the percentage in (0, 100],
    /// the threshold and both spreads in (0, 1], and the slashable spread
    /// strictly wider than the allowed spread.
    pub open spec fn wf(self) -> bool {
        &&& 0 < self.required_percentage <= 100
        &&& match self.strategy {
            TallyStrategy::ExactMatch => true,
            TallyStrategy::MedianSpread { threshold_percent, allowed_spread, slashable_spread } => {
                &&& 0 < threshold_percent.atomics <= FRACTIONAL
                &&& 0 < allowed_spread.atomics <= FRACTIONAL
                &&& 0 < slashable_spread.atomics <= FRACTIONAL
                &&& slashable_spread.atomics > allowed_spread.atomics
            },
        }
    }

    /// Validates the parameters and builds the configuration; out-of-range
    /// parameters are rejected, and construction fails.
    pub fn new(operator_contract: String, required_percentage: u32, strategy: TallyStrategy) -> (r:
        Result<Config, VerifierError>)
        ensures
            ({
                let c = Config { operator_contract, required_percentage, strategy };
                if c.wf() {
                    r == Ok::<Config, VerifierError>(c)
                } else {
                    r == Err::<Config, VerifierError>(VerifierError::InvalidConfig)
                }
            }),
    {
        if required_percentage == 0 || required_percentage > 100 {
            return Err(VerifierError::InvalidConfig);
        }
        let ok = match &strategy {
            TallyStrategy::ExactMatch => true,
            TallyStrategy::MedianSpread { threshold_percent, allowed_spread, slashable_spread } => {
                let t = threshold_percent.atomics;
                let a = allowed_spread.atomics;
                let s = slashable_spread.atomics;
                0 < t && t <= FRACTIONAL && 0 < a && a <= FRACTIONAL && 0 < s && s <= FRACTIONAL
                    && s > a
            },
        };
        if ok {
            Ok(Config { operator_contract, required_percentage, strategy })
        } else {
            Err(VerifierError::InvalidConfig)
        }
    }
}

} // verus!
