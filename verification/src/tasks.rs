//! Task lifecycle data, frozen per task when its first vote arrives.

use vstd::arithmetic::div_mod::{
    lemma_fundamental_div_mod, lemma_fundamental_div_mod_converse_div,
};
use vstd::prelude::*;

verus! {

/// Lifecycle of a task. `Expired` is derived from the clock at read time;
/// the engine itself only ever stores `Open` and `Completed`.
#[derive(Clone, Copy, Debug, PartialEq, Eq, Structural)]
pub enum TaskStatus {
    Open,
    Completed,
    Expired,
}

/// The frozen per-task snapshot: the weight needed to finalize, the
/// checkpoint at which voting weights are measured, and the expiry time.
#[derive(Clone, Copy, Debug, PartialEq, Eq, Structural)]
pub struct TaskMetadata {
    /// Absolute weight a result needs before the task finalizes; computed
    /// once from the total weight at the creation checkpoint and never
    /// recomputed.
    pub power_required: u128,
    pub status: TaskStatus,
    /// The checkpoint (block height) the task was created at; every
    /// voter's weight is measured there.
    pub created_height: u64,
    /// The task expires once the current time reaches this value.
    pub expires_time: u64,
}

impl TaskMetadata {
    /// Whether the task's deadline has passed at time `now`.
    pub fn is_expired(&self, now: u64) -> (r: bool)
        ensures
            r == (now >= self.expires_time),
    {
        now >= self.expires_time
    }
}

/// The status a reader sees at time `now`: a stored `Open` task whose
/// deadline has passed reads as `Expired`, without any write.
pub open spec fn derived_status(meta: TaskMetadata, now: u64) -> TaskStatus {
    if meta.status is Open && now >= meta.expires_time {
        TaskStatus::Expired
    } else {
        meta.status
    }
}

/// The weight required to finalize: `total * pct / 100`, rounded up.
pub open spec fn spec_required_weight(total: int, pct: int) -> int {
    (total * pct + 99) / 100
}

/// Computes `required_weight = ceil(total * pct / 100)`. The result never
/// exceeds `total`, since `pct` is at most `100`.
pub fn required_weight(total: u128, pct: u32) -> (r: u128)
    requires
        0 < pct <= 100,
    ensures
        r == spec_required_weight(total as int, pct as int),
        r <= total,
{
    let q = total / 100;
    let rem = total % 100;
    proof {
        lemma_fundamental_div_mod(total as int, 100);
        assert(q * pct <= total && rem * pct + 99 < 100 * 100 + 99) by (nonlinear_arith)
            requires
                total == 100 * q + rem,
                0 <= rem < 100,
                0 < pct <= 100,
        ;
        let s = rem * (pct as int) + 99;
        lemma_fundamental_div_mod(s, 100);
        assert(total * pct + 99 == (q * pct + s / 100) * 100 + s % 100) by (nonlinear_arith)
            requires
                total == 100 * q + rem,
                s == rem * (pct as int) + 99,
                s == 100 * (s / 100) + s % 100,
        ;
        lemma_fundamental_div_mod_converse_div(
            total * (pct as int) + 99,
            100,
            q * (pct as int) + s / 100,
            s % 100,
        );
        assert(s / 100 <= rem) by {
            assert(s <= rem * 100 + 99) by (nonlinear_arith)
                requires
                    s == rem * (pct as int) + 99,
                    pct <= 100,
                    rem >= 0,
            ;
            assert((rem * 100 + 99) / 100 == rem) by {
                lemma_fundamental_div_mod_converse_div(rem * 100 + 99, 100, rem as int, 99);
            }
            vstd::arithmetic::div_mod::lemma_div_is_ordered(s, rem * 100 + 99, 100);
        }
        assert(q * pct + s / 100 <= total) by (nonlinear_arith)
            requires
                total == 100 * q + rem,
                0 <= rem < 100,
                0 < pct <= 100,
                s == rem * (pct as int) + 99,
                s / 100 <= rem,
        ;
    }
    let low = (rem * (pct as u128) + 99) / 100;
    q * (pct as u128) + low
}

} // verus!
