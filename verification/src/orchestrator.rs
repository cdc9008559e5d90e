//! The verification orchestrator.
//!
//! One call records one operator's submission for one task: the task's
//! snapshot is loaded or frozen, the operator is checked for weight and
//! for an earlier vote, the submitted value is validated, and the
//! configured strategy decides whether the task finalizes. Answers from
//! the two outside collaborators — the task registry and the voting-power
//! provider — are handed in as plain values, so the whole decision is a
//! function of the engine's state and its arguments. Submissions against
//! a completed or expired task are a benign no-op, never an error.

use crate::config::{Config, TallyStrategy};
use crate::error::VerifierError;
use crate::fixed::Decimal;
use crate::jsonval::{json_is_valid, json_ok};
use crate::parse::{parse_price_result, spec_parse_price};
use crate::spread::{
    band_fits, lemma_sum_powers_nonneg, prices_of, process_votes, spec_band_hi, spec_band_lo,
    spec_slashable, spec_threshold_met, spec_valid_votes, sum_powers, total_vote_power,
    OperatorVote,
};
use crate::median::spec_median;
use crate::state::{
    group_weight, lemma_tasks_map_contains, lemma_tasks_map_index, lemma_votes_map_contains,
    lemma_votes_map_index, slashed_set, tallies_map, tasks_map, votes_map, TallyEntry, TaskEntry,
    Verifier, VoteEntry, VoteValue,
};
use crate::tasks::{derived_status, required_weight, spec_required_weight, TaskMetadata, TaskStatus};
use vstd::prelude::*;

verus! {

/// What the task registry reports about a task.
#[derive(Clone, Copy, Debug, PartialEq, Eq, Structural)]
pub struct TaskQueryResult {
    pub status: TaskStatus,
    /// The checkpoint the task was created at.
    pub created_height: u64,
    /// The time the task expires at.
    pub expires_time: u64,
}

/// The outside collaborators' answers that one submission needs: the
/// registry's report on the task, and the power provider's weights at the
/// task's creation checkpoint.
#[derive(Clone, Copy, Debug, PartialEq, Eq, Structural)]
pub struct ExternalFacts {
    pub task: TaskQueryResult,
    /// Total voting weight of all operators at the creation checkpoint.
    pub total_power: u128,
    /// The submitting operator's weight at the creation checkpoint.
    pub operator_power: u128,
}

/// What one accepted submission led to.
#[derive(Clone, Debug)]
pub enum VoteOutcome {
    /// The task is already completed or expired; nothing was recorded.
    /// Submissions racing a just-finalized task are expected, so this is
    /// an outcome, not an error.
    NotAccepted,
    /// The vote was recorded; the task stays open.
    VoteStored,
    /// The vote was recorded and the whole vote set was tallied, but the
    /// valid weight has not reached the threshold; the task stays open.
    ThresholdNotMet,
    /// The task finalized with this result; the caller dispatches it to
    /// the task registry.
    Finalized(VoteValue),
}

/// One task's standing, as a reader sees it: the derived status, the
/// frozen required weight, and — under exact-match — the running tally
/// behind each distinct result.
#[derive(Clone, Debug)]
pub struct TaskInfoResponse {
    pub status: TaskStatus,
    pub power_needed: u128,
    pub tallies: Vec<TaskTally>,
}

/// The accumulated weight behind one distinct result value.
#[derive(Clone, Debug)]
pub struct TaskTally {
    pub result: String,
    pub power: u128,
}

/// One operator's recorded vote, as a reader sees it.
#[derive(Clone, Debug)]
pub struct OperatorVoteInfoResponse {
    pub power: u128,
    pub result: VoteValue,
}

/// Membership of a ledger entry in one task's vote set.
pub open spec fn task_vote_pred(q: Seq<char>, task_id: u64) -> spec_fn(VoteEntry) -> bool {
    |e: VoteEntry| e.task_queue@ == q && e.task_id == task_id
}

/// The price a stored value carries; text values carry none.
pub open spec fn price_of(v: VoteValue) -> Decimal {
    match v {
        VoteValue::Price(d) => d,
        VoteValue::Text(_) => Decimal { atomics: 0 },
    }
}

/// A ledger entry as the median-spread strategy reads it.
pub open spec fn to_pair() -> spec_fn(VoteEntry) -> (String, OperatorVote) {
    |e: VoteEntry| (e.operator, OperatorVote { power: e.power, price: price_of(e.value) })
}

/// One task's recorded votes, in ledger order, as the median-spread
/// strategy reads them.
pub open spec fn vote_list(votes: Seq<VoteEntry>, q: Seq<char>, task_id: u64) -> Seq<
    (String, OperatorVote),
> {
    votes.filter(task_vote_pred(q, task_id)).map_values(to_pair())
}

/// Membership of a tally row in one task's tallies.
pub open spec fn task_tally_pred(q: Seq<char>, task_id: u64) -> spec_fn(TallyEntry) -> bool {
    |t: TallyEntry| t.task_queue@ == q && t.task_id == task_id
}

/// A tally row as a reader sees it.
pub open spec fn to_tally() -> spec_fn(TallyEntry) -> TaskTally {
    |t: TallyEntry| TaskTally { result: t.result, power: t.power }
}

/// One task's running tallies, in stored order.
pub open spec fn spec_task_tallies(s: Seq<TallyEntry>, q: Seq<char>, task_id: u64) -> Seq<
    TaskTally,
> {
    s.filter(task_tally_pred(q, task_id)).map_values(to_tally())
}

/// The snapshot frozen for a task on its first vote: the required weight
/// is fixed here, from the total weight at the creation checkpoint, and
/// never recomputed.
pub open spec fn spec_new_meta(config: Config, facts: ExternalFacts) -> TaskMetadata {
    TaskMetadata {
        power_required: spec_required_weight(
            facts.total_power as int,
            config.required_percentage as int,
        ) as u128,
        status: TaskStatus::Open,
        created_height: facts.task.created_height,
        expires_time: facts.task.expires_time,
    }
}

impl Verifier {
    /// Validates the configuration and builds a fresh engine with empty
    /// stores; out-of-range parameters abort construction.
    pub fn instantiate(
        operator_contract: String,
        required_percentage: u32,
        strategy: TallyStrategy,
    ) -> (r: Result<Verifier, VerifierError>)
        ensures
            ({
                let c = Config { operator_contract, required_percentage, strategy };
                match r {
                    Ok(v) => {
                        &&& c.wf()
                        &&& v.wf()
                        &&& v.config == c
                        &&& v.tasks@ == Seq::<TaskEntry>::empty()
                        &&& v.votes@ == Seq::<VoteEntry>::empty()
                        &&& v.tallies@.len() == 0
                        &&& v.slashed@.len() == 0
                    },
                    Err(e) => e == VerifierError::InvalidConfig && !c.wf(),
                }
            }),
    {
        let config = match Config::new(operator_contract, required_percentage, strategy) {
            Ok(c) => c,
            Err(e) => {
                return Err(e);
            },
        };
        let v = Verifier {
            config,
            tasks: Vec::new(),
            votes: Vec::new(),
            tallies: Vec::new(),
            slashed: Vec::new(),
        };
        Ok(v)
    }

    /// The active configuration.
    pub fn config(&self) -> (r: &Config)
        ensures
            r == self.config,
    {
        &self.config
    }

    /// One task's standing at time `now`: `None` for a task the engine
    /// has never seen. A stored `Open` task past its deadline reads as
    /// `Expired`; nothing is written.
    pub fn task_info(&self, task_queue: &String, task_id: u64, now: u64) -> (r: Option<
        TaskInfoResponse,
    >)
        requires
            self.wf(),
        ensures
            match r {
                Some(info) => {
                    &&& tasks_map(self.tasks@).contains_key((task_queue@, task_id))
                    &&& info.status == derived_status(
                        tasks_map(self.tasks@)[(task_queue@, task_id)],
                        now,
                    )
                    &&& info.power_needed == tasks_map(
                        self.tasks@,
                    )[(task_queue@, task_id)].power_required
                    &&& info.tallies@ == spec_task_tallies(self.tallies@, task_queue@, task_id)
                },
                None => !tasks_map(self.tasks@).contains_key((task_queue@, task_id)),
            },
    {
        let i = match self.find_task_index(task_queue, task_id) {
            Some(i) => i,
            None => {
                proof {
                    lemma_tasks_map_contains(self.tasks@, (task_queue@, task_id));
                }
                return None;
            },
        };
        proof {
            lemma_tasks_map_index(self.tasks@, i as int);
        }
        let meta = self.tasks[i].meta;
        let status = match meta.status {
            TaskStatus::Open => {
                if meta.is_expired(now) {
                    TaskStatus::Expired
                } else {
                    TaskStatus::Open
                }
            },
            TaskStatus::Completed => TaskStatus::Completed,
            TaskStatus::Expired => TaskStatus::Expired,
        };
        let ghost pred = task_tally_pred(task_queue@, task_id);
        let ghost f = to_tally();
        let mut tallies: Vec<TaskTally> = Vec::new();
        let mut k: usize = 0;
        proof {
            assert(self.tallies@.take(0).filter(pred) =~= Seq::<TallyEntry>::empty()) by {
                reveal(Seq::filter);
            }
            assert(tallies@ =~= self.tallies@.take(0).filter(pred).map_values(f));
        }
        while k < self.tallies.len()
            invariant
                0 <= k <= self.tallies@.len(),
                tallies@ == self.tallies@.take(k as int).filter(pred).map_values(f),
                pred == task_tally_pred(task_queue@, task_id),
                f == to_tally(),
            decreases self.tallies@.len() - k,
        {
            proof {
                reveal(Seq::filter);
                assert(self.tallies@.take(k + 1).drop_last() =~= self.tallies@.take(k as int));
                assert(self.tallies@.take(k + 1).last() == self.tallies@[k as int]);
            }
            let row_matches = self.tallies[k].task_queue == *task_queue && self.tallies[k].task_id
                == task_id;
            if row_matches {
                let row = TaskTally {
                    result: self.tallies[k].result.clone(),
                    power: self.tallies[k].power,
                };
                tallies.push(row);
                proof {
                    assert(self.tallies@.take(k + 1).filter(pred) =~= self.tallies@.take(
                        k as int,
                    ).filter(pred).push(self.tallies@[k as int]));
                    assert(TaskTally {
                        result: self.tallies@[k as int].result,
                        power: self.tallies@[k as int].power,
                    } == f(self.tallies@[k as int]));
                    assert(self.tallies@.take(k + 1).filter(pred).map_values(f)
                        =~= self.tallies@.take(k as int).filter(pred).map_values(f).push(
                        f(self.tallies@[k as int]),
                    ));
                }
            } else {
                proof {
                    assert(self.tallies@.take(k + 1).filter(pred) =~= self.tallies@.take(
                        k as int,
                    ).filter(pred));
                }
            }
            k = k + 1;
        }
        proof {
            assert(self.tallies@.take(self.tallies@.len() as int) =~= self.tallies@);
        }
        Some(TaskInfoResponse { status, power_needed: meta.power_required, tallies })
    }

    /// One operator's recorded vote on one task, if any.
    pub fn operator_vote(&self, task_queue: &String, task_id: u64, operator: &String) -> (r: Option<
        OperatorVoteInfoResponse,
    >)
        requires
            self.wf(),
        ensures
            match r {
                Some(v) => {
                    &&& votes_map(self.votes@).contains_key((task_queue@, task_id, operator@))
                    &&& v.power == votes_map(
                        self.votes@,
                    )[(task_queue@, task_id, operator@)].power
                    &&& v.result@ == votes_map(
                        self.votes@,
                    )[(task_queue@, task_id, operator@)].value
                },
                None => !votes_map(self.votes@).contains_key((task_queue@, task_id, operator@)),
            },
    {
        match self.find_vote_index(task_queue, task_id, operator) {
            Some(i) => {
                proof {
                    lemma_votes_map_index(self.votes@, i as int);
                }
                Some(
                    OperatorVoteInfoResponse {
                        power: self.votes[i].power,
                        result: self.votes[i].value.clone_value(),
                    },
                )
            },
            None => {
                proof {
                    lemma_votes_map_contains(self.votes@, (task_queue@, task_id, operator@));
                }
                None
            },
        }
    }

    /// Every operator flagged so far, in the order first flagged.
    pub fn slashable_operators(&self) -> (r: Vec<String>)
        ensures
            r@ == self.slashed@,
    {
        let mut out: Vec<String> = Vec::new();
        let mut i: usize = 0;
        proof {
            assert(out@ =~= self.slashed@.take(0));
        }
        while i < self.slashed.len()
            invariant
                0 <= i <= self.slashed@.len(),
                out@ == self.slashed@.take(i as int),
            decreases self.slashed@.len() - i,
        {
            out.push(self.slashed[i].clone());
            proof {
                assert(out@ =~= self.slashed@.take(i + 1));
            }
            i = i + 1;
        }
        proof {
            assert(self.slashed@.take(self.slashed@.len() as int) =~= self.slashed@);
        }
        out
    }

    /// The snapshot under which a submission proceeds, or `None` when the
    /// task is completed or expired: a stored snapshot is used as it
    /// stands (expiry is judged against the clock, nothing is written);
    /// with no snapshot, the registry's report decides, and a fresh
    /// snapshot is derived from it.
    pub open spec fn spec_gate(
        self,
        q: Seq<char>,
        task_id: u64,
        now: u64,
        facts: ExternalFacts,
    ) -> Option<TaskMetadata> {
        if tasks_map(self.tasks@).contains_key((q, task_id)) {
            let meta = tasks_map(self.tasks@)[(q, task_id)];
            if derived_status(meta, now) is Open {
                Some(meta)
            } else {
                None
            }
        } else {
            if facts.task.status is Open {
                Some(spec_new_meta(self.config, facts))
            } else {
                None
            }
        }
    }

    /// The admission decision for a submission, in order: a closed task
    /// is a benign no-op; an operator without weight is unauthorized; an
    /// operator with a recorded vote is a duplicate; otherwise the
    /// submission proceeds under the task's snapshot.
    pub open spec fn spec_check(
        self,
        q: Seq<char>,
        task_id: u64,
        o: Seq<char>,
        now: u64,
        facts: ExternalFacts,
    ) -> Result<Option<TaskMetadata>, VerifierError> {
        match self.spec_gate(q, task_id, now, facts) {
            None => Ok(None),
            Some(meta) => {
                if facts.operator_power == 0 {
                    Err(VerifierError::Unauthorized)
                } else if votes_map(self.votes@).contains_key((q, task_id, o)) {
                    Err(VerifierError::DuplicateVote)
                } else {
                    Ok(Some(meta))
                }
            },
        }
    }

    /// Loads the task's snapshot, or derives a fresh one from the
    /// registry's report; `None` when the task is completed or expired.
    /// Reading never writes: a stored `Open` task past its deadline is
    /// reported closed here while the store keeps saying `Open`.
    pub fn load_or_initialize_metadata(
        &self,
        task_queue: &String,
        task_id: u64,
        now: u64,
        facts: &ExternalFacts,
    ) -> (r: Option<TaskMetadata>)
        requires
            self.wf(),
        ensures
            r == self.spec_gate(task_queue@, task_id, now, *facts),
    {
        match self.find_task_index(task_queue, task_id) {
            Some(i) => {
                proof {
                    lemma_tasks_map_index(self.tasks@, i as int);
                }
                let meta = self.tasks[i].meta;
                match meta.status {
                    TaskStatus::Completed => None,
                    TaskStatus::Expired => None,
                    TaskStatus::Open => {
                        if meta.is_expired(now) {
                            None
                        } else {
                            Some(meta)
                        }
                    },
                }
            },
            None => {
                proof {
                    lemma_tasks_map_contains(self.tasks@, (task_queue@, task_id));
                }
                match facts.task.status {
                    TaskStatus::Open => Some(
                        TaskMetadata {
                            power_required: required_weight(
                                facts.total_power,
                                self.config.required_percentage,
                            ),
                            status: TaskStatus::Open,
                            created_height: facts.task.created_height,
                            expires_time: facts.task.expires_time,
                        },
                    ),
                    TaskStatus::Completed => None,
                    TaskStatus::Expired => None,
                }
            },
        }
    }

    /// Admits or rejects a submission before anything is written: `None`
    /// for a closed task, `Unauthorized` for an operator without weight,
    /// `DuplicateVote` for an operator that has voted — the stored vote
    /// is kept — and otherwise the snapshot to proceed under.
    pub fn ensure_valid_vote(
        &self,
        task_queue: &String,
        task_id: u64,
        operator: &String,
        now: u64,
        facts: &ExternalFacts,
    ) -> (r: Result<Option<TaskMetadata>, VerifierError>)
        requires
            self.wf(),
        ensures
            r == self.spec_check(task_queue@, task_id, operator@, now, *facts),
    {
        let meta = match self.load_or_initialize_metadata(task_queue, task_id, now, facts) {
            Some(m) => m,
            None => {
                return Ok(None);
            },
        };
        if facts.operator_power == 0 {
            return Err(VerifierError::Unauthorized);
        }
        match self.find_vote_index(task_queue, task_id, operator) {
            Some(i) => {
                proof {
                    lemma_votes_map_index(self.votes@, i as int);
                }
                Err(VerifierError::DuplicateVote)
            },
            None => {
                proof {
                    lemma_votes_map_contains(self.votes@, (task_queue@, task_id, operator@));
                }
                Ok(Some(meta))
            },
        }
    }

    /// Gathers one task's recorded votes, in ledger order.
    fn collect_task_votes(&self, task_queue: &String, task_id: u64) -> (r: Vec<
        (String, OperatorVote),
    >)
        requires
            self.wf(),
            self.config.strategy is MedianSpread,
        ensures
            r@ == vote_list(self.votes@, task_queue@, task_id),
    {
        let ghost pred = task_vote_pred(task_queue@, task_id);
        let ghost f = to_pair();
        let mut out: Vec<(String, OperatorVote)> = Vec::new();
        let mut i: usize = 0;
        proof {
            assert(self.votes@.take(0).filter(pred) =~= Seq::<VoteEntry>::empty()) by {
                reveal(Seq::filter);
            }
            assert(out@ =~= self.votes@.take(0).filter(pred).map_values(f));
        }
        while i < self.votes.len()
            invariant
                0 <= i <= self.votes@.len(),
                self.wf(),
                self.config.strategy is MedianSpread,
                out@ == self.votes@.take(i as int).filter(pred).map_values(f),
                pred == task_vote_pred(task_queue@, task_id),
                f == to_pair(),
            decreases self.votes@.len() - i,
        {
            proof {
                reveal(Seq::filter);
                assert(self.votes@.take(i + 1).drop_last() =~= self.votes@.take(i as int));
                assert(self.votes@.take(i + 1).last() == self.votes@[i as int]);
            }
            let matches_task = self.votes[i].task_queue == *task_queue && self.votes[i].task_id
                == task_id;
            if matches_task {
                let price = match &self.votes[i].value {
                    VoteValue::Price(d) => *d,
                    VoteValue::Text(_) => {
                        proof {
                            assert(false);
                        }
                        Decimal::from_atomics(0)
                    },
                };
                let name = self.votes[i].operator.clone();
                let power = self.votes[i].power;
                out.push((name, OperatorVote { power, price }));
                proof {
                    assert(self.votes@.take(i + 1).filter(pred) =~= self.votes@.take(
                        i as int,
                    ).filter(pred).push(self.votes@[i as int]));
                    assert((name, OperatorVote { power, price }) == f(self.votes@[i as int]));
                    assert(self.votes@.take(i + 1).filter(pred).map_values(f) =~= self.votes@.take(
                        i as int,
                    ).filter(pred).map_values(f).push(f(self.votes@[i as int])));
                }
            } else {
                proof {
                    assert(self.votes@.take(i + 1).filter(pred) =~= self.votes@.take(
                        i as int,
                    ).filter(pred));
                }
            }
            i = i + 1;
        }
        proof {
            assert(self.votes@.take(self.votes@.len() as int) =~= self.votes@);
        }
        out
    }

    /// Records one operator's submitted result for one task and applies
    /// the configured strategy, atomically: either an error is returned
    /// and nothing has changed, or the vote is recorded together with
    /// every consequence it has — the frozen snapshot, the tally, the
    /// completion, the flags. A completed or expired task gives the
    /// benign `NotAccepted` outcome and changes nothing.
    pub fn executed_task(
        &mut self,
        task_queue: String,
        task_id: u64,
        operator: String,
        result: String,
        now: u64,
        facts: &ExternalFacts,
    ) -> (r: Result<VoteOutcome, VerifierError>)
        requires
            old(self).wf(),
        ensures
            final(self).wf(),
            final(self).config == old(self).config,
            ({
                let q = task_queue@;
                let o = operator@;
                let power = facts.operator_power;
                match old(self).spec_check(q, task_id, o, now, *facts) {
                    Ok(None) => r == Ok::<VoteOutcome, VerifierError>(VoteOutcome::NotAccepted)
                        && *final(self) == *old(self),
                    Err(e) => r == Err::<VoteOutcome, VerifierError>(e) && *final(self) == *old(
                        self,
                    ),
                    Ok(Some(meta)) => match old(self).config.strategy {
                        TallyStrategy::ExactMatch => {
                            if !json_ok(result@) {
                                r == Err::<VoteOutcome, VerifierError>(
                                    VerifierError::InvalidResultFormat,
                                ) && *final(self) == *old(self)
                            } else {
                                let g0 = group_weight(old(self).votes@, q, task_id, result@);
                                if g0 + power > u128::MAX {
                                    r == Err::<VoteOutcome, VerifierError>(VerifierError::Overflow)
                                        && *final(self) == *old(self)
                                } else {
                                    let g = g0 + power;
                                    &&& final(self).votes@ == old(self).votes@.push(
                                        VoteEntry {
                                            task_queue,
                                            task_id,
                                            operator,
                                            power,
                                            value: VoteValue::Text(result),
                                        },
                                    )
                                    &&& tallies_map(final(self).tallies@) == tallies_map(
                                        old(self).tallies@,
                                    ).insert((q, task_id, result@), g as u128)
                                    &&& final(self).slashed == old(self).slashed
                                    &&& if g >= meta.power_required {
                                        tasks_map(final(self).tasks@) == tasks_map(
                                            old(self).tasks@,
                                        ).insert(
                                            (q, task_id),
                                            TaskMetadata {
                                                status: TaskStatus::Completed,
                                                ..meta
                                            },
                                        ) && r == Ok::<VoteOutcome, VerifierError>(
                                            VoteOutcome::Finalized(VoteValue::Text(result)),
                                        )
                                    } else {
                                        tasks_map(final(self).tasks@) == tasks_map(
                                            old(self).tasks@,
                                        ).insert((q, task_id), meta) && r == Ok::<
                                            VoteOutcome,
                                            VerifierError,
                                        >(VoteOutcome::VoteStored)
                                    }
                                }
                            }
                        },
                        TallyStrategy::MedianSpread {
                            threshold_percent,
                            allowed_spread,
                            slashable_spread,
                        } => {
                            match spec_parse_price(result@) {
                                None => r == Err::<VoteOutcome, VerifierError>(
                                    VerifierError::InvalidResultFormat,
                                ) && *final(self) == *old(self),
                                Some(p) => {
                                    if p == 0 {
                                        r == Err::<VoteOutcome, VerifierError>(
                                            VerifierError::ZeroPrice,
                                        ) && *final(self) == *old(self)
                                    } else {
                                        let price = Decimal { atomics: p as u128 };
                                        let entry = VoteEntry {
                                            task_queue,
                                            task_id,
                                            operator,
                                            power,
                                            value: VoteValue::Price(price),
                                        };
                                        let lst = vote_list(old(self).votes@, q, task_id).push(
                                            (operator, OperatorVote { power, price }),
                                        );
                                        let total = sum_powers(lst);
                                        if total > u128::MAX {
                                            r == Err::<VoteOutcome, VerifierError>(
                                                VerifierError::Overflow,
                                            ) && *final(self) == *old(self)
                                        } else if total < meta.power_required {
                                            &&& final(self).votes@ == old(self).votes@.push(entry)
                                            &&& tasks_map(final(self).tasks@) == tasks_map(
                                                old(self).tasks@,
                                            ).insert((q, task_id), meta)
                                            &&& final(self).tallies == old(self).tallies
                                            &&& final(self).slashed == old(self).slashed
                                            &&& r == Ok::<VoteOutcome, VerifierError>(
                                                VoteOutcome::VoteStored,
                                            )
                                        } else {
                                            let m = spec_median(prices_of(lst));
                                            if !(band_fits(m, allowed_spread.atomics as int)
                                                && band_fits(m, slashable_spread.atomics as int)) {
                                                r == Err::<VoteOutcome, VerifierError>(
                                                    VerifierError::Overflow,
                                                ) && *final(self) == *old(self)
                                            } else {
                                                let allowed_lo = Decimal {
                                                    atomics: spec_band_lo(
                                                        m,
                                                        allowed_spread.atomics as int,
                                                    ) as u128,
                                                };
                                                let allowed_hi = Decimal {
                                                    atomics: spec_band_hi(
                                                        m,
                                                        allowed_spread.atomics as int,
                                                    ) as u128,
                                                };
                                                let slash_lo = Decimal {
                                                    atomics: spec_band_lo(
                                                        m,
                                                        slashable_spread.atomics as int,
                                                    ) as u128,
                                                };
                                                let slash_hi = Decimal {
                                                    atomics: spec_band_hi(
                                                        m,
                                                        slashable_spread.atomics as int,
                                                    ) as u128,
                                                };
                                                let met = spec_threshold_met(
                                                    sum_powers(
                                                        spec_valid_votes(
                                                            lst,
                                                            allowed_lo,
                                                            allowed_hi,
                                                        ),
                                                    ),
                                                    total,
                                                    threshold_percent,
                                                );
                                                &&& final(self).votes@ == old(self).votes@.push(
                                                    entry,
                                                )
                                                &&& final(self).tallies == old(self).tallies
                                                &&& if met {
                                                    &&& tasks_map(final(self).tasks@) == tasks_map(
                                                        old(self).tasks@,
                                                    ).insert(
                                                        (q, task_id),
                                                        TaskMetadata {
                                                            status: TaskStatus::Completed,
                                                            ..meta
                                                        },
                                                    )
                                                    &&& slashed_set(final(self).slashed@)
                                                        == slashed_set(old(self).slashed@).union(
                                                        slashed_set(
                                                            spec_slashable(
                                                                lst,
                                                                slash_lo,
                                                                slash_hi,
                                                            ),
                                                        ),
                                                    )
                                                    &&& r == Ok::<VoteOutcome, VerifierError>(
                                                        VoteOutcome::Finalized(
                                                            VoteValue::Price(
                                                                Decimal { atomics: m as u128 },
                                                            ),
                                                        ),
                                                    )
                                                } else {
                                                    &&& tasks_map(final(self).tasks@) == tasks_map(
                                                        old(self).tasks@,
                                                    ).insert((q, task_id), meta)
                                                    &&& final(self).slashed == old(self).slashed
                                                    &&& r == Ok::<VoteOutcome, VerifierError>(
                                                        VoteOutcome::ThresholdNotMet,
                                                    )
                                                }
                                            }
                                        }
                                    }
                                },
                            }
                        },
                    },
                }
            }),
    {
        let meta = match self.ensure_valid_vote(&task_queue, task_id, &operator, now, facts) {
            Ok(Some(m)) => m,
            Ok(None) => {
                return Ok(VoteOutcome::NotAccepted);
            },
            Err(e) => {
                return Err(e);
            },
        };
        let power = facts.operator_power;
        let is_exact = match &self.config.strategy {
            TallyStrategy::ExactMatch => true,
            TallyStrategy::MedianSpread { .. } => false,
        };
        if is_exact {
            if !json_is_valid(result.as_str()) {
                return Err(VerifierError::InvalidResultFormat);
            }
            let tally = match self.record_vote(&task_queue, task_id, &operator, &result, power) {
                Ok(t) => t,
                Err(e) => {
                    return Err(e);
                },
            };
            if tally >= meta.power_required {
                let done = TaskMetadata { status: TaskStatus::Completed, ..meta };
                self.save_task(&task_queue, task_id, done);
                Ok(VoteOutcome::Finalized(VoteValue::Text(result)))
            } else {
                self.save_task(&task_queue, task_id, meta);
                Ok(VoteOutcome::VoteStored)
            }
        } else {
            let price = match parse_price_result(result.as_str()) {
                Some(p) => p,
                None => {
                    return Err(VerifierError::InvalidResultFormat);
                },
            };
            if price.is_zero() {
                return Err(VerifierError::ZeroPrice);
            }
            let mut all_votes = self.collect_task_votes(&task_queue, task_id);
            let ghost collected = all_votes@;
            all_votes.push((operator.clone(), OperatorVote { power, price }));
            proof {
                assert(all_votes@ =~= vote_list(self.votes@, task_queue@, task_id).push(
                    (operator, OperatorVote { power, price }),
                ));
            }
            let total = match total_vote_power(&all_votes) {
                Some(t) => t,
                None => {
                    return Err(VerifierError::Overflow);
                },
            };
            if total < meta.power_required {
                self.record_price_vote(&task_queue, task_id, &operator, price, power);
                self.save_task(&task_queue, task_id, meta);
                return Ok(VoteOutcome::VoteStored);
            }
            proof {
                assert(all_votes@.drop_last() =~= collected);
                lemma_sum_powers_nonneg(collected);
            }
            let (median, slashable, met) = match process_votes(&all_votes, total, &self.config) {
                Ok(x) => x,
                Err(e) => {
                    return Err(e);
                },
            };
            self.record_price_vote(&task_queue, task_id, &operator, price, power);
            if met {
                let ghost mid = *self;
                let mut i: usize = 0;
                proof {
                    assert(slashed_set(slashable@.take(0)) =~= Set::<Seq<char>>::empty());
                    assert(slashed_set(self.slashed@) =~= slashed_set(mid.slashed@).union(
                        slashed_set(slashable@.take(0)),
                    ));
                }
                while i < slashable.len()
                    invariant
                        0 <= i <= slashable@.len(),
                        self.wf(),
                        slashed_set(self.slashed@) == slashed_set(mid.slashed@).union(
                            slashed_set(slashable@.take(i as int)),
                        ),
                        self.config == mid.config,
                        self.tasks == mid.tasks,
                        self.votes == mid.votes,
                        self.tallies == mid.tallies,
                    decreases slashable@.len() - i,
                {
                    self.noop_slash_validator(&slashable[i]);
                    proof {
                        assert(slashable@.take(i + 1).drop_last() =~= slashable@.take(i as int));
                        assert(slashable@.take(i + 1).last() == slashable@[i as int]);
                        assert(slashed_set(self.slashed@) =~= slashed_set(mid.slashed@).union(
                            slashed_set(slashable@.take(i + 1)),
                        ));
                    }
                    i = i + 1;
                }
                proof {
                    assert(slashable@.take(slashable@.len() as int) =~= slashable@);
                }
                let done = TaskMetadata { status: TaskStatus::Completed, ..meta };
                self.save_task(&task_queue, task_id, done);
                Ok(VoteOutcome::Finalized(VoteValue::Price(median)))
            } else {
                self.save_task(&task_queue, task_id, meta);
                Ok(VoteOutcome::ThresholdNotMet)
            }
        }
    }
}

} // verus!
