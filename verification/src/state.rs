//! The engine's persisted state: per-task snapshots, the vote ledger, the
//! running per-result tallies of the exact-match strategy, and the record
//! of flagged operators.
//!
//! Each store is kept as a vector of entries with pairwise distinct keys
//! and is specified through a finite map (or set) over the keys' views.

use crate::config::{Config, TallyStrategy};
use crate::error::VerifierError;
use crate::fixed::Decimal;
use crate::spread::OperatorVote;
use crate::tasks::{TaskMetadata, TaskStatus};
use vstd::prelude::*;

verus! {

/// A submitted result as the ledger stores it: raw text under the
/// exact-match strategy, a parsed price under median-spread.
#[derive(Clone, Debug)]
pub enum VoteValue {
    Text(String),
    Price(Decimal),
}

/// The mathematical shape of a stored value.
pub enum VoteValueView {
    Text(Seq<char>),
    Price(int),
}

impl View for VoteValue {
    type V = VoteValueView;

    open spec fn view(&self) -> VoteValueView {
        match self {
            VoteValue::Text(s) => VoteValueView::Text(s@),
            VoteValue::Price(d) => VoteValueView::Price(d.atomics as int),
        }
    }
}

/// One recorded vote: its task, its voter, the voter's weight at the
/// task's creation checkpoint, and the submitted value.
#[derive(Clone, Debug)]
pub struct VoteEntry {
    pub task_queue: String,
    pub task_id: u64,
    pub operator: String,
    pub power: u128,
    pub value: VoteValue,
}

/// One task's frozen snapshot, keyed by registry and task id.
#[derive(Clone, Debug)]
pub struct TaskEntry {
    pub task_queue: String,
    pub task_id: u64,
    pub meta: TaskMetadata,
}

/// The accumulated weight behind one distinct result value of one task,
/// kept by the exact-match strategy.
#[derive(Clone, Debug)]
pub struct TallyEntry {
    pub task_queue: String,
    pub task_id: u64,
    pub result: String,
    pub power: u128,
}

/// What the ledger knows of one vote.
pub struct VoteRecord {
    pub power: u128,
    pub value: VoteValueView,
}

pub open spec fn vote_key(e: VoteEntry) -> (Seq<char>, u64, Seq<char>) {
    (e.task_queue@, e.task_id, e.operator@)
}

pub open spec fn vote_record(e: VoteEntry) -> VoteRecord {
    VoteRecord { power: e.power, value: e.value@ }
}

pub open spec fn task_key(e: TaskEntry) -> (Seq<char>, u64) {
    (e.task_queue@, e.task_id)
}

pub open spec fn tally_key(e: TallyEntry) -> (Seq<char>, u64, Seq<char>) {
    (e.task_queue@, e.task_id, e.result@)
}

pub open spec fn votes_map(s: Seq<VoteEntry>) -> Map<(Seq<char>, u64, Seq<char>), VoteRecord>
    decreases s.len(),
{
    if s.len() == 0 {
        Map::empty()
    } else {
        votes_map(s.drop_last()).insert(vote_key(s.last()), vote_record(s.last()))
    }
}

pub open spec fn tasks_map(s: Seq<TaskEntry>) -> Map<(Seq<char>, u64), TaskMetadata>
    decreases s.len(),
{
    if s.len() == 0 {
        Map::empty()
    } else {
        tasks_map(s.drop_last()).insert(task_key(s.last()), s.last().meta)
    }
}

pub open spec fn tallies_map(s: Seq<TallyEntry>) -> Map<(Seq<char>, u64, Seq<char>), u128>
    decreases s.len(),
{
    if s.len() == 0 {
        Map::empty()
    } else {
        tallies_map(s.drop_last()).insert(tally_key(s.last()), s.last().power)
    }
}

pub open spec fn slashed_set(s: Seq<String>) -> Set<Seq<char>>
    decreases s.len(),
{
    if s.len() == 0 {
        Set::empty()
    } else {
        slashed_set(s.drop_last()).insert(s.last()@)
    }
}

pub open spec fn vote_keys_unique(s: Seq<VoteEntry>) -> bool {
    forall|i: int, j: int| 0 <= i < j < s.len() ==> vote_key(s[i]) != vote_key(s[j])
}

pub open spec fn task_keys_unique(s: Seq<TaskEntry>) -> bool {
    forall|i: int, j: int| 0 <= i < j < s.len() ==> task_key(s[i]) != task_key(s[j])
}

pub open spec fn tally_keys_unique(s: Seq<TallyEntry>) -> bool {
    forall|i: int, j: int| 0 <= i < j < s.len() ==> tally_key(s[i]) != tally_key(s[j])
}

pub open spec fn slashed_unique(s: Seq<String>) -> bool {
    forall|i: int, j: int| 0 <= i < j < s.len() ==> s[i]@ != s[j]@
}

pub proof fn lemma_votes_map_contains(s: Seq<VoteEntry>, k: (Seq<char>, u64, Seq<char>))
    ensures
        votes_map(s).contains_key(k) <==> exists|i: int| 0 <= i < s.len() && vote_key(s[i]) == k,
    decreases s.len(),
{
    if s.len() > 0 {
        lemma_votes_map_contains(s.drop_last(), k);
        if vote_key(s.last()) == k {
            assert(vote_key(s[s.len() - 1]) == k);
        } else if votes_map(s).contains_key(k) {
            let i = choose|i: int| 0 <= i < s.len() - 1 && vote_key(s.drop_last()[i]) == k;
            assert(vote_key(s[i]) == k);
        } else {
            assert forall|i: int| 0 <= i < s.len() implies vote_key(s[i]) != k by {
                if i < s.len() - 1 {
                    assert(s.drop_last()[i] == s[i]);
                }
            }
        }
    }
}

pub proof fn lemma_votes_map_index(s: Seq<VoteEntry>, i: int)
    requires
        vote_keys_unique(s),
        0 <= i < s.len(),
    ensures
        votes_map(s).contains_key(vote_key(s[i])),
        votes_map(s)[vote_key(s[i])] == vote_record(s[i]),
    decreases s.len(),
{
    if i == s.len() - 1 {
    } else {
        assert(s.drop_last()[i] == s[i]);
        lemma_votes_map_index(s.drop_last(), i);
        assert(vote_key(s[i]) != vote_key(s[s.len() - 1]));
    }
}

pub proof fn lemma_tasks_map_contains(s: Seq<TaskEntry>, k: (Seq<char>, u64))
    ensures
        tasks_map(s).contains_key(k) <==> exists|i: int| 0 <= i < s.len() && task_key(s[i]) == k,
    decreases s.len(),
{
    if s.len() > 0 {
        lemma_tasks_map_contains(s.drop_last(), k);
        if task_key(s.last()) == k {
            assert(task_key(s[s.len() - 1]) == k);
        } else if tasks_map(s).contains_key(k) {
            let i = choose|i: int| 0 <= i < s.len() - 1 && task_key(s.drop_last()[i]) == k;
            assert(task_key(s[i]) == k);
        } else {
            assert forall|i: int| 0 <= i < s.len() implies task_key(s[i]) != k by {
                if i < s.len() - 1 {
                    assert(s.drop_last()[i] == s[i]);
                }
            }
        }
    }
}

pub proof fn lemma_tasks_map_index(s: Seq<TaskEntry>, i: int)
    requires
        task_keys_unique(s),
        0 <= i < s.len(),
    ensures
        tasks_map(s).contains_key(task_key(s[i])),
        tasks_map(s)[task_key(s[i])] == s[i].meta,
    decreases s.len(),
{
    if i == s.len() - 1 {
    } else {
        assert(s.drop_last()[i] == s[i]);
        lemma_tasks_map_index(s.drop_last(), i);
        assert(task_key(s[i]) != task_key(s[s.len() - 1]));
    }
}

pub proof fn lemma_tasks_map_update(s: Seq<TaskEntry>, i: int, e: TaskEntry)
    requires
        task_keys_unique(s),
        0 <= i < s.len(),
        task_key(e) == task_key(s[i]),
    ensures
        tasks_map(s.update(i, e)) == tasks_map(s).insert(task_key(e), e.meta),
        task_keys_unique(s.update(i, e)),
    decreases s.len(),
{
    let t = s.update(i, e);
    assert forall|a: int, b: int| 0 <= a < b < t.len() implies task_key(t[a]) != task_key(
        t[b],
    ) by {
        assert(task_key(t[a]) == task_key(s[a]) || a == i);
        assert(task_key(t[b]) == task_key(s[b]) || b == i);
    }
    if i == s.len() - 1 {
        assert(t.drop_last() =~= s.drop_last());
        assert(t.last() == e);
        lemma_tasks_map_contains(s.drop_last(), task_key(s[i]));
        assert forall|j: int| 0 <= j < s.len() - 1 implies task_key(s.drop_last()[j]) != task_key(
            s[i],
        ) by {
            assert(s.drop_last()[j] == s[j]);
        }
        assert(tasks_map(t) =~= tasks_map(s).insert(task_key(e), e.meta));
    } else {
        assert(t.drop_last() =~= s.drop_last().update(i, e));
        assert(t.last() == s.last());
        assert(s.drop_last()[i] == s[i]);
        lemma_tasks_map_update(s.drop_last(), i, e);
        assert(task_key(s.last()) != task_key(e));
        assert(tasks_map(t) =~= tasks_map(s).insert(task_key(e), e.meta));
    }
}

pub proof fn lemma_tallies_map_contains(s: Seq<TallyEntry>, k: (Seq<char>, u64, Seq<char>))
    ensures
        tallies_map(s).contains_key(k) <==> exists|i: int| 0 <= i < s.len() && tally_key(s[i])
            == k,
    decreases s.len(),
{
    if s.len() > 0 {
        lemma_tallies_map_contains(s.drop_last(), k);
        if tally_key(s.last()) == k {
            assert(tally_key(s[s.len() - 1]) == k);
        } else if tallies_map(s).contains_key(k) {
            let i = choose|i: int| 0 <= i < s.len() - 1 && tally_key(s.drop_last()[i]) == k;
            assert(tally_key(s[i]) == k);
        } else {
            assert forall|i: int| 0 <= i < s.len() implies tally_key(s[i]) != k by {
                if i < s.len() - 1 {
                    assert(s.drop_last()[i] == s[i]);
                }
            }
        }
    }
}

pub proof fn lemma_tallies_map_index(s: Seq<TallyEntry>, i: int)
    requires
        tally_keys_unique(s),
        0 <= i < s.len(),
    ensures
        tallies_map(s).contains_key(tally_key(s[i])),
        tallies_map(s)[tally_key(s[i])] == s[i].power,
    decreases s.len(),
{
    if i == s.len() - 1 {
    } else {
        assert(s.drop_last()[i] == s[i]);
        lemma_tallies_map_index(s.drop_last(), i);
        assert(tally_key(s[i]) != tally_key(s[s.len() - 1]));
    }
}

pub proof fn lemma_tallies_map_update(s: Seq<TallyEntry>, i: int, e: TallyEntry)
    requires
        tally_keys_unique(s),
        0 <= i < s.len(),
        tally_key(e) == tally_key(s[i]),
    ensures
        tallies_map(s.update(i, e)) == tallies_map(s).insert(tally_key(e), e.power),
        tally_keys_unique(s.update(i, e)),
    decreases s.len(),
{
    let t = s.update(i, e);
    assert forall|a: int, b: int| 0 <= a < b < t.len() implies tally_key(t[a]) != tally_key(
        t[b],
    ) by {
        assert(tally_key(t[a]) == tally_key(s[a]) || a == i);
        assert(tally_key(t[b]) == tally_key(s[b]) || b == i);
    }
    if i == s.len() - 1 {
        assert(t.drop_last() =~= s.drop_last());
        assert(t.last() == e);
        lemma_tallies_map_contains(s.drop_last(), tally_key(s[i]));
        assert forall|j: int| 0 <= j < s.len() - 1 implies tally_key(s.drop_last()[j])
            != tally_key(s[i]) by {
            assert(s.drop_last()[j] == s[j]);
        }
        assert(tallies_map(t) =~= tallies_map(s).insert(tally_key(e), e.power));
    } else {
        assert(t.drop_last() =~= s.drop_last().update(i, e));
        assert(t.last() == s.last());
        assert(s.drop_last()[i] == s[i]);
        lemma_tallies_map_update(s.drop_last(), i, e);
        assert(tally_key(s.last()) != tally_key(e));
        assert(tallies_map(t) =~= tallies_map(s).insert(tally_key(e), e.power));
    }
}

pub proof fn lemma_slashed_set_contains(s: Seq<String>, v: Seq<char>)
    ensures
        slashed_set(s).contains(v) <==> exists|i: int| 0 <= i < s.len() && s[i]@ == v,
    decreases s.len(),
{
    if s.len() > 0 {
        lemma_slashed_set_contains(s.drop_last(), v);
        if s.last()@ == v {
            assert(s[s.len() - 1]@ == v);
        } else if slashed_set(s).contains(v) {
            let i = choose|i: int| 0 <= i < s.len() - 1 && s.drop_last()[i]@ == v;
            assert(s[i]@ == v);
        } else {
            assert forall|i: int| 0 <= i < s.len() implies s[i]@ != v by {
                if i < s.len() - 1 {
                    assert(s.drop_last()[i] == s[i]);
                }
            }
        }
    }
}

/// Whether a vote entry belongs to the group of one task's votes that all
/// submitted the byte-identical result `res`.
pub open spec fn in_group(e: VoteEntry, q: Seq<char>, id: u64, res: Seq<char>) -> bool {
    e.task_queue@ == q && e.task_id == id && e.value@ == VoteValueView::Text(res)
}

/// The summed weight of one task's votes that submitted the result `res`.
pub open spec fn group_weight(s: Seq<VoteEntry>, q: Seq<char>, id: u64, res: Seq<char>) -> int
    decreases s.len(),
{
    if s.len() == 0 {
        0
    } else {
        group_weight(s.drop_last(), q, id, res) + if in_group(s.last(), q, id, res) {
            s.last().power as int
        } else {
            0
        }
    }
}

pub proof fn lemma_group_weight_push(
    s: Seq<VoteEntry>,
    e: VoteEntry,
    q: Seq<char>,
    id: u64,
    res: Seq<char>,
)
    ensures
        group_weight(s.push(e), q, id, res) == group_weight(s, q, id, res) + if in_group(
            e,
            q,
            id,
            res,
        ) {
            e.power as int
        } else {
            0
        },
{
    assert(s.push(e).drop_last() =~= s);
    assert(s.push(e).last() == e);
}

pub proof fn lemma_group_weight_empty(s: Seq<VoteEntry>, q: Seq<char>, id: u64, res: Seq<char>)
    requires
        forall|i: int| 0 <= i < s.len() ==> !in_group(s[i], q, id, res),
    ensures
        group_weight(s, q, id, res) == 0,
    decreases s.len(),
{
    if s.len() > 0 {
        assert(forall|i: int|
            0 <= i < s.len() - 1 ==> s.drop_last()[i] == s[i] && !in_group(s[i], q, id, res));
        lemma_group_weight_empty(s.drop_last(), q, id, res);
        assert(!in_group(s[s.len() - 1], q, id, res));
    }
}

pub proof fn lemma_group_weight_nonneg(s: Seq<VoteEntry>, q: Seq<char>, id: u64, res: Seq<char>)
    ensures
        group_weight(s, q, id, res) >= 0,
    decreases s.len(),
{
    if s.len() > 0 {
        lemma_group_weight_nonneg(s.drop_last(), q, id, res);
    }
}

impl VoteValue {
    /// An equal copy of the stored value.
    pub fn clone_value(&self) -> (r: VoteValue)
        ensures
            r@ == self@,
    {
        match self {
            VoteValue::Text(s) => VoteValue::Text(s.clone()),
            VoteValue::Price(d) => VoteValue::Price(*d),
        }
    }
}

/// Whether a stored value has the shape the configured strategy expects:
/// raw text for exact-match, a price for median-spread.
pub open spec fn value_matches_strategy(v: VoteValueView, strategy: TallyStrategy) -> bool {
    match strategy {
        TallyStrategy::ExactMatch => v is Text,
        TallyStrategy::MedianSpread { .. } => v is Price,
    }
}

/// The full engine state.
pub struct Verifier {
    pub config: Config,
    pub tasks: Vec<TaskEntry>,
    pub votes: Vec<VoteEntry>,
    pub tallies: Vec<TallyEntry>,
    pub slashed: Vec<String>,
}

impl Verifier {
    /// The state invariant: the configuration is valid; every store has
    /// pairwise distinct keys; every recorded vote carries positive weight
    /// and a value of the configured shape; stored statuses are only
    /// `Open` or `Completed` (expiry is derived, never stored); and each
    /// tally equals the summed weight of the votes in its group, with a
    /// tally present for every group that has a vote.
    pub open spec fn wf(self) -> bool {
        &&& self.config.wf()
        &&& task_keys_unique(self.tasks@)
        &&& vote_keys_unique(self.votes@)
        &&& tally_keys_unique(self.tallies@)
        &&& slashed_unique(self.slashed@)
        &&& forall|i: int|
            0 <= i < self.votes@.len() ==> (#[trigger] self.votes@[i]).power > 0
                && value_matches_strategy(self.votes@[i].value@, self.config.strategy)
        &&& forall|i: int|
            0 <= i < self.tasks@.len() ==> !((#[trigger] self.tasks@[i]).meta.status is Expired)
        &&& forall|i: int|
            0 <= i < self.tallies@.len() ==> (#[trigger] self.tallies@[i]).power as int
                == group_weight(
                self.votes@,
                self.tallies@[i].task_queue@,
                self.tallies@[i].task_id,
                self.tallies@[i].result@,
            )
        &&& forall|i: int|
            0 <= i < self.votes@.len() && (#[trigger] self.votes@[i]).value@ is Text
                ==> tallies_map(self.tallies@).contains_key(
                (
                    self.votes@[i].task_queue@,
                    self.votes@[i].task_id,
                    self.votes@[i].value@->Text_0,
                ),
            )
    }

    /// In a well-formed state the ledger holds at most one vote per
    /// `(task registry, task, operator)` key: two entries under the same
    /// key are the same entry.
    pub proof fn lemma_at_most_one_vote(self, i: int, j: int)
        requires
            self.wf(),
            0 <= i < self.votes@.len(),
            0 <= j < self.votes@.len(),
            vote_key(self.votes@[i]) == vote_key(self.votes@[j]),
        ensures
            i == j,
    {
    }

    /// Index of the snapshot for `(task_queue, task_id)`, if one exists.
    pub fn find_task_index(&self, task_queue: &String, task_id: u64) -> (r: Option<usize>)
        ensures
            match r {
                Some(i) => i < self.tasks@.len() && task_key(self.tasks@[i as int]) == (
                    task_queue@,
                    task_id,
                ),
                None => forall|i: int|
                    0 <= i < self.tasks@.len() ==> task_key(self.tasks@[i]) != (
                        task_queue@,
                        task_id,
                    ),
            },
    {
        let mut i: usize = 0;
        while i < self.tasks.len()
            invariant
                0 <= i <= self.tasks@.len(),
                forall|j: int|
                    0 <= j < i ==> task_key(self.tasks@[j]) != (task_queue@, task_id),
            decreases self.tasks@.len() - i,
        {
            if self.tasks[i].task_queue == *task_queue && self.tasks[i].task_id == task_id {
                return Some(i);
            }
            i = i + 1;
        }
        None
    }

    /// Index of the recorded vote for `(task_queue, task_id, operator)`,
    /// if one exists.
    pub fn find_vote_index(&self, task_queue: &String, task_id: u64, operator: &String) -> (r:
        Option<usize>)
        ensures
            match r {
                Some(i) => i < self.votes@.len() && vote_key(self.votes@[i as int]) == (
                    task_queue@,
                    task_id,
                    operator@,
                ),
                None => forall|i: int|
                    0 <= i < self.votes@.len() ==> vote_key(self.votes@[i]) != (
                        task_queue@,
                        task_id,
                        operator@,
                    ),
            },
    {
        let mut i: usize = 0;
        while i < self.votes.len()
            invariant
                0 <= i <= self.votes@.len(),
                forall|j: int|
                    0 <= j < i ==> vote_key(self.votes@[j]) != (task_queue@, task_id, operator@),
            decreases self.votes@.len() - i,
        {
            if self.votes[i].task_queue == *task_queue && self.votes[i].task_id == task_id
                && self.votes[i].operator == *operator {
                return Some(i);
            }
            i = i + 1;
        }
        None
    }

    /// Index of the running tally for `(task_queue, task_id, result)`, if
    /// one exists.
    pub fn find_tally_index(&self, task_queue: &String, task_id: u64, result: &String) -> (r:
        Option<usize>)
        ensures
            match r {
                Some(i) => i < self.tallies@.len() && tally_key(self.tallies@[i as int]) == (
                    task_queue@,
                    task_id,
                    result@,
                ),
                None => forall|i: int|
                    0 <= i < self.tallies@.len() ==> tally_key(self.tallies@[i]) != (
                        task_queue@,
                        task_id,
                        result@,
                    ),
            },
    {
        let mut i: usize = 0;
        while i < self.tallies.len()
            invariant
                0 <= i <= self.tallies@.len(),
                forall|j: int|
                    0 <= j < i ==> tally_key(self.tallies@[j]) != (task_queue@, task_id, result@),
            decreases self.tallies@.len() - i,
        {
            if self.tallies[i].task_queue == *task_queue && self.tallies[i].task_id == task_id
                && self.tallies[i].result == *result {
                return Some(i);
            }
            i = i + 1;
        }
        None
    }

    /// Writes a task's snapshot, inserting or overwriting. Only `Open`
    /// and `Completed` are ever stored; expiry stays derived.
    pub fn save_task(&mut self, task_queue: &String, task_id: u64, meta: TaskMetadata)
        requires
            old(self).wf(),
            !(meta.status is Expired),
        ensures
            final(self).wf(),
            tasks_map(final(self).tasks@) == tasks_map(old(self).tasks@).insert(
                (task_queue@, task_id),
                meta,
            ),
            final(self).config == old(self).config,
            final(self).votes == old(self).votes,
            final(self).tallies == old(self).tallies,
            final(self).slashed == old(self).slashed,
    {
        match self.find_task_index(task_queue, task_id) {
            Some(i) => {
                let entry = TaskEntry {
                    task_queue: self.tasks[i].task_queue.clone(),
                    task_id: self.tasks[i].task_id,
                    meta,
                };
                proof {
                    assert(task_key(entry) == task_key(self.tasks@[i as int]));
                    lemma_tasks_map_update(self.tasks@, i as int, entry);
                }
                self.tasks.set(i, entry);
            },
            None => {
                let entry = TaskEntry { task_queue: task_queue.clone(), task_id, meta };
                proof {
                    let s = self.tasks@;
                    assert(s.push(entry).drop_last() =~= s);
                    assert(s.push(entry).last() == entry);
                    assert forall|a: int, b: int| 0 <= a < b < s.push(entry).len() implies task_key(
                        s.push(entry)[a],
                    ) != task_key(s.push(entry)[b]) by {
                        if b == s.len() {
                            assert(task_key(s[a]) != (task_queue@, task_id));
                        }
                    }
                }
                self.tasks.push(entry);
            },
        }
    }

    /// Records one vote under the exact-match strategy: the vote is
    /// appended to the ledger and the running tally of its result value
    /// grows by the vote's weight. Returns the group's new tally. A
    /// tally that would not fit is rejected, and nothing changes.
    pub fn record_vote(
        &mut self,
        task_queue: &String,
        task_id: u64,
        operator: &String,
        result: &String,
        power: u128,
    ) -> (r: Result<u128, VerifierError>)
        requires
            old(self).wf(),
            old(self).config.strategy is ExactMatch,
            power > 0,
            !votes_map(old(self).votes@).contains_key((task_queue@, task_id, operator@)),
        ensures
            final(self).wf(),
            final(self).config == old(self).config,
            match r {
                Ok(g) => {
                    &&& g == group_weight(old(self).votes@, task_queue@, task_id, result@) + power
                    &&& final(self).votes@ == old(self).votes@.push(
                        VoteEntry {
                            task_queue: *task_queue,
                            task_id,
                            operator: *operator,
                            power,
                            value: VoteValue::Text(*result),
                        },
                    )
                    &&& tallies_map(final(self).tallies@) == tallies_map(old(self).tallies@).insert(
                        (task_queue@, task_id, result@),
                        g,
                    )
                    &&& final(self).tasks == old(self).tasks
                    &&& final(self).slashed == old(self).slashed
                },
                Err(e) => {
                    &&& e == VerifierError::Overflow
                    &&& group_weight(old(self).votes@, task_queue@, task_id, result@) + power
                        > u128::MAX
                    &&& *final(self) == *old(self)
                },
            },
    {
        let ghost gkey = (task_queue@, task_id, result@);
        let entry = VoteEntry {
            task_queue: task_queue.clone(),
            task_id,
            operator: operator.clone(),
            power,
            value: VoteValue::Text(result.clone()),
        };
        proof {
            lemma_votes_map_contains(old(self).votes@, (task_queue@, task_id, operator@));
        }
        match self.find_tally_index(task_queue, task_id, result) {
            Some(i) => {
                proof {
                    lemma_tallies_map_index(self.tallies@, i as int);
                }
                let g = match self.tallies[i].power.checked_add(power) {
                    Some(g) => g,
                    None => {
                        return Err(VerifierError::Overflow);
                    },
                };
                let row = TallyEntry {
                    task_queue: self.tallies[i].task_queue.clone(),
                    task_id: self.tallies[i].task_id,
                    result: self.tallies[i].result.clone(),
                    power: g,
                };
                proof {
                    assert(tally_key(row) == tally_key(self.tallies@[i as int]));
                    lemma_tallies_map_update(self.tallies@, i as int, row);
                }
                self.tallies.set(i, row);
                self.votes.push(entry);
                proof {
                    assert forall|m: int| 0 <= m < self.tallies@.len() implies (#[trigger] tally_key(
                        self.tallies@[m],
                    ) == gkey && self.tallies@[m].power == g) || (tally_key(self.tallies@[m])
                        != gkey && exists|j: int|
                        0 <= j < old(self).tallies@.len() && old(self).tallies@[j]
                            == self.tallies@[m]) by {
                        if m != i {
                            assert(old(self).tallies@[m] == self.tallies@[m]);
                        }
                    }
                    self.lemma_after_vote_push(*old(self), entry, gkey, g);
                }
                Ok(g)
            },
            None => {
                proof {
                    lemma_tallies_map_contains(self.tallies@, gkey);
                    assert(!tallies_map(self.tallies@).contains_key(gkey));
                    assert forall|j: int| 0 <= j < self.votes@.len() implies !in_group(
                        self.votes@[j],
                        task_queue@,
                        task_id,
                        result@,
                    ) by {
                        if in_group(self.votes@[j], task_queue@, task_id, result@) {
                            assert(self.votes@[j].value@ is Text);
                            assert((
                                self.votes@[j].task_queue@,
                                self.votes@[j].task_id,
                                self.votes@[j].value@->Text_0,
                            ) == gkey);
                        }
                    }
                    lemma_group_weight_empty(self.votes@, task_queue@, task_id, result@);
                }
                let row = TallyEntry {
                    task_queue: task_queue.clone(),
                    task_id,
                    result: result.clone(),
                    power,
                };
                proof {
                    let s = self.tallies@;
                    assert(s.push(row).drop_last() =~= s);
                    assert(s.push(row).last() == row);
                    assert forall|a: int, b: int|
                        0 <= a < b < s.push(row).len() implies tally_key(s.push(row)[a])
                        != tally_key(s.push(row)[b]) by {
                        if b == s.len() {
                            lemma_tallies_map_contains(s, gkey);
                            assert(tally_key(s[a]) != gkey);
                        }
                    }
                }
                self.tallies.push(row);
                self.votes.push(entry);
                proof {
                    assert forall|m: int| 0 <= m < self.tallies@.len() implies (#[trigger] tally_key(
                        self.tallies@[m],
                    ) == gkey && self.tallies@[m].power == power) || (tally_key(self.tallies@[m])
                        != gkey && exists|j: int|
                        0 <= j < old(self).tallies@.len() && old(self).tallies@[j]
                            == self.tallies@[m]) by {
                        if m < old(self).tallies@.len() {
                            assert(old(self).tallies@[m] == self.tallies@[m]);
                        } else {
                            assert(self.tallies@[m] == row);
                        }
                    }
                    self.lemma_after_vote_push(*old(self), entry, gkey, power);
                }
                Ok(power)
            },
        }
    }

    /// After appending one text vote and bringing its group's tally to
    /// `g`, the state is well-formed again and the tally map moved only
    /// at the group's key.
    proof fn lemma_after_vote_push(
        self,
        pre: Verifier,
        entry: VoteEntry,
        gkey: (Seq<char>, u64, Seq<char>),
        g: u128,
    )
        requires
            pre.wf(),
            pre.config.strategy is ExactMatch,
            entry.power > 0,
            entry.value@ is Text,
            gkey == (entry.task_queue@, entry.task_id, entry.value@->Text_0),
            !votes_map(pre.votes@).contains_key(vote_key(entry)),
            self.config == pre.config,
            self.tasks == pre.tasks,
            self.slashed == pre.slashed,
            self.votes@ == pre.votes@.push(entry),
            tally_keys_unique(self.tallies@),
            tallies_map(self.tallies@) == tallies_map(pre.tallies@).insert(gkey, g),
            g == group_weight(pre.votes@, gkey.0, gkey.1, gkey.2) + entry.power,
            forall|i: int|
                0 <= i < self.tallies@.len() ==> (#[trigger] tally_key(self.tallies@[i])
                    == gkey && self.tallies@[i].power == g) || (tally_key(self.tallies@[i])
                    != gkey && exists|j: int|
                    0 <= j < pre.tallies@.len() && pre.tallies@[j] == self.tallies@[i]),
        ensures
            self.wf(),
    {
        let votes0 = pre.votes@;
        let votes1 = self.votes@;
        lemma_votes_map_contains(votes0, vote_key(entry));
        assert forall|a: int, b: int| 0 <= a < b < votes1.len() implies vote_key(votes1[a])
            != vote_key(votes1[b]) by {
            if b == votes0.len() {
                assert(vote_key(votes0[a]) != vote_key(entry));
            }
        }
        assert forall|i: int| 0 <= i < self.tallies@.len() implies (#[trigger] self.tallies@[i]).power
            as int == group_weight(
            votes1,
            self.tallies@[i].task_queue@,
            self.tallies@[i].task_id,
            self.tallies@[i].result@,
        ) by {
            let k = tally_key(self.tallies@[i]);
            lemma_group_weight_push(votes0, entry, k.0, k.1, k.2);
            if k == gkey {
                assert(in_group(entry, k.0, k.1, k.2));
            } else {
                assert(!in_group(entry, k.0, k.1, k.2));
                let j = choose|j: int|
                    0 <= j < pre.tallies@.len() && pre.tallies@[j] == self.tallies@[i];
                assert(pre.tallies@[j].power as int == group_weight(votes0, k.0, k.1, k.2));
            }
        }
        assert forall|i: int|
            0 <= i < votes1.len() && (#[trigger] votes1[i]).value@ is Text implies tallies_map(
            self.tallies@,
        ).contains_key((votes1[i].task_queue@, votes1[i].task_id, votes1[i].value@->Text_0)) by {
            if i < votes0.len() {
                assert(votes0[i] == votes1[i]);
            } else {
                assert(votes1[i] == entry);
            }
        }
    }

    /// Appends one price vote under the median-spread strategy; nothing
    /// else moves.
    pub fn record_price_vote(
        &mut self,
        task_queue: &String,
        task_id: u64,
        operator: &String,
        price: Decimal,
        power: u128,
    )
        requires
            old(self).wf(),
            old(self).config.strategy is MedianSpread,
            power > 0,
            !votes_map(old(self).votes@).contains_key((task_queue@, task_id, operator@)),
        ensures
            final(self).wf(),
            final(self).votes@ == old(self).votes@.push(
                VoteEntry {
                    task_queue: *task_queue,
                    task_id,
                    operator: *operator,
                    power,
                    value: VoteValue::Price(price),
                },
            ),
            final(self).config == old(self).config,
            final(self).tasks == old(self).tasks,
            final(self).tallies == old(self).tallies,
            final(self).slashed == old(self).slashed,
    {
        let entry = VoteEntry {
            task_queue: task_queue.clone(),
            task_id,
            operator: operator.clone(),
            power,
            value: VoteValue::Price(price),
        };
        proof {
            lemma_votes_map_contains(self.votes@, (task_queue@, task_id, operator@));
        }
        self.votes.push(entry);
        proof {
            let votes0 = old(self).votes@;
            let votes1 = self.votes@;
            assert forall|a: int, b: int| 0 <= a < b < votes1.len() implies vote_key(votes1[a])
                != vote_key(votes1[b]) by {
                if b == votes0.len() {
                    assert(vote_key(votes0[a]) != vote_key(entry));
                }
            }
            assert forall|i: int|
                0 <= i < self.tallies@.len() implies (#[trigger] self.tallies@[i]).power as int
                == group_weight(
                votes1,
                self.tallies@[i].task_queue@,
                self.tallies@[i].task_id,
                self.tallies@[i].result@,
            ) by {
                let k = tally_key(self.tallies@[i]);
                lemma_group_weight_push(votes0, entry, k.0, k.1, k.2);
                assert(!in_group(entry, k.0, k.1, k.2));
            }
            assert forall|i: int|
                0 <= i < votes1.len() && (#[trigger] votes1[i]).value@ is Text implies tallies_map(
                self.tallies@,
            ).contains_key((votes1[i].task_queue@, votes1[i].task_id, votes1[i].value@->Text_0))
                by {
                assert(i < votes0.len());
                assert(votes0[i] == votes1[i]);
            }
        }
    }

    /// Flags an operator for downstream penalty. Flagging is idempotent:
    /// a second flag changes nothing. Only the flag is recorded here;
    /// enforcement belongs to an outside system.
    pub fn noop_slash_validator(&mut self, operator: &String)
        requires
            old(self).wf(),
        ensures
            final(self).wf(),
            slashed_set(final(self).slashed@) == slashed_set(old(self).slashed@).insert(operator@),
            final(self).config == old(self).config,
            final(self).tasks == old(self).tasks,
            final(self).votes == old(self).votes,
            final(self).tallies == old(self).tallies,
    {
        if self.is_slashed(operator) {
            proof {
                lemma_slashed_set_contains(self.slashed@, operator@);
                assert(slashed_set(self.slashed@) =~= slashed_set(self.slashed@).insert(
                    operator@,
                ));
            }
            return ;
        }
        proof {
            lemma_slashed_set_contains(self.slashed@, operator@);
        }
        self.slashed.push(operator.clone());
        proof {
            let s0 = old(self).slashed@;
            let s1 = self.slashed@;
            assert(s1.drop_last() =~= s0);
            assert(s1.last()@ == operator@);
            assert forall|a: int, b: int| 0 <= a < b < s1.len() implies s1[a]@ != s1[b]@ by {
                if b == s0.len() {
                    assert(s0[a]@ != operator@);
                }
            }
        }
    }

    /// Whether an operator is already flagged.
    pub fn is_slashed(&self, operator: &String) -> (r: bool)
        ensures
            r == slashed_set(self.slashed@).contains(operator@),
    {
        let mut i: usize = 0;
        proof {
            lemma_slashed_set_contains(self.slashed@, operator@);
        }
        while i < self.slashed.len()
            invariant
                0 <= i <= self.slashed@.len(),
                forall|j: int| 0 <= j < i ==> self.slashed@[j]@ != operator@,
                slashed_set(self.slashed@).contains(operator@) <==> exists|j: int|
                    0 <= j < self.slashed@.len() && self.slashed@[j]@ == operator@,
            decreases self.slashed@.len() - i,
        {
            if self.slashed[i] == *operator {
                return true;
            }
            i = i + 1;
        }
        false
    }
}

} // verus!
