//! The unweighted positional median of submitted values.
//!
//! Values are sorted ascending; the median of an odd-length sequence is its
//! middle element, the median of an even-length sequence is the mean of the
//! two central elements rounded half-up at the atomic, and the median of an
//! empty sequence is zero. Each participant's value counts once, whatever
//! its weight.

use crate::fixed::Decimal;
use vstd::prelude::*;
use vstd::seq_lib::to_multiset_update;

verus! {

/// The ascending order on decimal values.
pub open spec fn dec_leq(a: Decimal, b: Decimal) -> bool {
    a.atomics <= b.atomics
}

/// The ascending order, as a function value for sorting specifications.
pub open spec fn dec_le() -> spec_fn(Decimal, Decimal) -> bool {
    |a: Decimal, b: Decimal| dec_leq(a, b)
}

/// Whether a sequence of decimal values is ascending.
pub open spec fn dec_sorted(s: Seq<Decimal>) -> bool {
    forall|i: int, j: int| 0 <= i < j < s.len() ==> s[i].atomics <= s[j].atomics
}

/// The median, in atomics, of an already sorted sequence.
pub open spec fn spec_median_sorted(s: Seq<Decimal>) -> int {
    if s.len() == 0 {
        0
    } else if s.len() % 2 == 1 {
        s[s.len() as int / 2].atomics as int
    } else {
        (s[s.len() as int / 2 - 1].atomics + s[s.len() as int / 2].atomics + 1) / 2
    }
}

/// The median, in atomics, of an arbitrary sequence: the median of its
/// sorted permutation.
pub open spec fn spec_median(s: Seq<Decimal>) -> int {
    spec_median_sorted(s.sort_by(dec_le()))
}

/// The specification-level sorted permutation of a sequence is ascending
/// and holds the same values.
pub proof fn lemma_sort_by_gives_dec_sorted(s: Seq<Decimal>)
    ensures
        dec_sorted(s.sort_by(dec_le())),
        s.sort_by(dec_le()).to_multiset() == s.to_multiset(),
{
    let leq = dec_le();
    s.lemma_sort_by_ensures(leq);
    let t = s.sort_by(leq);
    assert forall|i: int, j: int| 0 <= i < j < t.len() implies t[i].atomics <= t[j].atomics by {
        assert(leq(t[i], t[j]));
    }
}

/// Exchanging two positions of a sequence leaves its multiset unchanged.
proof fn lemma_swap_preserves_multiset(s: Seq<Decimal>, i: int, j: int)
    requires
        0 <= i < j < s.len(),
    ensures
        s.update(i, s[j]).update(j, s[i]).to_multiset() == s.to_multiset(),
{
    broadcast use vstd::multiset::group_multiset_axioms;

    let t = s.update(i, s[j]);
    to_multiset_update(s, i, s[j]);
    to_multiset_update(t, j, s[i]);
    assert(s.contains(s[i]));
    assert(s.to_multiset().count(s[i]) > 0) by {
        broadcast use vstd::seq_lib::group_to_multiset_ensures;

    }
    assert(t[j] == s[j]);
    assert(t.update(j, s[i]).to_multiset() =~= s.to_multiset());
}

/// Sorts the values ascending, in place.
pub fn sort_values(values: &mut Vec<Decimal>)
    ensures
        dec_sorted(final(values)@),
        final(values)@.to_multiset() == old(values)@.to_multiset(),
        final(values)@.len() == old(values)@.len(),
{
    let n = values.len();
    if n <= 1 {
        return ;
    }
    let mut i: usize = 1;
    while i < n
        invariant
            1 <= i <= n,
            n == values@.len(),
            forall|a: int, b: int| 0 <= a < b < i ==> values@[a].atomics <= values@[b].atomics,
            values@.to_multiset() == old(values)@.to_multiset(),
        decreases n - i,
    {
        let mut j: usize = i;
        while j > 0 && values[j - 1].atomics > values[j].atomics
            invariant
                0 <= j <= i < n,
                n == values@.len(),
                values@.to_multiset() == old(values)@.to_multiset(),
                forall|a: int, b: int|
                    0 <= a < b <= i && b != j ==> values@[a].atomics <= values@[b].atomics,
            decreases j,
        {
            let x = values[j - 1];
            let y = values[j];
            let ghost prev = values@;
            values.set(j - 1, y);
            values.set(j, x);
            proof {
                lemma_swap_preserves_multiset(prev, j - 1, j as int);
                assert(values@ =~= prev.update(j - 1, prev[j as int]).update(
                    j as int,
                    prev[j - 1],
                ));
            }
            j = j - 1;
        }
        proof {
            assert forall|a: int, b: int| 0 <= a < b <= i implies values@[a].atomics
                <= values@[b].atomics by {
                if b == j {
                    assert(a == j - 1 || values@[a].atomics <= values@[j - 1].atomics);
                }
            }
        }
        i = i + 1;
    }
}

/// Two sorted sequences holding the same values in the same quantities are
/// the same sequence.
pub proof fn lemma_sorted_unique(s: Seq<Decimal>, t: Seq<Decimal>)
    requires
        dec_sorted(s),
        dec_sorted(t),
        s.to_multiset() == t.to_multiset(),
    ensures
        s == t,
    decreases s.len(),
{
    broadcast use vstd::seq_lib::group_to_multiset_ensures;
    broadcast use vstd::multiset::group_multiset_axioms;

    assert(s.len() == s.to_multiset().len());
    assert(t.len() == t.to_multiset().len());
    if s.len() == 0 {
        assert(s =~= t);
    } else {
        let ls = s[s.len() - 1];
        let lt = t[t.len() - 1];
        assert(s.contains(ls));
        assert(t.contains(lt));
        assert(t.to_multiset().count(ls) > 0);
        assert(t.contains(ls));
        assert(s.to_multiset().count(lt) > 0);
        assert(s.contains(lt));
        assert(ls.atomics == lt.atomics);
        assert(ls == lt);
        let s0 = s.drop_last();
        let t0 = t.drop_last();
        assert(s0 =~= s.remove(s.len() - 1));
        assert(t0 =~= t.remove(t.len() - 1));
        assert(s.remove(s.len() - 1).to_multiset() == s.to_multiset().remove(ls));
        assert(t.remove(t.len() - 1).to_multiset() == t.to_multiset().remove(lt));
        assert(s0.to_multiset() == t0.to_multiset());
        lemma_sorted_unique(s0, t0);
        assert(s =~= s0.push(ls));
        assert(t =~= t0.push(lt));
    }
}

/// The median of a collection does not depend on the order in which its
/// values were gathered.
pub proof fn lemma_median_permutation(s: Seq<Decimal>, t: Seq<Decimal>)
    requires
        s.to_multiset() == t.to_multiset(),
    ensures
        spec_median(s) == spec_median(t),
{
    lemma_sort_by_gives_dec_sorted(s);
    lemma_sort_by_gives_dec_sorted(t);
    lemma_sorted_unique(s.sort_by(dec_le()), t.sort_by(dec_le()));
}

/// Sorts the values ascending and returns their median: the middle element
/// of an odd-length sequence, the mean of the two central elements of an
/// even-length sequence rounded half-up at the atomic, and zero for an
/// empty sequence.
pub fn calculate_median(values: &mut Vec<Decimal>) -> (r: Decimal)
    ensures
        dec_sorted(final(values)@),
        final(values)@.to_multiset() == old(values)@.to_multiset(),
        r.atomics == spec_median(old(values)@),
{
    sort_values(values);
    proof {
        lemma_sort_by_gives_dec_sorted(old(values)@);
        lemma_sorted_unique(values@, old(values)@.sort_by(dec_le()));
    }
    if values.len() == 0 {
        return Decimal::zero();
    }
    if values.len() % 2 == 0 {
        let lo = values[values.len() / 2 - 1];
        let hi = values[values.len() / 2];
        lo.half_up_avg(hi)
    } else {
        values[values.len() / 2]
    }
}

} // verus!
