//! The median-spread resolution strategy.
//!
//! Submitted prices are aggregated by their unweighted median. Votes whose
//! price lies inside the allowed band around the median are valid; the task
//! is accepted when the valid votes' weight is a large enough fraction of
//! all voting weight. Voters whose price falls strictly outside the wider
//! slashable band are flagged, whether or not the threshold was met.

use crate::config::{Config, TallyStrategy};
use crate::error::VerifierError;
use crate::fixed::{ratio_at_least, Decimal, FRACTIONAL};
use crate::median::{calculate_median, spec_median};
use vstd::prelude::*;

verus! {

/// One operator's recorded vote: the voting power it carried and the price
/// it submitted.
#[derive(Clone, Copy, Debug, PartialEq, Eq, Structural)]
pub struct OperatorVote {
    pub power: u128,
    pub price: Decimal,
}

/// The prices of a vote list, in the same order.
pub open spec fn prices_of(votes: Seq<(String, OperatorVote)>) -> Seq<Decimal> {
    votes.map_values(|v: (String, OperatorVote)| v.1.price)
}

/// The summed voting power of a vote list.
pub open spec fn sum_powers(votes: Seq<(String, OperatorVote)>) -> int
    decreases votes.len(),
{
    if votes.len() == 0 {
        0
    } else {
        sum_powers(votes.drop_last()) + votes.last().1.power
    }
}

/// Lower edge of a tolerance band: the median scaled by one minus the
/// spread, rounded down to an atomic.
pub open spec fn spec_band_lo(m: int, spread: int) -> int {
    m * (FRACTIONAL - spread) / FRACTIONAL as int
}

/// Upper edge of a tolerance band: the median scaled by one plus the
/// spread, rounded down to an atomic.
pub open spec fn spec_band_hi(m: int, spread: int) -> int {
    m * (FRACTIONAL + spread) / FRACTIONAL as int
}

/// Whether the upper band edge fits in 128 bits.
pub open spec fn band_fits(m: int, spread: int) -> bool {
    spec_band_hi(m, spread) <= u128::MAX
}

/// Membership in a closed band.
pub open spec fn in_band_pred(lo: Decimal, hi: Decimal) -> spec_fn((String, OperatorVote)) -> bool {
    |v: (String, OperatorVote)| lo.atomics <= v.1.price.atomics && v.1.price.atomics <= hi.atomics
}

/// Strict exclusion from a closed band.
pub open spec fn outside_band_pred(lo: Decimal, hi: Decimal) -> spec_fn(
    (String, OperatorVote),
) -> bool {
    |v: (String, OperatorVote)| v.1.price.atomics < lo.atomics || v.1.price.atomics > hi.atomics
}

/// The votes whose price lies inside the closed band, in order.
pub open spec fn spec_valid_votes(
    votes: Seq<(String, OperatorVote)>,
    lo: Decimal,
    hi: Decimal,
) -> Seq<(String, OperatorVote)> {
    votes.filter(in_band_pred(lo, hi))
}

/// The names of the voters whose price lies strictly outside the closed
/// band, in order.
pub open spec fn spec_slashable(votes: Seq<(String, OperatorVote)>, lo: Decimal, hi: Decimal) -> Seq<
    String,
> {
    votes.filter(outside_band_pred(lo, hi)).map_values(|v: (String, OperatorVote)| v.0)
}

/// Whether `valid / total >= threshold`, as exact rationals.
pub open spec fn spec_threshold_met(valid: int, total: int, threshold: Decimal) -> bool {
    valid * FRACTIONAL >= threshold.atomics * total
}

/// Comparing the share as exact rationals agrees with first rounding it
/// down to an atomic: the threshold is a whole number of atomics, so no
/// acceptance decision changes at the boundary.
pub proof fn lemma_threshold_exact_vs_floored(valid: int, total: int, threshold: Decimal)
    requires
        total > 0,
        valid >= 0,
    ensures
        spec_threshold_met(valid, total, threshold) <==> (valid * FRACTIONAL) / total
            >= threshold.atomics,
{
    let x = valid * FRACTIONAL;
    let t = threshold.atomics as int;
    assert(x >= 0) by (nonlinear_arith)
        requires
            x == valid * (FRACTIONAL as int),
            valid >= 0,
    ;
    vstd::arithmetic::div_mod::lemma_fundamental_div_mod(x, total);
    if x / total >= t {
        assert(x >= t * total) by (nonlinear_arith)
            requires
                x == total * (x / total) + x % total,
                x % total >= 0,
                x / total >= t,
                total > 0,
        ;
    }
    if x >= t * total {
        assert(t * total == total * t) by (nonlinear_arith);
        vstd::arithmetic::div_mod::lemma_div_is_ordered(total * t, x, total);
        vstd::arithmetic::div_mod::lemma_div_multiples_vanish(t, total);
    }
}

/// The tolerance band around a median: `[median * (1 - spread),
/// median * (1 + spread)]`, both edges rounded down to an atomic.
pub fn calculate_allowed_range(median: Decimal, spread: Decimal) -> (r: (Decimal, Decimal))
    requires
        spread.atomics <= FRACTIONAL,
        band_fits(median.atomics as int, spread.atomics as int),
    ensures
        r.0.atomics == spec_band_lo(median.atomics as int, spread.atomics as int),
        r.1.atomics == spec_band_hi(median.atomics as int, spread.atomics as int),
{
    let lo = median.mul_floor(Decimal::from_atomics(FRACTIONAL - spread.atomics));
    let hi = match median.try_mul_floor(Decimal::from_atomics(FRACTIONAL + spread.atomics)) {
        Some(h) => h,
        None => {
            proof {
                assert(false);
            }
            Decimal::zero()
        },
    };
    (lo, hi)
}

/// The tolerance band around a median, or `None` when its upper edge does
/// not fit in 128 bits.
pub fn try_allowed_range(median: Decimal, spread: Decimal) -> (r: Option<(Decimal, Decimal)>)
    requires
        spread.atomics <= FRACTIONAL,
    ensures
        band_fits(median.atomics as int, spread.atomics as int) ==> r == Some(
            (
                Decimal { atomics: spec_band_lo(median.atomics as int, spread.atomics as int) as u128 },
                Decimal { atomics: spec_band_hi(median.atomics as int, spread.atomics as int) as u128 },
            ),
        ),
        !band_fits(median.atomics as int, spread.atomics as int) ==> r is None,
{
    let lo = median.mul_floor(Decimal::from_atomics(FRACTIONAL - spread.atomics));
    match median.try_mul_floor(Decimal::from_atomics(FRACTIONAL + spread.atomics)) {
        Some(hi) => Some((lo, hi)),
        None => None,
    }
}

/// The votes whose price lies inside the closed band
/// `[allowed_minimum, allowed_maximum]`, in their original order.
pub fn filter_valid_votes(
    votes: &Vec<(String, OperatorVote)>,
    allowed_minimum: Decimal,
    allowed_maximum: Decimal,
) -> (r: Vec<(String, OperatorVote)>)
    ensures
        r@ == spec_valid_votes(votes@, allowed_minimum, allowed_maximum),
{
    let ghost pred = in_band_pred(allowed_minimum, allowed_maximum);
    let mut out: Vec<(String, OperatorVote)> = Vec::new();
    let mut i: usize = 0;
    proof {
        assert(votes@.take(0).filter(pred) =~= Seq::<(String, OperatorVote)>::empty()) by {
            reveal(Seq::filter);
        }
    }
    while i < votes.len()
        invariant
            0 <= i <= votes@.len(),
            out@ == votes@.take(i as int).filter(pred),
            pred == in_band_pred(allowed_minimum, allowed_maximum),
        decreases votes@.len() - i,
    {
        let price = votes[i].1.price;
        proof {
            reveal(Seq::filter);
            assert(votes@.take(i + 1).drop_last() =~= votes@.take(i as int));
            assert(votes@.take(i + 1).last() == votes@[i as int]);
        }
        if allowed_minimum.atomics <= price.atomics && price.atomics <= allowed_maximum.atomics {
            let name = votes[i].0.clone();
            let vote = votes[i].1;
            out.push((name, vote));
            proof {
                assert((votes@[i as int].0, votes@[i as int].1) == votes@[i as int]);
            }
        }
        i = i + 1;
    }
    proof {
        assert(votes@.take(votes@.len() as int) =~= votes@);
    }
    out
}

/// Whether the valid votes' weight is at least the threshold fraction of
/// all voting weight, compared as exact rationals. This agrees with
/// flooring `valid / total` to an atomic first, since the threshold is a
/// whole number of atomics.
pub fn is_threshold_met(valid_power: u128, total_power: u128, threshold_percent: Decimal) -> (r:
    bool)
    requires
        total_power > 0,
        threshold_percent.atomics <= FRACTIONAL,
    ensures
        r == spec_threshold_met(valid_power as int, total_power as int, threshold_percent),
{
    ratio_at_least(valid_power, total_power, threshold_percent.atomics)
}

/// The names of the voters whose price lies strictly outside the closed
/// band `[slashable_minimum, slashable_maximum]`, in their original order.
pub fn identify_slashable_operators(
    votes: &Vec<(String, OperatorVote)>,
    slashable_minimum: Decimal,
    slashable_maximum: Decimal,
) -> (r: Vec<String>)
    ensures
        r@ == spec_slashable(votes@, slashable_minimum, slashable_maximum),
{
    let ghost pred = outside_band_pred(slashable_minimum, slashable_maximum);
    let ghost name_of = |v: (String, OperatorVote)| v.0;
    let mut out: Vec<String> = Vec::new();
    let mut i: usize = 0;
    proof {
        assert(votes@.take(0).filter(pred) =~= Seq::<(String, OperatorVote)>::empty()) by {
            reveal(Seq::filter);
        }
        assert(out@ =~= votes@.take(0).filter(pred).map_values(name_of));
    }
    while i < votes.len()
        invariant
            0 <= i <= votes@.len(),
            out@ == votes@.take(i as int).filter(pred).map_values(name_of),
            pred == outside_band_pred(slashable_minimum, slashable_maximum),
            name_of == (|v: (String, OperatorVote)| v.0),
        decreases votes@.len() - i,
    {
        let price = votes[i].1.price;
        proof {
            reveal(Seq::filter);
            assert(votes@.take(i + 1).drop_last() =~= votes@.take(i as int));
            assert(votes@.take(i + 1).last() == votes@[i as int]);
        }
        if price.atomics < slashable_minimum.atomics || price.atomics > slashable_maximum.atomics {
            let name = votes[i].0.clone();
            out.push(name);
            proof {
                assert(votes@.take(i + 1).filter(pred) =~= votes@.take(i as int).filter(pred).push(
                    votes@[i as int],
                ));
                assert(votes@.take(i + 1).filter(pred).map_values(name_of) =~= votes@.take(
                    i as int,
                ).filter(pred).map_values(name_of).push(votes@[i as int].0));
            }
        } else {
            proof {
                assert(votes@.take(i + 1).filter(pred) =~= votes@.take(i as int).filter(pred));
            }
        }
        i = i + 1;
    }
    proof {
        assert(votes@.take(votes@.len() as int) =~= votes@);
    }
    out
}

/// A prefix never sums to more than the whole list.
proof fn lemma_sum_powers_prefix(votes: Seq<(String, OperatorVote)>, i: int)
    requires
        0 <= i <= votes.len(),
    ensures
        sum_powers(votes.take(i)) <= sum_powers(votes),
    decreases votes.len(),
{
    if i == votes.len() {
        assert(votes.take(i) =~= votes);
    } else {
        assert(votes.drop_last().take(i) =~= votes.take(i));
        lemma_sum_powers_prefix(votes.drop_last(), i);
    }
}

/// Keeping only some votes never increases the summed power.
proof fn lemma_sum_powers_filter(
    votes: Seq<(String, OperatorVote)>,
    pred: spec_fn((String, OperatorVote)) -> bool,
)
    ensures
        sum_powers(votes.filter(pred)) <= sum_powers(votes),
    decreases votes.len(),
{
    reveal(Seq::filter);
    if votes.len() > 0 {
        lemma_sum_powers_filter(votes.drop_last(), pred);
        let f0 = votes.drop_last().filter(pred);
        if pred(votes.last()) {
            assert(f0.push(votes.last()).drop_last() =~= f0);
            assert(f0.push(votes.last()).last() == votes.last());
        }
    }
}

/// Sums never go negative.
pub proof fn lemma_sum_powers_nonneg(votes: Seq<(String, OperatorVote)>)
    ensures
        sum_powers(votes) >= 0,
    decreases votes.len(),
{
    if votes.len() > 0 {
        lemma_sum_powers_nonneg(votes.drop_last());
    }
}

/// The summed voting power of a vote list, or `None` when the sum does not
/// fit in 128 bits.
pub fn total_vote_power(votes: &Vec<(String, OperatorVote)>) -> (r: Option<u128>)
    ensures
        sum_powers(votes@) <= u128::MAX ==> r == Some(sum_powers(votes@) as u128),
        sum_powers(votes@) > u128::MAX ==> r is None,
{
    let mut acc: u128 = 0;
    let mut i: usize = 0;
    proof {
        assert(votes@.take(0) =~= Seq::<(String, OperatorVote)>::empty());
    }
    while i < votes.len()
        invariant
            0 <= i <= votes@.len(),
            acc == sum_powers(votes@.take(i as int)),
        decreases votes@.len() - i,
    {
        proof {
            assert(votes@.take(i + 1).drop_last() =~= votes@.take(i as int));
            assert(votes@.take(i + 1).last() == votes@[i as int]);
        }
        match acc.checked_add(votes[i].1.power) {
            Some(a) => {
                acc = a;
            },
            None => {
                proof {
                    lemma_sum_powers_prefix(votes@, i + 1);
                }
                return None;
            },
        }
        i = i + 1;
    }
    proof {
        assert(votes@.take(votes@.len() as int) =~= votes@);
    }
    Some(acc)
}

/// Runs the median-spread resolution over the full vote list of one task:
/// computes the median price, flags the voters outside the slashable band,
/// and decides whether the weight inside the allowed band reaches the
/// threshold fraction of `total_power`. Fails only when a band edge does
/// not fit in 128 bits, where nothing is decided.
pub fn process_votes(votes: &Vec<(String, OperatorVote)>, total_power: u128, config: &Config) -> (r:
    Result<(Decimal, Vec<String>, bool), VerifierError>)
    requires
        config.wf(),
        config.strategy is MedianSpread,
        total_power > 0,
        sum_powers(votes@) <= u128::MAX,
    ensures
        ({
            let m = spec_median(prices_of(votes@));
            match config.strategy {
                TallyStrategy::MedianSpread { threshold_percent, allowed_spread, slashable_spread } => {
                    let fits = band_fits(m, allowed_spread.atomics as int) && band_fits(
                        m,
                        slashable_spread.atomics as int,
                    );
                    if fits {
                        let allowed_lo = Decimal {
                            atomics: spec_band_lo(m, allowed_spread.atomics as int) as u128,
                        };
                        let allowed_hi = Decimal {
                            atomics: spec_band_hi(m, allowed_spread.atomics as int) as u128,
                        };
                        let slash_lo = Decimal {
                            atomics: spec_band_lo(m, slashable_spread.atomics as int) as u128,
                        };
                        let slash_hi = Decimal {
                            atomics: spec_band_hi(m, slashable_spread.atomics as int) as u128,
                        };
                        match r {
                            Ok((median, slashable, met)) => {
                                &&& median.atomics == m
                                &&& slashable@ == spec_slashable(votes@, slash_lo, slash_hi)
                                &&& met == spec_threshold_met(
                                    sum_powers(spec_valid_votes(votes@, allowed_lo, allowed_hi)),
                                    total_power as int,
                                    threshold_percent,
                                )
                            },
                            Err(_) => false,
                        }
                    } else {
                        r == Err::<(Decimal, Vec<String>, bool), VerifierError>(
                            VerifierError::Overflow,
                        )
                    }
                },
                TallyStrategy::ExactMatch => true,
            }
        }),
{
    let (threshold_percent, allowed_spread, slashable_spread) = match &config.strategy {
        TallyStrategy::MedianSpread { threshold_percent, allowed_spread, slashable_spread } => (
            *threshold_percent,
            *allowed_spread,
            *slashable_spread,
        ),
        TallyStrategy::ExactMatch => {
            proof {
                assert(false);
            }
            (Decimal::zero(), Decimal::zero(), Decimal::zero())
        },
    };

    let mut all_prices: Vec<Decimal> = Vec::new();
    let mut i: usize = 0;
    proof {
        assert(all_prices@ =~= prices_of(votes@.take(0)));
    }
    while i < votes.len()
        invariant
            0 <= i <= votes@.len(),
            all_prices@ == prices_of(votes@.take(i as int)),
        decreases votes@.len() - i,
    {
        all_prices.push(votes[i].1.price);
        proof {
            assert(all_prices@ =~= prices_of(votes@.take(i + 1)));
        }
        i = i + 1;
    }
    proof {
        assert(votes@.take(votes@.len() as int) =~= votes@);
    }

    let median = calculate_median(&mut all_prices);

    let allowed = try_allowed_range(median, allowed_spread);
    let slash = try_allowed_range(median, slashable_spread);
    let (allowed_minimum, allowed_maximum) = match allowed {
        Some(b) => b,
        None => {
            return Err(VerifierError::Overflow);
        },
    };
    let (slashable_minimum, slashable_maximum) = match slash {
        Some(b) => b,
        None => {
            return Err(VerifierError::Overflow);
        },
    };

    let valid_votes = filter_valid_votes(votes, allowed_minimum, allowed_maximum);
    proof {
        lemma_sum_powers_filter(votes@, in_band_pred(allowed_minimum, allowed_maximum));
        lemma_sum_powers_nonneg(valid_votes@);
    }
    let valid_power = match total_vote_power(&valid_votes) {
        Some(p) => p,
        None => {
            proof {
                assert(false);
            }
            0
        },
    };

    let met = is_threshold_met(valid_power, total_power, threshold_percent);
    let slashable_operators = identify_slashable_operators(
        votes,
        slashable_minimum,
        slashable_maximum,
    );

    Ok((median, slashable_operators, met))
}

} // verus!
