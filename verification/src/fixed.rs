//! An unsigned fixed-point decimal with 18 fractional digits.
//!
//! A value is stored as an integer count of "atomics", each worth 10^-18,
//! so `1.5` is stored as `1_500_000_000_000_000_000`. This is the numeric
//! type in which submitted prices, spreads and threshold ratios are kept.

use vstd::arithmetic::div_mod::{
    lemma_fundamental_div_mod, lemma_fundamental_div_mod_converse_div,
};
use vstd::prelude::*;

verus! {

/// Number of atomics in one whole unit: 10^18.
pub const FRACTIONAL: u128 = 1_000_000_000_000_000_000;

/// Number of atomics in one hundredth of a unit: 10^16.
pub const PERCENT_ATOMICS: u128 = 10_000_000_000_000_000;

#[derive(Clone, Copy, Debug, PartialEq, Eq, Structural)]
pub struct Decimal {
    pub atomics: u128,
}

impl Decimal {
    pub fn zero() -> (r: Decimal)
        ensures
            r.atomics == 0,
    {
        Decimal { atomics: 0 }
    }

    pub fn one() -> (r: Decimal)
        ensures
            r.atomics == FRACTIONAL,
    {
        Decimal { atomics: FRACTIONAL }
    }

    /// The value `x / 100`, exact.
    pub fn percent(x: u64) -> (r: Decimal)
        ensures
            r.atomics == x * PERCENT_ATOMICS,
    {
        assert(x * PERCENT_ATOMICS <= u64::MAX * PERCENT_ATOMICS <= u128::MAX)
            by (nonlinear_arith);
        Decimal { atomics: (x as u128) * PERCENT_ATOMICS }
    }

    pub fn from_atomics(atomics: u128) -> (r: Decimal)
        ensures
            r.atomics == atomics,
    {
        Decimal { atomics }
    }

    pub fn atomics(&self) -> (r: u128)
        ensures
            r == self.atomics,
    {
        self.atomics
    }

    pub fn is_zero(&self) -> (r: bool)
        ensures
            r == (self.atomics == 0),
    {
        self.atomics == 0
    }
}

/// `2^64`, the base in which double-width products are carried.
const CARRY_BASE: u128 = 0x1_0000_0000_0000_0000;

/// Splitting a numerator at a divisor boundary: the quotient of `a * b`
/// by `d` is the whole part `(a / d) * b` plus the quotient of the
/// remainder's product.
pub proof fn lemma_mul_div_decompose(a: int, b: int, d: int)
    requires
        a >= 0,
        b >= 0,
        d > 0,
    ensures
        (a * b) / d == (a / d) * b + ((a % d) * b) / d,
{
    let q = a / d;
    let r = a % d;
    lemma_fundamental_div_mod(a, d);
    lemma_fundamental_div_mod(r * b, d);
    let p2 = (r * b) / d;
    let r2 = (r * b) % d;
    assert(a * b == (q * b + p2) * d + r2) by (nonlinear_arith)
        requires
            a == d * q + r,
            r * b == d * p2 + r2,
    ;
    assert(q * b + p2 >= 0) by (nonlinear_arith)
        requires
            q >= 0,
            b >= 0,
            p2 >= 0,
    ;
    lemma_fundamental_div_mod_converse_div(a * b, d, q * b + p2, r2);
}

impl Decimal {
    /// The mean of two values, with any half-atomic remainder rounded up.
    pub fn half_up_avg(self, other: Decimal) -> (r: Decimal)
        ensures
            r.atomics == (self.atomics + other.atomics + 1) / 2,
    {
        let a = self.atomics;
        let b = other.atomics;
        let r = a / 2 + b / 2 + (a % 2 + b % 2 + 1) / 2;
        proof {
            lemma_fundamental_div_mod(a as int, 2);
            lemma_fundamental_div_mod(b as int, 2);
            let s = a % 2 + b % 2 + 1;
            lemma_fundamental_div_mod(s as int, 2);
            lemma_fundamental_div_mod_converse_div(
                a + b + 1,
                2,
                a / 2 + b / 2 + s / 2,
                (s % 2) as int,
            );
        }
        Decimal { atomics: r }
    }

    /// Product with a factor of at most one, rounded down to an atomic.
    /// The result never exceeds `self`, so it always fits.
    pub fn mul_floor(self, factor: Decimal) -> (r: Decimal)
        requires
            factor.atomics <= FRACTIONAL,
        ensures
            r.atomics == (self.atomics * factor.atomics) / FRACTIONAL as int,
            r.atomics <= self.atomics,
    {
        let q = self.atomics / FRACTIONAL;
        let rem = self.atomics % FRACTIONAL;
        proof {
            lemma_mul_div_decompose(self.atomics as int, factor.atomics as int, FRACTIONAL as int);
            lemma_fundamental_div_mod(self.atomics as int, FRACTIONAL as int);
            assert(rem * factor.atomics <= u128::MAX && q * factor.atomics + (rem * factor.atomics)
                / (FRACTIONAL as int) <= self.atomics) by (nonlinear_arith)
                requires
                    rem < FRACTIONAL,
                    factor.atomics <= FRACTIONAL,
                    self.atomics == FRACTIONAL * q + rem,
                    FRACTIONAL == 1_000_000_000_000_000_000u128,
                    rem >= 0,
                    q >= 0,
            ;
        }
        let low = (rem * factor.atomics) / FRACTIONAL;
        Decimal { atomics: q * factor.atomics + low }
    }

    /// Product with a factor of at most two, rounded down to an atomic,
    /// or `None` when the product does not fit.
    pub fn try_mul_floor(self, factor: Decimal) -> (r: Option<Decimal>)
        requires
            factor.atomics <= 2 * FRACTIONAL,
        ensures
            (self.atomics * factor.atomics) / FRACTIONAL as int <= u128::MAX ==> r == Some(
                Decimal { atomics: ((self.atomics * factor.atomics) / FRACTIONAL as int) as u128 },
            ),
            (self.atomics * factor.atomics) / FRACTIONAL as int > u128::MAX ==> r is None,
    {
        let q = self.atomics / FRACTIONAL;
        let rem = self.atomics % FRACTIONAL;
        proof {
            lemma_mul_div_decompose(self.atomics as int, factor.atomics as int, FRACTIONAL as int);
            assert(rem * factor.atomics <= u128::MAX) by (nonlinear_arith)
                requires
                    rem < FRACTIONAL,
                    factor.atomics <= 2 * FRACTIONAL,
                    FRACTIONAL == 1_000_000_000_000_000_000u128,
            ;
        }
        let low = (rem * factor.atomics) / FRACTIONAL;
        match q.checked_mul(factor.atomics) {
            Some(high) => match high.checked_add(low) {
                Some(a) => Some(Decimal { atomics: a }),
                None => None,
            },
            None => {
                proof {
                    assert(q * factor.atomics > u128::MAX ==> (self.atomics * factor.atomics)
                        / FRACTIONAL as int > u128::MAX);
                }
                None
            },
        }
    }
}

/// A double-width product `a * s`, returned as `(high, low)` digits in
/// base `2^64`; `s` must fit in 64 bits.
fn wide_mul_small(a: u128, s: u128) -> (r: (u128, u128))
    requires
        s < CARRY_BASE,
    ensures
        r.0 * CARRY_BASE + r.1 == a * s,
        r.1 < CARRY_BASE,
{
    let ah = a / CARRY_BASE;
    let al = a % CARRY_BASE;
    proof {
        lemma_fundamental_div_mod(a as int, CARRY_BASE as int);
        assert(al * s <= u128::MAX && ah * s <= u128::MAX) by (nonlinear_arith)
            requires
                al < CARRY_BASE,
                ah <= u128::MAX / CARRY_BASE,
                s < CARRY_BASE,
                CARRY_BASE == 0x1_0000_0000_0000_0000u128,
        ;
    }
    let t = al * s;
    let u = ah * s;
    proof {
        lemma_fundamental_div_mod(t as int, CARRY_BASE as int);
        assert(u + t / CARRY_BASE <= u128::MAX) by (nonlinear_arith)
            requires
                u == ah * s,
                ah <= u128::MAX / CARRY_BASE,
                s < CARRY_BASE,
                t <= u128::MAX,
                CARRY_BASE == 0x1_0000_0000_0000_0000u128,
        ;
        assert((u + t / CARRY_BASE) * CARRY_BASE + t % CARRY_BASE == a * s) by (nonlinear_arith)
            requires
                a == CARRY_BASE * ah + al,
                t == al * s,
                u == ah * s,
                t == CARRY_BASE * (t / CARRY_BASE) + t % CARRY_BASE,
        ;
    }
    (u + t / CARRY_BASE, t % CARRY_BASE)
}

/// Whether `valid * FRACTIONAL >= threshold_atomics * total`, computed
/// exactly in double-width arithmetic.
pub fn ratio_at_least(valid: u128, total: u128, threshold_atomics: u128) -> (r: bool)
    requires
        threshold_atomics <= FRACTIONAL,
    ensures
        r == (valid * FRACTIONAL >= threshold_atomics * total),
{
    let (h1, l1) = wide_mul_small(valid, FRACTIONAL);
    let (h2, l2) = wide_mul_small(total, threshold_atomics);
    proof {
        assert(total * threshold_atomics == threshold_atomics * total) by (nonlinear_arith);
        if h1 > h2 {
            assert(h1 * CARRY_BASE + l1 >= h2 * CARRY_BASE + l2) by (nonlinear_arith)
                requires
                    h1 > h2,
                    l1 < CARRY_BASE,
                    l2 < CARRY_BASE,
                    l1 >= 0,
            ;
        }
        if h1 < h2 {
            assert(h1 * CARRY_BASE + l1 < h2 * CARRY_BASE + l2) by (nonlinear_arith)
                requires
                    h1 < h2,
                    l1 < CARRY_BASE,
                    l2 < CARRY_BASE,
                    l2 >= 0,
            ;
        }
    }
    h1 > h2 || (h1 == h2 && l1 >= l2)
}

impl PartialOrd for Decimal {
    fn partial_cmp(&self, other: &Decimal) -> (r: Option<core::cmp::Ordering>) {
        if self.atomics < other.atomics {
            Some(core::cmp::Ordering::Less)
        } else if self.atomics == other.atomics {
            Some(core::cmp::Ordering::Equal)
        } else {
            Some(core::cmp::Ordering::Greater)
        }
    }
}

impl vstd::std_specs::cmp::PartialOrdSpecImpl for Decimal {
    open spec fn obeys_partial_cmp_spec() -> bool {
        true
    }

    open spec fn partial_cmp_spec(&self, other: &Decimal) -> Option<core::cmp::Ordering> {
        if self.atomics < other.atomics {
            Some(core::cmp::Ordering::Less)
        } else if self.atomics == other.atomics {
            Some(core::cmp::Ordering::Equal)
        } else {
            Some(core::cmp::Ordering::Greater)
        }
    }
}

} // verus!
