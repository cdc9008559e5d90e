//! Parsing of submitted price results.
//!
//! A median-spread result message is a single-field object carrying the
//! price as a quoted decimal literal, for example `{"price": "10.5"}`:
//! optional blanks, `{`, the key `"price"`, `:`, then one or more digits
//! with an optional fraction of one to eighteen digits, quoted, and `}`.
//! The value is read exactly, in atomics of `10^-18`; a value that does
//! not fit in 128 bits does not parse.

use crate::fixed::{Decimal, FRACTIONAL};
use vstd::prelude::*;
use vstd::string::StrSliceExecFns;

verus! {

/// Blank characters allowed around tokens.
pub open spec fn is_ws(c: char) -> bool {
    c == ' ' || c == '\t' || c == '\n' || c == '\r'
}

pub open spec fn is_digit(c: char) -> bool {
    '0' as int <= c as int && c as int <= '9' as int
}

pub open spec fn digit_val(c: char) -> int {
    c as int - '0' as int
}

/// First index at or after `i` holding something other than a blank.
pub open spec fn skip_ws(s: Seq<char>, i: int) -> int
    decreases s.len() - i,
    when 0 <= i <= s.len()
{
    if i < s.len() && is_ws(s[i]) {
        skip_ws(s, i + 1)
    } else {
        i
    }
}

/// First index at or after `i` holding something other than a digit.
pub open spec fn scan_digits(s: Seq<char>, i: int) -> int
    decreases s.len() - i,
    when 0 <= i <= s.len()
{
    if i < s.len() && is_digit(s[i]) {
        scan_digits(s, i + 1)
    } else {
        i
    }
}

/// The number written by the digits `s[i..j)`, most significant first.
pub open spec fn digits_val(s: Seq<char>, i: int, j: int) -> int
    decreases j - i,
    when i <= j
{
    if i >= j {
        0
    } else {
        digits_val(s, i, j - 1) * 10 + digit_val(s[j - 1])
    }
}

pub open spec fn pow10(e: nat) -> int
    decreases e,
{
    if e == 0 {
        1
    } else {
        10 * pow10((e - 1) as nat)
    }
}

/// Whether the seven characters of the quoted key `"price"` stand at `i`.
pub open spec fn key_at(s: Seq<char>, i: int) -> bool {
    &&& i + 7 <= s.len()
    &&& s[i] == '"'
    &&& s[i + 1] == 'p'
    &&& s[i + 2] == 'r'
    &&& s[i + 3] == 'i'
    &&& s[i + 4] == 'c'
    &&& s[i + 5] == 'e'
    &&& s[i + 6] == '"'
}

/// Whether only the closing brace, surrounded by blanks, stands at `i`.
pub open spec fn tail_ok(s: Seq<char>, i: int) -> bool {
    let b = skip_ws(s, i);
    &&& b < s.len()
    &&& s[b] == '}'
    &&& skip_ws(s, b + 1) == s.len()
}

/// The price, in atomics, written by the digit run starting at `d0`:
/// the whole part, then an optional `.` and a fraction of one to
/// eighteen digits. `None` when the shape is wrong or the value does
/// not fit in 128 bits; otherwise the index just past the number and
/// its value.
pub open spec fn number_at(s: Seq<char>, d0: int) -> Option<(int, int)>
    recommends
        0 <= d0 <= s.len(),
{
    let d1 = scan_digits(s, d0);
    if d1 == d0 {
        None
    } else {
        let whole = digits_val(s, d0, d1);
        if d1 < s.len() && s[d1] == '.' {
            let f1 = scan_digits(s, d1 + 1);
            let n = f1 - (d1 + 1);
            if n < 1 || n > 18 {
                None
            } else {
                let v = whole * FRACTIONAL + digits_val(s, d1 + 1, f1) * pow10((18 - n) as nat);
                if v > u128::MAX {
                    None
                } else {
                    Some((f1, v))
                }
            }
        } else {
            let v = whole * FRACTIONAL;
            if v > u128::MAX {
                None
            } else {
                Some((d1, v))
            }
        }
    }
}

/// The price, in atomics, carried by a well-formed result message, and
/// `None` for anything else.
pub open spec fn spec_parse_price(s: Seq<char>) -> Option<int> {
    let i0 = skip_ws(s, 0);
    if !(i0 < s.len() && s[i0] == '{') {
        None
    } else {
        let i1 = skip_ws(s, i0 + 1);
        if !key_at(s, i1) {
            None
        } else {
            let i2 = skip_ws(s, i1 + 7);
            if !(i2 < s.len() && s[i2] == ':') {
                None
            } else {
                let i3 = skip_ws(s, i2 + 1);
                if !(i3 < s.len() && s[i3] == '"') {
                    None
                } else {
                    match number_at(s, i3 + 1) {
                        None => None,
                        Some((e, v)) => {
                            if e < s.len() && s[e] == '"' && tail_ok(s, e + 1) {
                                Some(v)
                            } else {
                                None
                            }
                        },
                    }
                }
            }
        }
    }
}

proof fn lemma_skip_ws_bounds(s: Seq<char>, i: int)
    requires
        0 <= i <= s.len(),
    ensures
        i <= skip_ws(s, i) <= s.len(),
    decreases s.len() - i,
{
    if i < s.len() && is_ws(s[i]) {
        lemma_skip_ws_bounds(s, i + 1);
    }
}

proof fn lemma_scan_digits_bounds(s: Seq<char>, i: int)
    requires
        0 <= i <= s.len(),
    ensures
        i <= scan_digits(s, i) <= s.len(),
        forall|k: int| i <= k < scan_digits(s, i) ==> is_digit(s[k]),
    decreases s.len() - i,
{
    if i < s.len() && is_digit(s[i]) {
        lemma_scan_digits_bounds(s, i + 1);
    }
}

proof fn lemma_digits_val_nonneg(s: Seq<char>, i: int, j: int)
    requires
        i <= j,
        forall|k: int| i <= k < j ==> is_digit(s[k]),
    ensures
        digits_val(s, i, j) >= 0,
    decreases j - i,
{
    if i < j {
        lemma_digits_val_nonneg(s, i, j - 1);
    }
}

proof fn lemma_digits_val_mono(s: Seq<char>, i: int, k: int, j: int)
    requires
        i <= k <= j,
        forall|m: int| i <= m < j ==> is_digit(s[m]),
    ensures
        digits_val(s, i, j) >= digits_val(s, i, k),
    decreases j - k,
{
    if k < j {
        lemma_digits_val_mono(s, i, k, j - 1);
        lemma_digits_val_nonneg(s, i, j - 1);
    }
}

proof fn lemma_digits_val_bound(s: Seq<char>, i: int, j: int)
    requires
        i <= j,
        forall|k: int| i <= k < j ==> is_digit(s[k]),
    ensures
        digits_val(s, i, j) < pow10((j - i) as nat),
    decreases j - i,
{
    if i < j {
        lemma_digits_val_bound(s, i, j - 1);
    }
}

proof fn lemma_pow10_mul(a: nat, b: nat)
    ensures
        pow10(a) * pow10(b) == pow10(a + b),
    decreases a,
{
    if a == 0 {
    } else {
        lemma_pow10_mul((a - 1) as nat, b);
        assert(pow10(a) * pow10(b) == 10 * (pow10((a - 1) as nat) * pow10(b)))
            by (nonlinear_arith)
            requires
                pow10(a) == 10 * pow10((a - 1) as nat),
        ;
    }
}

proof fn lemma_pow10_pos(e: nat)
    ensures
        pow10(e) >= 1,
    decreases e,
{
    if e > 0 {
        lemma_pow10_pos((e - 1) as nat);
    }
}

fn is_ws_char(c: char) -> (r: bool)
    ensures
        r == is_ws(c),
{
    c == ' ' || c == '\t' || c == '\n' || c == '\r'
}

fn is_digit_char(c: char) -> (r: bool)
    ensures
        r == is_digit(c),
{
    let u = c as u32;
    48 <= u && u <= 57
}

fn skip_ws_exec(s: &str, len: usize, i: usize) -> (r: usize)
    requires
        len == s@.len(),
        i <= len,
    ensures
        r == skip_ws(s@, i as int),
        i <= r <= len,
{
    let mut j: usize = i;
    while j < len && is_ws_char(s.get_char(j))
        invariant
            i <= j <= len,
            len == s@.len(),
            skip_ws(s@, i as int) == skip_ws(s@, j as int),
        decreases len - j,
    {
        j = j + 1;
    }
    j
}

fn scan_digits_exec(s: &str, len: usize, i: usize) -> (r: usize)
    requires
        len == s@.len(),
        i <= len,
    ensures
        r == scan_digits(s@, i as int),
        i <= r <= len,
{
    let mut j: usize = i;
    while j < len && is_digit_char(s.get_char(j))
        invariant
            i <= j <= len,
            len == s@.len(),
            scan_digits(s@, i as int) == scan_digits(s@, j as int),
        decreases len - j,
    {
        j = j + 1;
    }
    j
}

/// The value of the digit run `s[i..j)`, or `None` when it exceeds 128
/// bits.
fn digits_val_exec(s: &str, len: usize, i: usize, j: usize) -> (r: Option<u128>)
    requires
        len == s@.len(),
        i <= j <= len,
        forall|k: int| i <= k < j ==> is_digit(s@[k]),
    ensures
        digits_val(s@, i as int, j as int) <= u128::MAX ==> r is Some && r->0 == digits_val(
            s@,
            i as int,
            j as int,
        ),
        digits_val(s@, i as int, j as int) > u128::MAX ==> r is None,
{
    let mut acc: u128 = 0;
    let mut k: usize = i;
    while k < j
        invariant
            i <= k <= j <= len,
            len == s@.len(),
            forall|m: int| i <= m < j ==> is_digit(s@[m]),
            acc == digits_val(s@, i as int, k as int),
        decreases j - k,
    {
        let c = s.get_char(k);
        let d = (c as u32) - 48;
        proof {
            assert(is_digit(s@[k as int]));
        }
        let next = match acc.checked_mul(10) {
            Some(t) => t.checked_add(d as u128),
            None => None,
        };
        match next {
            Some(a) => {
                acc = a;
            },
            None => {
                proof {
                    lemma_digits_val_mono(s@, i as int, k + 1, j as int);
                    lemma_digits_val_nonneg(s@, i as int, k as int);
                }
                return None;
            },
        }
        k = k + 1;
    }
    Some(acc)
}

fn pow10_exec(e: u32) -> (r: u128)
    requires
        e <= 18,
    ensures
        r == pow10(e as nat),
{
    let mut acc: u128 = 1;
    let mut k: u32 = 0;
    while k < e
        invariant
            0 <= k <= e <= 18,
            acc == pow10(k as nat),
        decreases e - k,
    {
        proof {
            lemma_pow10_pos(k as nat);
            assert(pow10((k + 1) as nat) == 10 * pow10(k as nat));
            lemma_pow10_vals();
            assert(pow10(k as nat) <= pow10(17nat)) by {
                lemma_pow10_mono(k as nat, 17nat);
            }
        }
        acc = acc * 10;
        k = k + 1;
    }
    acc
}

proof fn lemma_pow10_vals()
    ensures
        pow10(17nat) == 100_000_000_000_000_000,
        pow10(18nat) == 1_000_000_000_000_000_000,
{
    reveal_with_fuel(pow10, 20);
}

proof fn lemma_pow10_mono(a: nat, b: nat)
    requires
        a <= b,
    ensures
        pow10(a) <= pow10(b),
    decreases b,
{
    if a < b {
        lemma_pow10_mono(a, (b - 1) as nat);
        lemma_pow10_pos((b - 1) as nat);
    }
}

/// Reads the digit run starting at `d0` as a price in atomics; `None`
/// when the shape is wrong or the value does not fit.
fn number_at_exec(s: &str, len: usize, d0: usize) -> (r: Option<(usize, u128)>)
    requires
        len == s@.len(),
        d0 <= len,
    ensures
        number_at(s@, d0 as int) is Some ==> r is Some && (r->0).0 == (number_at(
            s@,
            d0 as int,
        )->0).0 && (r->0).1 == (number_at(s@, d0 as int)->0).1,
        number_at(s@, d0 as int) is None ==> r is None,
{
    let d1 = scan_digits_exec(s, len, d0);
    proof {
        lemma_scan_digits_bounds(s@, d0 as int);
    }
    if d1 == d0 {
        return None;
    }
    let whole = match digits_val_exec(s, len, d0, d1) {
        Some(w) => w,
        None => {
            proof {
                lemma_whole_overflow(s@, d0 as int, d1 as int);
                if d1 < s@.len() && s@[d1 as int] == '.' {
                    lemma_scan_digits_bounds(s@, d1 + 1);
                    let f1 = scan_digits(s@, d1 + 1);
                    let n = f1 - (d1 + 1);
                    lemma_digits_val_nonneg(s@, d1 + 1, f1);
                    if 1 <= n && n <= 18 {
                        lemma_pow10_pos((18 - n) as nat);
                        assert(digits_val(s@, d1 + 1, f1) * pow10((18 - n) as nat) >= 0)
                            by (nonlinear_arith)
                            requires
                                digits_val(s@, d1 + 1, f1) >= 0,
                                pow10((18 - n) as nat) >= 1,
                        ;
                    }
                }
            }
            return None;
        },
    };
    if d1 < len && s.get_char(d1) == '.' {
        let f0 = d1 + 1;
        let f1 = scan_digits_exec(s, len, f0);
        proof {
            lemma_scan_digits_bounds(s@, f0 as int);
        }
        let n = f1 - f0;
        if n < 1 || n > 18 {
            return None;
        }
        let frac = match digits_val_exec(s, len, f0, f1) {
            Some(f) => f,
            None => {
                proof {
                    lemma_digits_val_bound(s@, f0 as int, f1 as int);
                    lemma_pow10_mono((f1 - f0) as nat, 18nat);
                    lemma_pow10_vals();
                    assert(false);
                }
                0
            },
        };
        proof {
            lemma_digits_val_bound(s@, f0 as int, f1 as int);
            lemma_pow10_mono((f1 - f0) as nat, 18nat);
            lemma_pow10_vals();
            lemma_pow10_pos((18 - (f1 - f0)) as nat);
            lemma_digits_val_nonneg(s@, f0 as int, f1 as int);
            lemma_pow10_mul((f1 - f0) as nat, (18 - (f1 - f0)) as nat);
            assert(frac * pow10((18 - (f1 - f0)) as nat) < pow10((f1 - f0) as nat) * pow10(
                (18 - (f1 - f0)) as nat,
            )) by (nonlinear_arith)
                requires
                    frac < pow10((f1 - f0) as nat),
                    pow10((18 - (f1 - f0)) as nat) >= 1,
                    frac >= 0,
            ;
            assert(frac * pow10((18 - (f1 - f0)) as nat) >= 0) by (nonlinear_arith)
                requires
                    frac >= 0,
                    pow10((18 - (f1 - f0)) as nat) >= 1,
            ;
        }
        let scale = pow10_exec(18 - (n as u32));
        let scaled = frac * scale;
        match whole.checked_mul(FRACTIONAL) {
            Some(base) => match base.checked_add(scaled) {
                Some(v) => Some((f1, v)),
                None => None,
            },
            None => {
                proof {
                    assert(whole * FRACTIONAL + frac * pow10((18 - (f1 - f0)) as nat) > u128::MAX);
                }
                None
            },
        }
    } else {
        match whole.checked_mul(FRACTIONAL) {
            Some(v) => Some((d1, v)),
            None => None,
        }
    }
}

/// If the whole part alone exceeds 128 bits, so does any price built
/// from it.
proof fn lemma_whole_overflow(s: Seq<char>, d0: int, d1: int)
    requires
        d0 <= d1,
        digits_val(s, d0, d1) > u128::MAX,
        forall|k: int| d0 <= k < d1 ==> is_digit(s[k]),
    ensures
        digits_val(s, d0, d1) * FRACTIONAL > u128::MAX,
{
    let w = digits_val(s, d0, d1);
    assert(w * FRACTIONAL >= w) by (nonlinear_arith)
        requires
            w > 0,
            FRACTIONAL >= 1,
    ;
}

/// Parses a result message and returns the submitted price; `None` for
/// anything that is not a well-formed price message, and for a price
/// that does not fit in 128 bits of atomics.
pub fn parse_price_result(s: &str) -> (r: Option<Decimal>)
    ensures
        spec_parse_price(s@) is Some ==> r is Some && r->0.atomics == spec_parse_price(s@)->0,
        spec_parse_price(s@) is None ==> r is None,
{
    let len = s.unicode_len();
    let i0 = skip_ws_exec(s, len, 0);
    if !(i0 < len && s.get_char(i0) == '{') {
        return None;
    }
    let i1 = skip_ws_exec(s, len, i0 + 1);
    if !(len - i1 >= 7 && s.get_char(i1) == '"' && s.get_char(i1 + 1) == 'p' && s.get_char(i1 + 2)
        == 'r' && s.get_char(i1 + 3) == 'i' && s.get_char(i1 + 4) == 'c' && s.get_char(i1 + 5)
        == 'e' && s.get_char(i1 + 6) == '"') {
        return None;
    }
    let i2 = skip_ws_exec(s, len, i1 + 7);
    if !(i2 < len && s.get_char(i2) == ':') {
        return None;
    }
    let i3 = skip_ws_exec(s, len, i2 + 1);
    if !(i3 < len && s.get_char(i3) == '"') {
        return None;
    }
    let (e, v) = match number_at_exec(s, len, i3 + 1) {
        Some(ev) => ev,
        None => {
            return None;
        },
    };
    if !(e < len && s.get_char(e) == '"') {
        return None;
    }
    let i4 = skip_ws_exec(s, len, e + 1);
    if !(i4 < len && s.get_char(i4) == '}') {
        return None;
    }
    let i5 = skip_ws_exec(s, len, i4 + 1);
    if i5 != len {
        return None;
    }
    Some(Decimal::from_atomics(v))
}

} // verus!
