use std::str::FromStr;
use vote_verifier::fixed::{Decimal, FRACTIONAL};
use vote_verifier::parse::parse_price_result;

#[test]
fn atomics_representation_matches_cosmwasm() {
    for pct in [1u64, 10, 12, 33, 50, 100, 150, 1050, 10000, 1_000_000_000_000] {
        let ours = Decimal::percent(pct);
        let theirs = cosmwasm_std::Decimal::percent(pct);
        assert_eq!(ours.atomics(), theirs.atomics().u128());
    }
    assert_eq!(Decimal::one().atomics(), cosmwasm_std::Decimal::one().atomics().u128());
    assert_eq!(Decimal::zero().atomics(), cosmwasm_std::Decimal::zero().atomics().u128());
}

#[test]
fn parsed_prices_match_cosmwasm_from_str() {
    for text in [
        "0", "1", "000012", "1.23", "1.123000000", "10.5", "0.33", "100", "98",
        "340282366920938463463.374607431768211455",
    ] {
        let message = format!("{{\"price\": \"{}\"}}", text);
        let ours = parse_price_result(&message).expect(text);
        let theirs = cosmwasm_std::Decimal::from_str(text).expect(text);
        assert_eq!(ours.atomics(), theirs.atomics().u128(), "{}", text);
    }
}

#[test]
fn unparsable_prices_match_cosmwasm_from_str() {
    // Rejected by both: empty, a bare dot fraction, too many fractional
    // digits, a second dot, and a value over the representable maximum.
    for text in [
        "", ".23", "1.", "1.2.3", "1.0000000000000000001",
        "340282366920938463463.374607431768211456",
    ] {
        let message = format!("{{\"price\": \"{}\"}}", text);
        assert!(parse_price_result(&message).is_none(), "{}", text);
        assert!(cosmwasm_std::Decimal::from_str(text).is_err(), "{}", text);
    }
}

#[test]
fn half_up_average() {
    // An odd atomics sum rounds up at the last (18th) decimal place.
    let a = Decimal::from_atomics(3);
    let b = Decimal::from_atomics(4);
    assert_eq!(a.half_up_avg(b).atomics(), 4);
    assert_eq!(a.half_up_avg(a).atomics(), 3);
    assert_eq!(
        Decimal::percent(300).half_up_avg(Decimal::percent(500)),
        Decimal::percent(400)
    );
}

#[test]
fn fractional_constant_is_ten_to_the_eighteenth() {
    assert_eq!(FRACTIONAL, 1_000_000_000_000_000_000u128);
    assert_eq!(Decimal::percent(100), Decimal::one());
}
