use vote_verifier::fixed::Decimal;
use vote_verifier::spread::calculate_allowed_range;

#[test]
fn calculate_allowed_range_normal() {
    let median = Decimal::one();
    let spread = Decimal::percent(10);

    let (allowed_minimum, allowed_maximum) = calculate_allowed_range(median, spread);

    // allowed_minimum = 100 * (1 - 0.10) = 90
    // allowed_maximum = 100 * (1 + 0.10) = 110

    assert_eq!(allowed_minimum, Decimal::percent(90));
    assert_eq!(allowed_maximum, Decimal::percent(110));
}

#[test]
fn calculate_allowed_range_zero_spread() {
    let median = Decimal::one();
    let spread = Decimal::zero();

    let (allowed_minimum, allowed_maximum) = calculate_allowed_range(median, spread);

    // allowed_minimum = 100 * (1 - 0) = 100
    // allowed_maximum = 100 * (1 + 0) = 100

    assert_eq!(allowed_minimum, median);
    assert_eq!(allowed_maximum, median);
}

#[test]
fn calculate_allowed_range_full_spread() {
    let median = Decimal::one();
    let spread = Decimal::one();

    let (allowed_minimum, allowed_maximum) = calculate_allowed_range(median, spread);

    // allowed_minimum = 100 * (1 - 1) = 0
    // allowed_maximum = 100 * (1 + 1) = 200

    assert_eq!(allowed_minimum, Decimal::zero());
    assert_eq!(allowed_maximum, Decimal::percent(200));
}

#[test]
fn calculate_allowed_range_zero_median() {
    let median = Decimal::zero();
    let spread = Decimal::percent(10);

    let (allowed_minimum, allowed_maximum) = calculate_allowed_range(median, spread);

    assert_eq!(allowed_minimum, Decimal::zero());
    assert_eq!(allowed_maximum, Decimal::zero());
}

#[test]
fn calculate_allowed_range_fractional_median() {
    let median = Decimal::percent(1500);
    let spread = Decimal::percent(10);

    let (allowed_minimum, allowed_maximum) = calculate_allowed_range(median, spread);

    // allowed_minimum = 15.0 * (1 - 0.10) = 13.5
    // allowed_maximum = 15.0 * (1 + 0.10) = 16.5

    assert_eq!(allowed_minimum, Decimal::percent(1350)); // 13.5
    assert_eq!(allowed_maximum, Decimal::percent(1650)); // 16.5
}

#[test]
fn calculate_allowed_range_fractional_spread() {
    let median = Decimal::one();
    // 0.15 or %15
    let spread = Decimal::percent(15);

    let (allowed_minimum, allowed_maximum) = calculate_allowed_range(median, spread);

    // allowed_minimum = 100 * (1 - 0.15) = 85
    // allowed_maximum = 100 * (1 + 0.15) = 115

    assert_eq!(allowed_minimum, Decimal::percent(85));
    assert_eq!(allowed_maximum, Decimal::percent(115));
}

#[test]
fn calculate_allowed_range_large_numbers() {
    let median = Decimal::percent(1_000_000_000_000u64);
    let spread = Decimal::percent(10);

    let (allowed_minimum, allowed_maximum) = calculate_allowed_range(median, spread);

    // allowed_minimum = 1,000,000,000,000 * (1 - 0.1) = 900,000,000,000
    // allowed_maximum = 1,000,000,000,000 * (1 + 0.1) = 1,100,000,000,000

    assert_eq!(allowed_minimum, Decimal::percent(900_000_000_000u64));
    assert_eq!(allowed_maximum, Decimal::percent(1_100_000_000_000u64));
}
