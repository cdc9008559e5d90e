use vote_verifier::fixed::Decimal;
use vote_verifier::median::calculate_median;

#[test]
fn calculate_median_odd_length() {
    let mut values = vec![Decimal::one(), Decimal::percent(300), Decimal::percent(500)];
    let median = calculate_median(&mut values);
    // we have 1, 3 and 5, so median should be 3
    assert_eq!(median, Decimal::percent(300));
}

#[test]
fn calculate_median_even_length() {
    let mut values = vec![
        Decimal::one(),
        Decimal::percent(300),
        Decimal::percent(500),
        Decimal::percent(700),
    ];
    let median = calculate_median(&mut values);
    // this time we have 1, 3, 5 and 7 so median should be (3 + 5) / 2 = 4
    assert_eq!(median, Decimal::percent(400));
}

#[test]
fn calculate_median_unsorted() {
    let mut values = vec![Decimal::percent(500), Decimal::one(), Decimal::percent(300)];
    let median = calculate_median(&mut values);
    // same as `calculate_median_odd_length` but unsorted
    assert_eq!(median, Decimal::percent(300));
}

#[test]
fn calculate_median_single_element() {
    let mut values = vec![Decimal::percent(42)];
    let median = calculate_median(&mut values);
    assert_eq!(median, Decimal::percent(42));
}

#[test]
fn calculate_median_fractional_values_odd() {
    let mut values = vec![
        Decimal::percent(11),
        Decimal::percent(12),
        Decimal::percent(13),
    ];
    let median = calculate_median(&mut values);
    // median should be 1.2
    assert_eq!(median, Decimal::percent(12));
}

#[test]
fn calculate_median_fractional_values_even() {
    let mut values = vec![
        Decimal::percent(110),
        Decimal::percent(120),
        Decimal::percent(130),
        Decimal::percent(140),
    ];
    let median = calculate_median(&mut values);
    // (1.2 + 1.3) / 2 = 1.25
    assert_eq!(median, Decimal::percent(125));
}

#[test]
fn calculate_median_identical_values() {
    let mut values = vec![
        Decimal::percent(500),
        Decimal::percent(500),
        Decimal::percent(500),
        Decimal::percent(500),
    ];
    let median = calculate_median(&mut values);
    assert_eq!(median, Decimal::percent(500));
}

#[test]
fn calculate_median_large_numbers() {
    let mut values = vec![
        Decimal::percent(1_000_000_000_000u64),
        Decimal::percent(2_000_000_000_000u64),
        Decimal::percent(3_000_000_000_000u64),
    ];
    let median = calculate_median(&mut values);
    assert_eq!(median, Decimal::percent(2_000_000_000_000u64));
}

#[test]
fn calculate_median_of_fib_unsorted() {
    let mut values = vec![
        Decimal::percent(3400),
        Decimal::percent(200),
        Decimal::percent(5500),
        Decimal::percent(500),
        Decimal::percent(800),
        Decimal::percent(1300),
        Decimal::percent(300),
        Decimal::percent(2100),
        Decimal::percent(14400),
        Decimal::percent(100),
        Decimal::percent(8900),
        Decimal::percent(800),
    ];

    // this will be sorted to
    // 1, 1, 2, 3, 5, 8, 13, 21, 34, 55, 89, 144
    // (8 + 13) / 2
    let median = calculate_median(&mut values);
    assert_eq!(median, Decimal::percent(1050)) // 10.5
}

#[test]
fn calculate_median_empty() {
    let mut values: Vec<Decimal> = vec![];
    let median = calculate_median(&mut values);
    assert_eq!(median, Decimal::zero())
}
