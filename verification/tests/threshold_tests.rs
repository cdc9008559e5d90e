use vote_verifier::fixed::Decimal;
use vote_verifier::spread::is_threshold_met;

#[test]
fn threshold_met_exact() {
    let valid_power: u128 = 50;
    let total_power: u128 = 100;
    let threshold_percent = Decimal::percent(50);

    let result = is_threshold_met(valid_power, total_power, threshold_percent);
    assert!(
        result,
        "threshold should be met when valid is %50 of total power"
    );
}

#[test]
fn contract_threshold_not_met() {
    let valid_power: u128 = 40;
    let total_power: u128 = 100;
    let threshold_percent = Decimal::percent(50);

    let result = is_threshold_met(valid_power, total_power, threshold_percent);
    assert!(!result, "threshold should be not met when not enough power");
}

#[test]
fn threshold_exceeded() {
    let valid_power: u128 = 60;
    let total_power: u128 = 100;
    let threshold_percent = Decimal::percent(50);

    let result = is_threshold_met(valid_power, total_power, threshold_percent);
    assert!(result, "should return true when threshold met over %50");
}

#[test]
fn full_power_threshold() {
    let valid_power: u128 = 100;
    let total_power: u128 = 100;
    let threshold_percent = Decimal::percent(100);

    let result = is_threshold_met(valid_power, total_power, threshold_percent);
    assert!(
        result,
        "should return true when valid power is equal total power"
    );
}

#[test]
fn threshold_met_minimum_case() {
    let valid_power: u128 = 2;
    let total_power: u128 = 100;
    let threshold_percent = Decimal::percent(1);

    let result = is_threshold_met(valid_power, total_power, threshold_percent);
    assert!(
        result,
        "should return true when valid power is over the threshold"
    );
}
