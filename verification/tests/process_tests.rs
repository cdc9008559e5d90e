use vote_verifier::config::{Config, TallyStrategy};
use vote_verifier::fixed::Decimal;
use vote_verifier::spread::{process_votes, OperatorVote};

#[test]
fn process_votes_meets_threshold() {
    let op1 = "operator1".to_string();
    let op2 = "operator2".to_string();

    let votes = vec![
        (
            op1.clone(),
            OperatorVote {
                power: 100,
                price: Decimal::percent(100),
            },
        ),
        (
            op2.clone(),
            OperatorVote {
                power: 100,
                price: Decimal::percent(100),
            },
        ),
    ];

    let config = Config {
        operator_contract: "operators".to_string(),
        required_percentage: 70,
        strategy: TallyStrategy::MedianSpread {
            threshold_percent: Decimal::percent(50),
            allowed_spread: Decimal::percent(10),
            slashable_spread: Decimal::percent(20),
        },
    };

    // mocking the power
    let result = process_votes(&votes, 100, &config).unwrap();

    let expected_median = Decimal::percent(100);
    let expected_slashable_operators: Vec<String> = vec![];
    let expected_is_threshold_met = true;

    assert_eq!(result.0, expected_median);
    assert_eq!(result.1, expected_slashable_operators);
    assert_eq!(result.2, expected_is_threshold_met);
}

#[test]
fn process_votes_threshold_not_met() {
    let op1 = "operator1".to_string();
    let op2 = "operator2".to_string();

    let votes = vec![
        (
            op1.clone(),
            OperatorVote {
                power: 20,
                price: Decimal::percent(100),
            },
        ),
        (
            op2.clone(),
            OperatorVote {
                power: 90,
                price: Decimal::percent(300),
            },
        ),
    ];

    let config = Config {
        operator_contract: "operators".to_string(),
        required_percentage: 70,
        strategy: TallyStrategy::MedianSpread {
            threshold_percent: Decimal::percent(80),
            allowed_spread: Decimal::percent(10),
            slashable_spread: Decimal::percent(20),
        },
    };

    // mocking the power
    let result = process_votes(&votes, 100, &config).unwrap();

    let expected_median = Decimal::percent(200);
    let expected_slashable_operators = vec![op1.clone(), op2.clone()];
    let expected_is_threshold_met = false;

    assert_eq!(result.0, expected_median);
    assert_eq!(result.1, expected_slashable_operators);
    assert_eq!(result.2, expected_is_threshold_met);
}

#[test]
fn test_process_votes_slashable_operators() {
    let op1 = "operator1".to_string();
    let op2 = "operator2".to_string();
    let op3 = "operator3".to_string();

    let votes = vec![
        (
            op1.clone(),
            OperatorVote {
                power: 50,
                price: Decimal::percent(150),
            },
        ),
        (
            op2.clone(),
            OperatorVote {
                power: 50,
                price: Decimal::percent(200),
            },
        ),
        (
            op3.clone(),
            OperatorVote {
                power: 50,
                price: Decimal::percent(350),
            },
        ),
    ];

    let config = Config {
        operator_contract: "operators".to_string(),
        required_percentage: 70,
        strategy: TallyStrategy::MedianSpread {
            threshold_percent: Decimal::percent(33),
            allowed_spread: Decimal::percent(10),
            slashable_spread: Decimal::percent(20),
        },
    };

    // mocking the power
    let result = process_votes(&votes, 100, &config).unwrap();

    let expected_median = Decimal::percent(200);
    let expected_slashable_operators = vec![op1.clone(), op3.clone()];
    let expected_is_threshold_met = true;

    assert_eq!(result.0, expected_median);
    assert_eq!(result.1, expected_slashable_operators);
    assert_eq!(result.2, expected_is_threshold_met);
}

#[test]
fn test_process_votes_insufficient_power_votes() {
    let operator1 = "operator1".to_string();
    let operator2 = "operator2".to_string();
    let operator3 = "operator3".to_string();

    let total_power: u128 = 100;

    let config = Config {
        operator_contract: "operator_contract".to_string(),
        required_percentage: 70,
        strategy: TallyStrategy::MedianSpread {
            threshold_percent: Decimal::percent(50),
            allowed_spread: Decimal::percent(10),
            slashable_spread: Decimal::percent(20),
        },
    };

    let votes = vec![
        (
            operator1.clone(),
            OperatorVote {
                price: Decimal::percent(10000),
                power: 20,
            },
        ),
        (
            operator2.clone(),
            OperatorVote {
                price: Decimal::percent(10200),
                power: 20,
            },
        ),
    ];

    let (median, slashed_operators, is_threshold_met) =
        process_votes(&votes, total_power, &config).unwrap();

    assert!(!is_threshold_met);
    assert_eq!(median, Decimal::percent(10100));
    assert_eq!(slashed_operators.len(), 0);

    let votes_with_op3 = vec![
        votes[0].clone(),
        votes[1].clone(),
        (
            operator3.clone(),
            OperatorVote {
                price: Decimal::percent(9800),
                power: 60,
            },
        ),
    ];

    let (median, slashed_operators, is_threshold_met) =
        process_votes(&votes_with_op3, total_power, &config).unwrap();

    assert!(is_threshold_met);
    assert_eq!(median, Decimal::percent(10000));
    assert_eq!(slashed_operators.len(), 0);
}

#[test]
fn test_process_votes_spread_exceeds_allowed() {
    let operator1 = "operator1".to_string();
    let operator2 = "operator2".to_string();
    let operator3 = "operator3".to_string();

    let total_power: u128 = 100;

    let config = Config {
        operator_contract: "operator_contract".to_string(),
        required_percentage: 70,
        strategy: TallyStrategy::MedianSpread {
            threshold_percent: Decimal::percent(100),
            allowed_spread: Decimal::percent(10),
            slashable_spread: Decimal::percent(20),
        },
    };

    let votes = vec![
        (
            operator1.clone(),
            OperatorVote {
                price: Decimal::percent(10000),
                power: 50,
            },
        ),
        (
            operator2.clone(),
            OperatorVote {
                price: Decimal::percent(13000),
                power: 30,
            },
        ),
        (
            operator3.clone(),
            OperatorVote {
                price: Decimal::percent(7000),
                power: 20,
            },
        ),
    ];

    let (median, slashed_operators, is_threshold_met) =
        process_votes(&votes, total_power, &config).unwrap();

    assert!(!is_threshold_met);
    assert_eq!(median, Decimal::percent(10000));
    assert_eq!(slashed_operators.len(), 2);
}

#[test]
fn test_process_votes_one_operator_slashed() {
    let operator1 = "operator1".to_string();
    let operator2 = "operator2".to_string();
    let operator3 = "operator3".to_string();

    let total_power: u128 = 100;

    let config = Config {
        operator_contract: "operator_contract".to_string(),
        required_percentage: 70,
        strategy: TallyStrategy::MedianSpread {
            threshold_percent: Decimal::percent(80),
            allowed_spread: Decimal::percent(10),
            slashable_spread: Decimal::percent(20),
        },
    };

    let votes = vec![
        (
            operator1.clone(),
            OperatorVote {
                price: Decimal::percent(10000),
                power: 50,
            },
        ),
        (
            operator2.clone(),
            OperatorVote {
                price: Decimal::percent(10500),
                power: 30,
            },
        ),
        (
            operator3.clone(),
            OperatorVote {
                // Outlier
                price: Decimal::percent(15000),
                power: 20,
            },
        ),
    ];

    let (median, slashed_operators, is_threshold_met) =
        process_votes(&votes, total_power, &config).unwrap();

    assert!(is_threshold_met);
    assert_eq!(median, Decimal::percent(10500));
    assert_eq!(slashed_operators, vec![operator3.clone()]);
}

#[test]
fn test_process_votes_median_calculation() {
    let operator1 = "operator1".to_string();
    let operator2 = "operator2".to_string();
    let operator3 = "operator3".to_string();

    let total_power: u128 = 100;

    let config = Config {
        operator_contract: "operator_contract".to_string(),
        required_percentage: 70,
        strategy: TallyStrategy::MedianSpread {
            threshold_percent: Decimal::percent(100),
            allowed_spread: Decimal::percent(50),
            slashable_spread: Decimal::percent(60),
        },
    };

    let votes = vec![
        (
            operator1.clone(),
            OperatorVote {
                price: Decimal::percent(10000),
                power: 50,
            },
        ),
        (
            operator2.clone(),
            OperatorVote {
                price: Decimal::percent(11000),
                power: 30,
            },
        ),
        (
            operator3.clone(),
            OperatorVote {
                price: Decimal::percent(12000),
                power: 20,
            },
        ),
    ];

    let (median, slashed_operators, is_threshold_met) =
        process_votes(&votes, total_power, &config).unwrap();

    assert_eq!(median, Decimal::percent(11000));
    assert!(is_threshold_met);
    assert_eq!(slashed_operators.len(), 0);
}
