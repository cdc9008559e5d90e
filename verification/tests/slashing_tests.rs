use vote_verifier::fixed::Decimal;
use vote_verifier::spread::{identify_slashable_operators, OperatorVote};

#[test]
fn no_slashable_operators() {
    let op1 = "operator1".to_string();
    let op2 = "operator2".to_string();
    let op3 = "operator3".to_string();

    let vote1 = OperatorVote {
        power: 100,
        price: Decimal::percent(150),
    };
    let vote2 = OperatorVote {
        power: 200,
        price: Decimal::percent(200),
    };
    let vote3 = OperatorVote {
        power: 300,
        price: Decimal::percent(250),
    };

    let votes = vec![
        (op1.clone(), vote1),
        (op2.clone(), vote2),
        (op3.clone(), vote3),
    ];

    let slashable_minimum = Decimal::percent(150);
    let slashable_maximum = Decimal::percent(250);

    let result = identify_slashable_operators(&votes, slashable_minimum, slashable_maximum);
    assert_eq!(result.len(), 0, "there should be no slashable operators");
}

#[test]
fn some_slashable_operators() {
    let op1 = "operator1".to_string();
    let op2 = "operator2".to_string();
    let op3 = "operator3".to_string();

    let vote1 = OperatorVote {
        power: 100,
        price: Decimal::percent(100),
    };
    let vote2 = OperatorVote {
        power: 200,
        price: Decimal::percent(200),
    };
    let vote3 = OperatorVote {
        power: 300,
        price: Decimal::percent(300),
    };

    let votes = vec![
        (op1.clone(), vote1),
        (op2.clone(), vote2),
        (op3.clone(), vote3),
    ];

    let slashable_minimum = Decimal::percent(150);
    let slashable_maximum = Decimal::percent(250);

    let result = identify_slashable_operators(&votes, slashable_minimum, slashable_maximum);
    assert_eq!(result.len(), 2, "we must have 2 slashable operators");
    assert_eq!(result, vec![op1.clone(), op3.clone()]);
}

#[test]
fn all_slashable_operators() {
    let op1 = "operator1".to_string();
    let op2 = "operator2".to_string();
    let op3 = "operator3".to_string();

    let vote1 = OperatorVote {
        power: 100,
        price: Decimal::percent(50),
    };
    let vote2 = OperatorVote {
        power: 200,
        price: Decimal::percent(300),
    };
    let vote3 = OperatorVote {
        power: 300,
        price: Decimal::percent(400),
    };

    let votes = vec![
        (op1.clone(), vote1),
        (op2.clone(), vote2),
        (op3.clone(), vote3),
    ];

    let slashable_minimum = Decimal::percent(150);
    let slashable_maximum = Decimal::percent(250);

    let result = identify_slashable_operators(&votes, slashable_minimum, slashable_maximum);
    assert_eq!(result.len(), 3, "all operators should be slashed");
    assert_eq!(result, vec![op1.clone(), op2.clone(), op3.clone()]);
}

#[test]
fn edge_case_slashable_operators() {
    let op1 = "operator1".to_string();
    let op2 = "operator2".to_string();

    let vote1 = OperatorVote {
        power: 100,
        // low bound
        price: Decimal::percent(150),
    };
    let vote2 = OperatorVote {
        power: 200,
        // upper bound
        price: Decimal::percent(250),
    };

    let votes = vec![(op1.clone(), vote1), (op2.clone(), vote2)];

    let slashable_minimum = Decimal::percent(150);
    let slashable_maximum = Decimal::percent(250);

    let result = identify_slashable_operators(&votes, slashable_minimum, slashable_maximum);
    assert_eq!(result.len(), 0, "operators shouldn't be slashed");
}

#[test]
fn empty_votes() {
    let votes: Vec<(String, OperatorVote)> = vec![];

    let slashable_minimum = Decimal::percent(150);
    let slashable_maximum = Decimal::percent(250);

    let result = identify_slashable_operators(&votes, slashable_minimum, slashable_maximum);
    assert_eq!(result.len(), 0, "there should be none from an empty list");
}
