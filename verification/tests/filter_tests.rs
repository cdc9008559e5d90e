use vote_verifier::fixed::Decimal;
use vote_verifier::spread::{filter_valid_votes, OperatorVote};

#[test]
fn filter_within_bounds() {
    let op1 = "addr1".to_string();
    let op2 = "addr2".to_string();
    let op3 = "addr3".to_string();

    let vote1 = OperatorVote {
        power: 100,
        price: Decimal::percent(150),
    };
    let vote2 = OperatorVote {
        power: 200,
        price: Decimal::percent(200),
    };
    let vote3 = OperatorVote {
        power: 300,
        price: Decimal::percent(250),
    };

    let votes = vec![
        (op1.clone(), vote1),
        (op2.clone(), vote2),
        (op3.clone(), vote3),
    ];

    // Allowed ranges
    let min_price = Decimal::percent(150);
    let max_price = Decimal::percent(250);

    let result = filter_valid_votes(&votes, min_price, max_price);

    assert_eq!(result.len(), 3);
    assert_eq!(
        result[0],
        (
            op1,
            OperatorVote {
                power: 100,
                price: Decimal::percent(150)
            }
        )
    );
    assert_eq!(
        result[1],
        (
            op2,
            OperatorVote {
                power: 200,
                price: Decimal::percent(200)
            }
        )
    );
    assert_eq!(
        result[2],
        (
            op3,
            OperatorVote {
                power: 300,
                price: Decimal::percent(250)
            }
        )
    );
}

#[test]
fn filter_out_of_bounds() {
    let op1 = "addr1".to_string();
    let op2 = "addr2".to_string();
    let op3 = "addr3".to_string();

    let vote1 = OperatorVote {
        power: 100,
        price: Decimal::percent(100),
    };
    let vote2 = OperatorVote {
        power: 200,
        price: Decimal::percent(200),
    };
    let vote3 = OperatorVote {
        power: 300,
        price: Decimal::percent(300),
    };

    let votes = vec![
        (op1.clone(), vote1),
        (op2.clone(), vote2),
        (op3.clone(), vote3),
    ];

    let min_price = Decimal::percent(150);
    let max_price = Decimal::percent(250);

    let result = filter_valid_votes(&votes, min_price, max_price);

    assert_eq!(result.len(), 1);
    assert_eq!(
        result[0],
        (
            op2,
            OperatorVote {
                power: 200,
                price: Decimal::percent(200)
            }
        )
    );
}

#[test]
fn filter_all_out_of_bounds() {
    let op1 = "addr1".to_string();
    let op2 = "addr2".to_string();
    let op3 = "addr3".to_string();

    let vote1 = OperatorVote {
        power: 100,
        price: Decimal::percent(50),
    };
    let vote2 = OperatorVote {
        power: 200,
        price: Decimal::percent(400),
    };
    let vote3 = OperatorVote {
        power: 300,
        price: Decimal::percent(500),
    };

    let votes = vec![
        (op1.clone(), vote1),
        (op2.clone(), vote2),
        (op3.clone(), vote3),
    ];

    let min_price = Decimal::percent(150);
    let max_price = Decimal::percent(250);

    let result = filter_valid_votes(&votes, min_price, max_price);

    assert_eq!(result.len(), 0);
}

#[test]
fn filter_edge_cases() {
    let op1 = "addr1".to_string();
    let op2 = "addr2".to_string();

    let vote1 = OperatorVote {
        power: 100,
        price: Decimal::percent(150),
    };
    let vote2 = OperatorVote {
        power: 200,
        price: Decimal::percent(250),
    };

    let votes = vec![(op1.clone(), vote1), (op2.clone(), vote2)];

    let min_price = Decimal::percent(150);
    let max_price = Decimal::percent(250);

    let result = filter_valid_votes(&votes, min_price, max_price);

    assert_eq!(result.len(), 2);
    assert_eq!(
        result[0],
        (
            op1,
            OperatorVote {
                power: 100,
                price: Decimal::percent(150)
            }
        )
    );
    assert_eq!(
        result[1],
        (
            op2,
            OperatorVote {
                power: 200,
                price: Decimal::percent(250)
            }
        )
    );
}
