use bench_rs::errors::{BenchmarkError, Errors};

#[test]
fn errors_test_record() {
    let mut errors = Errors::new();

    let error1 = BenchmarkError::Fail {
        cause: "error1".into(),
    };
    let error2 = BenchmarkError::Fail {
        cause: "error2".into(),
    };
    let error3 = BenchmarkError::Fail {
        cause: "error3".into(),
    };
    let error4 = BenchmarkError::Penalty {
        cause: "error4".into(),
        point: 4,
    };
    let error5 = BenchmarkError::Penalty {
        cause: "error5".into(),
        point: 5,
    };
    let error6 = BenchmarkError::Penalty {
        cause: "error6".into(),
        point: 6,
    };

    errors.record(error1);
    errors.record(error2);
    errors.record(error3);
    errors.record(error4);
    errors.record(error5);
    errors.record(error6);

    assert_eq!(
        errors.get(0).unwrap().to_string(),
        BenchmarkError::Fail {
            cause: "error1".into()
        }
        .to_string()
    );
    assert_eq!(
        errors.get(1).unwrap().to_string(),
        BenchmarkError::Fail {
            cause: "error2".into()
        }
        .to_string()
    );
    assert_eq!(
        errors.get(2).unwrap().to_string(),
        BenchmarkError::Fail {
            cause: "error3".into()
        }
        .to_string()
    );
    assert_eq!(
        errors.get(3).unwrap().to_string(),
        BenchmarkError::Penalty {
            cause: "error4".into(),
            point: 4
        }
        .to_string()
    );
    assert_eq!(
        errors.get(4).unwrap().to_string(),
        BenchmarkError::Penalty {
            cause: "error5".into(),
            point: 5
        }
        .to_string()
    );
    assert_eq!(
        errors.get(5).unwrap().to_string(),
        BenchmarkError::Penalty {
            cause: "error6".into(),
            point: 6
        }
        .to_string()
    );
}

#[test]
fn test_total_penalty_point() {
    let mut errors = Errors::new();

    let error1 = BenchmarkError::Penalty {
        cause: "error1".into(),
        point: 1,
    };
    let error2 = BenchmarkError::Penalty {
        cause: "error2".into(),
        point: 2,
    };
    let error3 = BenchmarkError::Penalty {
        cause: "error3".into(),
        point: 3,
    };

    errors.record(error1);
    errors.record(error2);
    errors.record(error3);

    assert_eq!(errors.total_penalty_point(), 6);
}

#[test]
fn fail_message_quotes_the_cause() {
    let error = BenchmarkError::Fail {
        cause: "error1".into(),
    };
    assert_eq!(error.to_string(), "benchmark fail \"error1\"");
}

#[test]
fn penalty_message_quotes_the_cause_and_gives_the_points() {
    let error = BenchmarkError::Penalty {
        cause: "error4".into(),
        point: 4,
    };
    assert_eq!(error.to_string(), "benchmark penalty \"error4\" : 4");
}

#[test]
fn message_escapes_the_cause() {
    let error = BenchmarkError::Fail {
        cause: "a \"b\"\n\\".into(),
    };
    assert_eq!(error.to_string(), "benchmark fail \"a \\\"b\\\"\\n\\\\\"");
}

#[test]
fn message_of_empty_cause() {
    let error = BenchmarkError::Fail { cause: "".into() };
    assert_eq!(error.to_string(), "benchmark fail \"\"");
}

#[test]
fn penalty_message_writes_points_in_decimal() {
    let cases: [(usize, &str); 7] = [
        (0, "0"),
        (9, "9"),
        (10, "10"),
        (99, "99"),
        (100, "100"),
        (1234567890, "1234567890"),
        (4294967295, "4294967295"),
    ];
    for (point, digits) in cases {
        let error = BenchmarkError::Penalty {
            cause: "x".into(),
            point,
        };
        assert_eq!(
            error.to_string(),
            format!("benchmark penalty \"x\" : {}", digits)
        );
    }
}

#[test]
fn penalty_message_of_largest_points() {
    let error = BenchmarkError::Penalty {
        cause: "x".into(),
        point: usize::MAX,
    };
    assert_eq!(
        error.to_string(),
        format!("benchmark penalty \"x\" : {}", usize::MAX)
    );
}

#[test]
fn errors_are_equal_if_their_messages_are() {
    let fail = BenchmarkError::Fail {
        cause: "error".into(),
    };
    let same_fail = BenchmarkError::Fail {
        cause: "error".into(),
    };
    let other_fail = BenchmarkError::Fail {
        cause: "other".into(),
    };
    let penalty = BenchmarkError::Penalty {
        cause: "error".into(),
        point: 1,
    };
    let same_penalty = BenchmarkError::Penalty {
        cause: "error".into(),
        point: 1,
    };
    let other_penalty = BenchmarkError::Penalty {
        cause: "error".into(),
        point: 2,
    };

    assert!(fail == same_fail);
    assert!(fail != other_fail);
    assert!(penalty == same_penalty);
    assert!(penalty != other_penalty);
    assert!(fail != penalty);
}

#[test]
fn new_ledger_is_empty() {
    let errors = Errors::new();
    assert_eq!(errors.len(), 0);
    assert!(errors.get(0).is_none());
    assert_eq!(errors.total_penalty_point(), 0);
    assert_eq!(errors.checked_total_penalty_point(), Some(0));
    assert!(!errors.has_failure());
    assert_eq!(errors.iter().count(), 0);
}

#[test]
fn failures_cost_no_points() {
    let mut errors = Errors::new();
    errors.record(BenchmarkError::Penalty {
        cause: "slow".into(),
        point: 7,
    });
    assert_eq!(errors.total_penalty_point(), 7);
    assert!(!errors.has_failure());

    errors.record(BenchmarkError::Fail {
        cause: "down".into(),
    });
    assert_eq!(errors.total_penalty_point(), 7);
    assert!(errors.has_failure());

    errors.record(BenchmarkError::Penalty {
        cause: "slow".into(),
        point: 3,
    });
    assert_eq!(errors.total_penalty_point(), 10);
    assert!(errors.has_failure());
}

#[test]
fn iter_walks_the_ledger_in_order() {
    let mut errors = Errors::new();
    errors.record(BenchmarkError::Fail {
        cause: "first".into(),
    });
    errors.record(BenchmarkError::Penalty {
        cause: "second".into(),
        point: 2,
    });
    errors.record(BenchmarkError::Fail {
        cause: "third".into(),
    });

    let messages: Vec<String> = errors.iter().map(|error| error.to_string()).collect();
    assert_eq!(
        messages,
        vec![
            "benchmark fail \"first\"".to_string(),
            "benchmark penalty \"second\" : 2".to_string(),
            "benchmark fail \"third\"".to_string(),
        ]
    );
    assert_eq!(errors.len(), 3);
    assert!(errors.get(3).is_none());
    assert!(errors.iter().any(|error| matches!(error, BenchmarkError::Fail { .. })));
}

#[test]
fn checked_total_penalty_point_reports_overflow() {
    let mut errors = Errors::new();
    errors.record(BenchmarkError::Penalty {
        cause: "big".into(),
        point: usize::MAX,
    });
    assert_eq!(errors.checked_total_penalty_point(), Some(usize::MAX));
    errors.record(BenchmarkError::Fail {
        cause: "down".into(),
    });
    assert_eq!(errors.checked_total_penalty_point(), Some(usize::MAX));
    errors.record(BenchmarkError::Penalty {
        cause: "one".into(),
        point: 1,
    });
    assert_eq!(errors.checked_total_penalty_point(), None);
}

#[test]
fn clone_of_ledger_is_independent() {
    let mut errors = Errors::new();
    errors.record(BenchmarkError::Penalty {
        cause: "slow".into(),
        point: 2,
    });
    let mut copy = errors.clone();
    copy.record(BenchmarkError::Fail {
        cause: "down".into(),
    });

    assert_eq!(errors.len(), 1);
    assert!(!errors.has_failure());
    assert_eq!(copy.len(), 2);
    assert!(copy.has_failure());
    assert_eq!(copy.total_penalty_point(), 2);
    assert!(copy.get(0).unwrap() == errors.get(0).unwrap());
    assert!(errors.get(0).unwrap().clone() == *errors.get(0).unwrap());
}
