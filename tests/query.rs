use sailent::query::{
    Aggregation, AggregationFunction, Condition, FilterValue, GroupFunctions, Operation,
    OperationNode, ParseError, Query,
};

#[test]
fn test_filter() {
    let test_values = vec![
        (
            Query::parse("filter bob = 'test' AND sally = 'tester' AND jeff = 33").unwrap(),
            Query {
                root: OperationNode {
                    operation: Operation::Filter(vec![
                        Condition {
                            column: "bob".to_string(),
                            filter: FilterValue::Str("test".to_string()),
                        },
                        Condition {
                            column: "sally".to_string(),
                            filter: FilterValue::Str("tester".to_string()),
                        },
                        Condition {
                            column: "jeff".to_string(),
                            filter: FilterValue::Int(33),
                        },
                    ]),
                    child: None,
                },
            },
        ),
        (
            Query::parse("filter bob = 'test' AND jeff = 33 AND sally = 'tester'").unwrap(),
            Query {
                root: OperationNode {
                    operation: Operation::Filter(vec![
                        Condition {
                            column: "bob".to_string(),
                            filter: FilterValue::Str("test".to_string()),
                        },
                        Condition {
                            column: "jeff".to_string(),
                            filter: FilterValue::Int(33),
                        },
                        Condition {
                            column: "sally".to_string(),
                            filter: FilterValue::Str("tester".to_string()),
                        },
                    ]),
                    child: None,
                },
            },
        ),
    ];

    for (query, query_ds) in test_values {
        assert_eq!(query, query_ds);
    }
}

#[test]
fn test_aggregation() {
    let test_values = vec![(
        Query::parse(
            "filter bob = 'test' AND sally = 'tester' AND jeff = 33 | group count() by timebucket(1)",
        )
        .unwrap(),
        Query {
            root: OperationNode {
                operation: Operation::Filter(vec![
                    Condition {
                        column: "bob".to_string(),
                        filter: FilterValue::Str("test".to_string()),
                    },
                    Condition {
                        column: "sally".to_string(),
                        filter: FilterValue::Str("tester".to_string()),
                    },
                    Condition {
                        column: "jeff".to_string(),
                        filter: FilterValue::Int(33),
                    },
                ]),
                child: Some(Box::new(OperationNode {
                    operation: Operation::Group(Aggregation {
                        function: AggregationFunction::Count,
                        group_by: Some(GroupFunctions::TimeBucket(1)),
                    }),
                    child: None,
                })),
            },
        },
    )];

    for (query, query_ds) in test_values {
        assert_eq!(query, query_ds);
    }
}

#[test]
fn test_invalid_values() {
    let queries = vec![
        "filter bob = 'test' AND sally = 'tester' AND jeff = 3.2",
        "filter bob = 'test' AND sally = tester AND jeff = 32",
        "filter bob = test AND sally = 'tester' AND jeff = 32",
    ];

    for query in queries {
        if Query::parse(query).is_ok() {
            panic!("Query parsing should have failed: {}", query);
        }
    }
}

#[test]
fn test_parse_aggregation() {
    let agg = Query::parse_aggregation("count() by timebucket(1)").unwrap();

    assert_eq!(
        agg,
        Aggregation {
            function: AggregationFunction::Count,
            group_by: Some(GroupFunctions::TimeBucket(1)),
        }
    );
}

fn error_of(r: Result<Query, ParseError>) -> String {
    match r {
        Ok(q) => panic!("expected an error, got {:?}", q),
        Err(e) => e.message(),
    }
}

#[test]
fn parse_rejects_unknown_operation() {
    assert_eq!(error_of(Query::parse("sort bob")), "Unsupported operation");
    assert_eq!(error_of(Query::parse("")), "Unsupported operation");
}

#[test]
fn parse_rejects_condition_without_single_equals() {
    assert_eq!(
        error_of(Query::parse("filter bob 'x'")),
        "Each condition must contain exactly one '=' character"
    );
    assert_eq!(
        error_of(Query::parse("filter a = 1 = 2")),
        "Each condition must contain exactly one '=' character"
    );
}

#[test]
fn parse_rejects_bad_aggregations() {
    assert_eq!(
        error_of(Query::parse("group sum() by timebucket(1)")),
        "Unsupported group function: sum() by timebucket(1)"
    );
    assert_eq!(error_of(Query::parse("group")), "Unsupported group function: ");
    assert_eq!(
        error_of(Query::parse("group count()")),
        "Unsupported aggregation function"
    );
    assert_eq!(
        error_of(Query::parse("group count() by timebucket(1")),
        "Missing closing parenthesis for timebucket"
    );
    assert_eq!(
        error_of(Query::parse("group count() by timebucket(x)")),
        "Invalid bucket size"
    );
}

#[test]
fn parse_filter_value_limits() {
    assert_eq!(
        Query::parse_filter_value("2147483647").unwrap(),
        FilterValue::Int(2147483647)
    );
    assert_eq!(
        Query::parse_filter_value("-2147483648").unwrap(),
        FilterValue::Int(-2147483648)
    );
    assert_eq!(Query::parse_filter_value("+7").unwrap(), FilterValue::Int(7));
    assert!(Query::parse_filter_value("2147483648").is_err());
    assert!(Query::parse_filter_value("-").is_err());
    assert!(Query::parse_filter_value("'").is_err());
    assert_eq!(
        Query::parse_filter_value("''").unwrap(),
        FilterValue::Str(String::new())
    );
}

#[test]
fn parse_conditions_skips_blank_pieces() {
    let cs = Query::parse_conditions("a = 1 AND  AND b = 'x'").unwrap();
    assert_eq!(
        cs,
        vec![
            Condition { column: "a".to_string(), filter: FilterValue::Int(1) },
            Condition { column: "b".to_string(), filter: FilterValue::Str("x".to_string()) },
        ]
    );
    assert_eq!(Query::parse_conditions("").unwrap(), vec![]);
}

#[test]
fn parse_chains_three_stages() {
    let q = Query::parse("group count() BY timebucket( 5 ) | filter a = 1 | filter b = 2").unwrap();
    assert_eq!(
        q.root.operation,
        Operation::Group(Aggregation {
            function: AggregationFunction::Count,
            group_by: Some(GroupFunctions::TimeBucket(5)),
        })
    );
    let second = q.root.child.as_ref().unwrap();
    assert_eq!(
        second.operation,
        Operation::Filter(vec![Condition { column: "a".to_string(), filter: FilterValue::Int(1) }])
    );
    let third = second.child.as_ref().unwrap();
    assert!(third.child.is_none());
}

#[test]
fn parse_limits_operator_chain() {
    let ok = vec!["filter a = 1"; 1001].join(" | ");
    assert!(Query::parse(&ok).is_ok());
    let too_long = vec!["filter a = 1"; 1002].join(" | ");
    assert_eq!(error_of(Query::parse(&too_long)), "Exceeded query operator limit");
}

#[test]
fn parse_error_new_keeps_context() {
    assert_eq!(ParseError::new("ctx").message(), "ctx");
    assert_eq!(ParseError::new("ctx").context, "ctx");
}
