use allwhat::eval::evaluate_direct;
use allwhat::expr::Expr;
use allwhat::rewrite::{run, transform, Outcome, Plan, TransformError, NO_MARKERS};
use allwhat::value::{Op, Value};

fn leaf(e: Expr) -> Expr {
    Expr::Leaf(Box::new(e))
}

fn ok_int(n: i64) -> Expr {
    Expr::Atomic(Value::Okay(Box::new(Value::Int(n))))
}

fn err(msg: &str) -> Expr {
    Expr::Atomic(Value::Fail(msg.to_string()))
}

fn plain_int(n: i64) -> Expr {
    Expr::Atomic(Value::Int(n))
}

fn record(name: &str, keys: &[&str], vals: Vec<Expr>) -> Expr {
    Expr::Record(name.to_string(), keys.iter().map(|k| k.to_string()).collect(), vals)
}

fn run_err(e: Expr) -> TransformError {
    match run(e, None) {
        Ok(_) => panic!("expected the rewrite to be refused"),
        Err(f) => f,
    }
}

fn entries(outcome: Outcome) -> Vec<String> {
    match outcome {
        Outcome::Failure(g) => {
            let text = g.render();
            text.lines().skip(1).map(|l| l.splitn(2, ") ").nth(1).unwrap().to_string()).collect()
        },
        Outcome::Success(v) => panic!("expected a failure, got {:#?}", v),
    }
}

#[test]
fn record_with_two_failing_fields_renders_both_in_order() {
    let e = record("Rec", &["one", "two", "three"], vec![leaf(ok_int(1)), leaf(err("E2")), leaf(err("E3"))]);
    let rep = run(e, Some("Label".to_string())).unwrap();
    match rep.outcome {
        Outcome::Failure(g) => {
            assert_eq!(g.len(), 2);
            assert_eq!(g.render(), "Label:\n\t1) E2\n\t2) E3\n");
        },
        Outcome::Success(v) => panic!("expected a failure, got {:#?}", v),
    }
}

#[test]
fn failing_base_of_field_chain_stops_the_chain() {
    let e = Expr::Field(Box::new(Expr::Field(Box::new(leaf(err("A error"))), "b".to_string())), "c".to_string());
    let rep = run(e, None).unwrap();
    assert_eq!(rep.leaf_evaluations, 1);
    assert_eq!(entries(rep.outcome), vec!["A error".to_string()]);
}

#[test]
fn call_evaluates_every_argument_and_skips_the_callee() {
    // The callee would fail if it ran; the outer marker would then record it.
    let f = Op::Below(0, "f ran with ".to_string());
    let e = leaf(Expr::Call(f, vec![leaf(err("X error")), leaf(ok_int(5))]));
    let rep = run(e, None).unwrap();
    assert_eq!(rep.leaf_evaluations, 3);
    assert_eq!(entries(rep.outcome), vec!["X error".to_string()]);
}

fn all_ok_tree() -> Expr {
    record(
        "Point",
        &["x", "y", "tags"],
        vec![
            leaf(ok_int(3)),
            Expr::Call(Op::Sum, vec![leaf(ok_int(4)), plain_int(5), leaf(ok_int(6))]),
            Expr::Method(Box::new(leaf(ok_int(7))), Op::Gather, vec![leaf(ok_int(8))]),
        ],
    )
}

#[test]
fn all_leaves_succeeding_give_the_composed_value() {
    let rep = run(all_ok_tree(), None).unwrap();
    let expected = Value::Record(
        "Point".to_string(),
        vec!["x".to_string(), "y".to_string(), "tags".to_string()],
        vec![Value::Int(3), Value::Int(15), Value::List(vec![Value::Int(7), Value::Int(8)])],
    );
    assert_eq!(rep.leaf_evaluations, 5);
    assert!(rep.advisory.is_none());
    match rep.outcome {
        Outcome::Success(v) => {
            assert_eq!(v, expected);
            assert_eq!(evaluate_direct(all_ok_tree()).unwrap(), expected);
        },
        Outcome::Failure(g) => panic!("unexpected failure: {}", g.render()),
    }
}

fn markerless_tree() -> Expr {
    Expr::Call(
        Op::Construct("Pair".to_string()),
        vec![
            Expr::Field(
                Box::new(Expr::Atomic(Value::Record(
                    "R".to_string(),
                    vec!["a".to_string()],
                    vec![Value::Text("in".to_string())],
                ))),
                "a".to_string(),
            ),
            err("a failure value, not a marker"),
        ],
    )
}

#[test]
fn tree_without_markers_evaluates_as_written() {
    let rep = run(markerless_tree(), None).unwrap();
    assert_eq!(rep.advisory, Some(NO_MARKERS.to_string()));
    assert_eq!(rep.leaf_evaluations, 0);
    match rep.outcome {
        Outcome::Success(v) => assert_eq!(v, evaluate_direct(markerless_tree()).unwrap()),
        Outcome::Failure(g) => panic!("unexpected failure: {}", g.render()),
    }
    let t = transform(markerless_tree()).unwrap();
    assert_eq!(t.leaf_count, 0);
    match t.plan {
        Plan::Plain(e) => assert_eq!(e, markerless_tree()),
        other => panic!("expected the tree unchanged, got {:#?}", other),
    }
}

fn one_failure_tree() -> Expr {
    Expr::Call(
        Op::Gather,
        vec![leaf(ok_int(1)), record("R", &["a", "b"], vec![leaf(ok_int(2)), leaf(err("only one"))]), leaf(ok_int(3))],
    )
}

#[test]
fn single_failure_is_the_one_ordinary_evaluation_stops_at() {
    let rep = run(one_failure_tree(), None).unwrap();
    assert_eq!(entries(rep.outcome), vec!["only one".to_string()]);
    assert_eq!(evaluate_direct(one_failure_tree()), Err("only one".to_string()));
}

fn many_failures_tree() -> Expr {
    Expr::Method(
        Box::new(leaf(err("receiver"))),
        Op::Gather,
        vec![
            Expr::Call(Op::Gather, vec![leaf(ok_int(1)), leaf(err("deep one"))]),
            leaf(Expr::Call(Op::Identity, vec![leaf(err("deeper two"))])),
            leaf(err("last")),
        ],
    )
}

#[test]
fn many_failures_are_recorded_in_source_order() {
    let rep = run(many_failures_tree(), None).unwrap();
    assert_eq!(rep.leaf_evaluations, 6);
    assert_eq!(
        entries(rep.outcome),
        vec!["receiver".to_string(), "deep one".to_string(), "deeper two".to_string(), "last".to_string()]
    );
    assert_eq!(evaluate_direct(many_failures_tree()), Err("receiver".to_string()));
}

#[test]
fn each_marker_is_evaluated_once() {
    let e = Expr::Call(
        Op::Gather,
        vec![leaf(err("a")), leaf(leaf(Expr::Atomic(Value::Okay(Box::new(Value::Fail("b".to_string())))))), leaf(err("c"))],
    );
    let rep = run(e, None).unwrap();
    assert_eq!(rep.leaf_evaluations, 4);
    assert_eq!(entries(rep.outcome), vec!["a".to_string(), "b".to_string(), "c".to_string()]);
}

#[test]
fn unsupported_construct_stops_the_rewrite() {
    let e = Expr::Call(Op::Gather, vec![leaf(ok_int(1)), Expr::Other("match".to_string()), Expr::Other("loop".to_string())]);
    assert_eq!(run_err(e), TransformError::UnsupportedConstruct("match".to_string()));
}

#[test]
fn unsupported_construct_without_markers_is_still_refused() {
    let e = Expr::Field(Box::new(Expr::Other("block".to_string())), "x".to_string());
    assert_eq!(transform(e).unwrap_err(), TransformError::UnsupportedConstruct("block".to_string()));
}

#[test]
fn record_with_missing_initializer_is_malformed() {
    let e = record("Broken", &["a", "b"], vec![leaf(ok_int(1))]);
    assert_eq!(run_err(e), TransformError::MalformedInput("Broken".to_string()));
}

#[test]
fn transform_counts_markers() {
    let t = transform(many_failures_tree()).unwrap();
    assert_eq!(t.leaf_count, 6);
    assert!(!matches!(t.plan, Plan::Plain(_)));
}

#[test]
fn below_reports_negative_values_in_decimal() {
    let e = leaf(Expr::Call(Op::Below(-20, "too big: ".to_string()), vec![plain_int(-7)]));
    let rep = run(e, None).unwrap();
    assert_eq!(entries(rep.outcome), vec!["too big: -7".to_string()]);
    let e = Expr::Call(Op::Below(10, "x".to_string()), vec![plain_int(9)]);
    assert_eq!(evaluate_direct(e).unwrap(), Value::Okay(Box::new(Value::Int(9))));
}

#[test]
fn sum_overflow_and_empty_identity_give_unit() {
    let e = Expr::Call(Op::Sum, vec![plain_int(i64::MAX), plain_int(1)]);
    assert_eq!(evaluate_direct(e).unwrap(), Value::Unit);
    assert_eq!(evaluate_direct(Expr::Call(Op::Identity, vec![])).unwrap(), Value::Unit);
    let e = Expr::Call(Op::Sum, vec![plain_int(i64::MAX), plain_int(-5), plain_int(5)]);
    assert_eq!(evaluate_direct(e).unwrap(), Value::Int(i64::MAX));
}

#[test]
fn missing_member_is_unit() {
    let e = Expr::Field(
        Box::new(Expr::Atomic(Value::Record("R".to_string(), vec!["a".to_string()], vec![Value::Int(1)]))),
        "zz".to_string(),
    );
    assert_eq!(evaluate_direct(e).unwrap(), Value::Unit);
}

#[test]
fn run_without_label_uses_the_bulk_label() {
    let rep = run(leaf(err("boom")), None).unwrap();
    match rep.outcome {
        Outcome::Failure(g) => assert_eq!(g.render(), "Bulk Try Aggregation:\n\t1) boom\n"),
        Outcome::Success(v) => panic!("expected a failure, got {:#?}", v),
    }
}
