use allwhat::expr::Expr;
use allwhat::rewrite::{run, Outcome, Report};
use allwhat::value::{Op, Value};

fn leaf(e: Expr) -> Expr {
    Expr::Leaf(Box::new(e))
}

fn atom(v: Value) -> Expr {
    Expr::Atomic(v)
}

fn okay(v: Value) -> Value {
    Value::Okay(Box::new(v))
}

fn fail(msg: &str) -> Value {
    Value::Fail(msg.to_string())
}

fn one_param() -> Op {
    Op::Below(64, "one_param received a large value: ".to_string())
}

fn call_one_param(arg: Expr) -> Expr {
    Expr::Call(one_param(), vec![arg])
}

fn multi_param(args: Vec<Expr>) -> Expr {
    Expr::Call(one_param(), vec![Expr::Call(Op::Sum, args)])
}

fn go(e: Expr) -> Report {
    run(e, None).unwrap()
}

fn success(r: Report) -> Value {
    match r.outcome {
        Outcome::Success(v) => v,
        Outcome::Failure(g) => panic!("expected a success, got: {}", g.render()),
    }
}

fn failure(r: Report) -> (usize, String) {
    match r.outcome {
        Outcome::Success(v) => panic!("expected a failure, got: {:#?}", v),
        Outcome::Failure(g) => (g.len(), g.render()),
    }
}

#[test]
fn test_expr_call_params() {
    // Test 1: unwrap a valid parameter and return the result of the call
    let test1 = go(call_one_param(leaf(atom(okay(Value::Int(1))))));
    assert_eq!(success(test1), okay(Value::Int(1)));

    // Test 2: the parameter is an error
    let test2 = go(call_one_param(leaf(atom(fail("Now the param is an error")))));
    let (n, text) = failure(test2);
    assert_eq!(n, 1);
    assert_eq!(text, "Bulk Try Aggregation:\n\t1) Now the param is an error\n".to_string());

    // Test 3: a trailing marker adds nothing to the parameter's error
    let test3 = go(leaf(call_one_param(leaf(atom(fail("The param is still an error"))))));
    let (n, text) = failure(test3);
    assert_eq!(n, 1);
    assert_eq!(text, "Bulk Try Aggregation:\n\t1) The param is still an error\n".to_string());

    // Test 4: the parameter is good, but the call yields an error value
    let test4 = go(call_one_param(leaf(atom(okay(Value::Int(100))))));
    assert_eq!(success(test4), fail("one_param received a large value: 100"));

    // Test 5: same as test 4, with a trailing marker on the call
    let test5 = go(leaf(call_one_param(leaf(atom(okay(Value::Int(100)))))));
    let (_, text) = failure(test5);
    assert_eq!(text, "Bulk Try Aggregation:\n\t1) one_param received a large value: 100\n".to_string());

    let params = |p4: Value, p6: Value| {
        vec![
            leaf(atom(okay(Value::Int(1)))),
            leaf(atom(okay(Value::Int(2)))),
            atom(Value::Int(4)),
            leaf(atom(p4)),
            leaf(atom(okay(Value::Int(16)))),
            leaf(atom(p6)),
        ]
    };

    // Test 6: several parameters, two of them errors
    let test6 = go(multi_param(params(fail("Param4 Error"), fail("Param6 Error"))));
    let (n, text) = failure(test6);
    assert_eq!(n, 2);
    assert_eq!(text, "Bulk Try Aggregation:\n\t1) Param4 Error\n\t2) Param6 Error\n".to_string());

    // Test 7: same as test 6, with a trailing marker
    let test7 = go(leaf(multi_param(params(fail("Param4 Error"), fail("Param6 Error")))));
    let (n, text) = failure(test7);
    assert_eq!(n, 2);
    assert_eq!(text, "Bulk Try Aggregation:\n\t1) Param4 Error\n\t2) Param6 Error\n".to_string());

    // Test 8: everything succeeds
    let test8 = go(leaf(multi_param(params(okay(Value::Int(8)), okay(Value::Int(32))))));
    assert_eq!(success(test8), Value::Int(63));

    // Test 9: the parameters are good, but the call yields an error value
    let test9 = go(multi_param(params(okay(Value::Int(8)), okay(Value::Int(200)))));
    assert_eq!(success(test9), fail("one_param received a large value: 231"));

    // Test 10: same as test 9, with a trailing marker
    let test10 = go(leaf(multi_param(params(okay(Value::Int(8)), okay(Value::Int(200))))));
    let (n, text) = failure(test10);
    assert_eq!(n, 1);
    assert_eq!(text, "Bulk Try Aggregation:\n\t1) one_param received a large value: 231\n".to_string());
}

fn test_field(bare: i64, ok: i64, err: &str, next: Value) -> Value {
    Value::Record(
        "TestField".to_string(),
        vec!["bare_int".to_string(), "ok_int".to_string(), "err_int".to_string(), "next".to_string()],
        vec![Value::Int(bare), okay(Value::Int(ok)), fail(err), next],
    )
}

fn new_tester() -> Value {
    okay(test_field(
        1,
        2,
        "Int error 3",
        okay(test_field(4, 5, "Int error 6", okay(test_field(7, 8, "Int error 9", fail("Next error 10"))))),
    ))
}

fn field(base: Expr, name: &str) -> Expr {
    Expr::Field(Box::new(base), name.to_string())
}

fn member_of(v: &Value, name: &str) -> Option<i64> {
    match v {
        Value::Record(_, keys, vals) => keys.iter().position(|k| k == name).and_then(|i| match &vals[i] {
            Value::Int(n) => Some(*n),
            _ => None,
        }),
        _ => None,
    }
}

#[test]
fn test_expr_field() {
    // Test 1: unwrap the whole record
    let test1 = success(go(leaf(atom(new_tester()))));
    assert_eq!(member_of(&test1, "bare_int"), Some(1));

    // Test 2: unwrap a member of the record
    let test2 = go(leaf(field(leaf(atom(new_tester())), "ok_int")));
    assert_eq!(success(test2), Value::Int(2));

    // Test 3: the member's error comes out, on two fresh runs alike
    for _ in 0..2 {
        let test3 = go(leaf(field(leaf(atom(new_tester())), "err_int")));
        let (_, text) = failure(test3);
        assert_eq!("Bulk Try Aggregation:\n\t1) Int error 3\n".to_string(), text);
    }

    // Test 4: deeply nested values
    let e = field(leaf(field(leaf(field(leaf(atom(new_tester())), "next")), "next")), "bare_int");
    assert_eq!(success(go(e)), Value::Int(7));

    // Test 5: the nesting runs out of depth
    let mut e = leaf(atom(new_tester()));
    for _ in 0..5 {
        e = leaf(field(e, "next"));
    }
    let e = leaf(field(e, "err_int"));
    let (_, text) = failure(go(e));
    assert_eq!("Bulk Try Aggregation:\n\t1) Next error 10\n".to_string(), text);
}

fn test_struct(string: Expr, boolean: Expr, vector: Expr, next: Expr) -> Expr {
    Expr::Record(
        "TestStruct".to_string(),
        vec!["string".to_string(), "boolean".to_string(), "vector".to_string(), "next".to_string()],
        vec![string, boolean, vector, next],
    )
}

fn none() -> Expr {
    atom(Value::Tagged("None".to_string(), vec![]))
}

fn some_box(e: Expr) -> Expr {
    Expr::Call(Op::Construct("Some".to_string()), vec![Expr::Call(Op::Identity, vec![e])])
}

fn ints(xs: &[i64]) -> Value {
    Value::List(xs.iter().map(|x| Value::Int(*x)).collect())
}

fn text(s: &str) -> Value {
    Value::Text(s.to_string())
}

struct Expected {
    count: usize,
    text: String,
}

impl Expected {
    fn new() -> Expected {
        Expected { count: 0, text: "Bulk Try Aggregation:\n".to_string() }
    }

    fn err(&mut self, msg: &str) -> Expr {
        self.count += 1;
        self.text = format!("{}\t{}) {}\n", self.text, self.count, msg);
        leaf(atom(fail(msg)))
    }
}

#[test]
fn test_struct_assignment() {
    // Test 1: good values
    let test1 = go(test_struct(
        leaf(atom(okay(text("Test_String")))),
        leaf(atom(okay(Value::Bool(true)))),
        leaf(atom(okay(ints(&[1, 2, -5])))),
        none(),
    ));
    assert_eq!(
        success(test1),
        Value::Record(
            "TestStruct".to_string(),
            vec!["string".to_string(), "boolean".to_string(), "vector".to_string(), "next".to_string()],
            vec![text("Test_String"), Value::Bool(true), ints(&[1, 2, -5]), Value::Tagged("None".to_string(), vec![])],
        )
    );

    // Test 2: several errors
    let mut expected = Expected::new();
    let s = expected.err("String Error 1");
    let b = expected.err("Boolean Error 2");
    let v = expected.err("Vector Error 3");
    let (_, got) = failure(go(test_struct(s, b, v, none())));
    assert_eq!(expected.text, got);

    // Test 3: a nested record with several errors
    let mut expected = Expected::new();
    let s = expected.err("String Error 4");
    let b = expected.err("Boolean Error 5");
    let v = expected.err("Vector Error 6");
    let s2 = expected.err("String Error 7");
    let b2 = expected.err("Boolean Error 8");
    let v2 = expected.err("Vector Error 9");
    let (_, got) = failure(go(test_struct(s, b, v, some_box(test_struct(s2, b2, v2, none())))));
    assert_eq!(expected.text, got);

    // Test 4: a nested record with only one error
    let mut expected = Expected::new();
    let b2 = expected.err("Boolean Error 10");
    let e = test_struct(
        leaf(atom(okay(text("Test4_String")))),
        leaf(atom(okay(Value::Bool(false)))),
        leaf(atom(okay(ints(&[4, 8, -50])))),
        some_box(test_struct(
            leaf(atom(okay(text("Test_String")))),
            b2,
            leaf(atom(okay(ints(&[6, -200, 38])))),
            none(),
        )),
    );
    let (_, got) = failure(go(e));
    assert_eq!(expected.text, got);
}
