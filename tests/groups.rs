use allwhat::batch::BatchResult;
use allwhat::group::{ErrorGroup, Grouper};
use allwhat::logger::{LogLine, MsgLevel, ScreenLogger};
use allwhat::split::SplitResult;

#[test]
fn group_renders_default_label_and_numbers() {
    let mut g = ErrorGroup::new(None);
    assert!(g.is_empty());
    assert_eq!(g.render(), "Error Group:\n");
    g.append("first".to_string());
    let g = g.appendf("second".to_string());
    assert_eq!(g.len(), 2);
    assert_eq!(g.render(), "Error Group:\n\t1) first\n\t2) second\n");
    let g = g.set_label("Named".to_string());
    assert_eq!(g.render(), "Named:\n\t1) first\n\t2) second\n");
}

#[test]
fn group_numbers_past_nine() {
    let mut g = ErrorGroup::new(Some("L".to_string()));
    for i in 0..12 {
        g.append(format!("e{}", i));
    }
    assert!(g.render().ends_with("\t10) e9\n\t11) e10\n\t12) e11\n"));
}

#[test]
fn extract_passes_values_and_keeps_errors() {
    let mut g = ErrorGroup::new(Some("Group Label".to_string()));
    assert_eq!(g.extract(Ok::<&str, String>("Ok does nothing")), Ok("Ok does nothing"));
    assert_eq!(g.extract(Err::<(), String>("Value2 Error".to_string())), Err("(Extracted) - Value2 Error".to_string()));
    assert_eq!(g.render(), "Group Label:\n\t1) Value2 Error\n");
}

#[test]
fn unwrap_all_splits_values_and_errors() {
    let (vals, errs) = ErrorGroup::unwrap_all(vec![Ok(1), Err("a".to_string()), Ok(3), Err("b".to_string())]);
    assert_eq!(vals, vec![1, 3]);
    assert_eq!(errs.unwrap().render(), "Error Group:\n\t1) a\n\t2) b\n");
    let (vals, errs) = ErrorGroup::unwrap_all(vec![Ok::<i32, String>(1)]);
    assert_eq!(vals, vec![1]);
    assert!(errs.is_none());
}

#[test]
fn extend_appends_only_errors() {
    let mut g = ErrorGroup::new(None);
    g.extend(vec![Ok(()), Err("x".to_string()), Err("y".to_string())]);
    assert_eq!(g.render(), "Error Group:\n\t1) x\n\t2) y\n");
}

#[test]
fn batch_validate_counts_runs_and_failures() {
    let tests: Vec<Box<dyn FnOnce(&i32) -> Result<(), String>>> = vec![
        Box::new(|v: &i32| if *v > 0 { Ok(()) } else { Err("not positive".to_string()) }),
        Box::new(|v: &i32| if *v % 2 == 0 { Ok(()) } else { Err("odd".to_string()) }),
        Box::new(|v: &i32| if *v < 10 { Ok(()) } else { Err("too big".to_string()) }),
    ];
    let b = BatchResult::validate(15, tests);
    assert_eq!(b.count(), 3);
    assert_eq!(b.count_error(), 2);
    assert_eq!(b.count_valid(), 1);
    assert!(!b.is_ok());
    let g = b.as_result().unwrap_err();
    assert_eq!(g.render(), "Error Group:\n\t1) \"odd\"\n\t2) \"too big\"\n");
}

#[test]
fn batch_append_keeps_the_debug_rendering() {
    let mut b = BatchResult::new(1u8);
    b.append("say \"hi\"\n".to_string());
    assert_eq!(b.count(), 0);
    assert_eq!(b.count_error(), 1);
    assert_eq!(b.as_result().unwrap_err().render(), "Batch Errors:\n\t1) \"say \\\"hi\\\"\\n\"\n");
}

#[test]
fn batch_apply_fold_and_foreach() {
    let b = BatchResult::new(0i32)
        .apply(|v: &mut i32| {
            *v += 2;
            Ok(())
        })
        .apply(|_: &mut i32| Err("nope".to_string()));
    assert_eq!(b.count(), 2);
    assert_eq!(b.count_valid(), 1);
    let b = b.set_label("Mine");
    assert_eq!(b.as_result().unwrap_err().render(), "Mine:\n\t1) \"nope\"\n");

    let b = BatchResult::fold(0i32, vec![1, 2, 3], |acc: &mut i32, x: i32| {
        if x == 2 {
            return Err(format!("skip {}", x));
        }
        *acc += x;
        Ok(())
    });
    assert_eq!(b.count(), 3);
    assert_eq!(b.as_result().unwrap_err().render(), "Batch Errors:\n\t1) \"skip 2\"\n");

    let ok = BatchResult::fold(10i32, vec![1, 2], |acc: &mut i32, x: i32| {
        *acc += x;
        Ok::<(), String>(())
    });
    assert!(ok.is_ok());
    assert_eq!(ok.as_result().unwrap(), 13);

    let mut seen = vec![];
    let b = BatchResult::<()>::foreach(vec![1, 2, 3], &mut |x: i32| {
        seen.push(x);
        if x == 1 { Err("one".to_string()) } else { Ok(()) }
    });
    assert_eq!(seen, vec![1, 2, 3]);
    assert_eq!(b.count(), 3);
    let b = b.context("Loop".to_string());
    assert_eq!(b.as_result().unwrap_err().render(), "Loop:\n\t1) \"one\"\n");
}

#[test]
fn split_map_sorts_values_from_errors() {
    let s = SplitResult::map(vec![1, -2, 3, -4], |x: i32| if x > 0 { Ok(x * 10) } else { Err(format!("neg {}", x)) });
    assert_eq!(s.as_result().unwrap_err().render(), "Error Group:\n\t1) neg -2\n\t2) neg -4\n");
    let s = SplitResult::map(vec![1, 2], |x: i32| Ok::<i32, String>(x + 1));
    assert_eq!(s.as_result().unwrap(), vec![2, 3]);
    let s = SplitResult::map(vec![1, 2], |x: i32| Ok::<i32, String>(x + 1)).context("Ctx".to_string());
    assert_eq!(s.as_result().unwrap_err().render(), "Ctx:\n");
}

fn line(level: MsgLevel, text: &str) -> LogLine {
    LogLine { level, text: text.to_string() }
}

#[test]
fn logger_indents_and_prints_by_actions() {
    let mut log = ScreenLogger::new();
    assert_eq!(log.print(None, "top".to_string()), vec![line(MsgLevel::Info, "top")]);
    assert_eq!(log.print(Some("+"), "one".to_string()), vec![line(MsgLevel::Info, "- one")]);
    assert_eq!(log.print(Some("+W"), "two".to_string()), vec![line(MsgLevel::Warn, "  - two")]);
    assert_eq!(log.print(Some("_-"), "x".to_string()), vec![line(MsgLevel::Info, "  - x")]);
    assert_eq!(
        log.print(Some("__q"), "m".to_string()),
        vec![
            line(MsgLevel::Info, "- m"),
            line(MsgLevel::Warn, "- Multiprint - 'm'"),
            line(MsgLevel::Info, "- m"),
            line(MsgLevel::Warn, "- Adding quotes to message after it has been printed - 'm'"),
        ]
    );
    assert_eq!(log.print(Some("rE"), "z".to_string()), vec![line(MsgLevel::Error, "z")]);
    log.indent();
    log.dedent();
    log.dedent();
    assert_eq!(log.print_msg(MsgLevel::Debug, &"d".to_string()), line(MsgLevel::Debug, "d"));
    log.indent();
    log.reset();
    assert_eq!(log.print(Some("T"), "t".to_string()), vec![line(MsgLevel::Trace, "t")]);
}

#[derive(Debug)]
struct TestErr(String);

impl std::fmt::Display for TestErr {
    fn fmt(&self, f: &mut std::fmt::Formatter<'_>) -> std::fmt::Result {
        f.write_str(&format!("{:?}", self.0))
    }
}

/// Compares a result with an expected one, errors by their text.
fn cmp<T: Eq>(left: Result<T, String>, right: Result<T, &str>) -> bool {
    match (left, right) {
        (Ok(_), Err(_)) | (Err(_), Ok(_)) => false,
        (Ok(l), Ok(r)) => l == r,
        (Err(l), Err(r)) => {
            if l == r {
                true
            } else {
                println!("No Match:\n\tEval:     '{}'\n\tExpected: '{}'", l, r);
                false
            }
        },
    }
}

#[test]
fn test_error_group() {
    let mut group: ErrorGroup = ErrorGroup::new(None);

    let value1: Result<&str, TestErr> = Ok("Ok does nothing");
    assert!(cmp(group.extract(value1.map_err(|e| e.to_string())), Ok("Ok does nothing")));

    let value2: Result<(), TestErr> = Err(TestErr("Value2 Error".to_string()));
    assert!(cmp(group.extract(value2.map_err(|e| e.to_string())), Err("(Extracted) - \"Value2 Error\"")));

    let value3: Result<(), TestErr> = Err(TestErr("Value3 Error".to_string()));
    assert!(cmp(group.extract(value3.map_err(|e| e.to_string())), Err("(Extracted) - \"Value3 Error\"")));
}

#[test]
fn extract_collects_labelled_errors() {
    let get_int = |val: i64, is_ok: bool| -> Result<u64, String> {
        if is_ok { Ok(val as u64) } else { Err(format!("Forced Error for val {}", val)) }
    };
    let get_str = |val: &str, is_ok: bool| -> Result<String, String> {
        if is_ok { Ok(format!("Valid: {}", val)) } else { Err(format!("Invalid: {}", val)) }
    };
    let mut err_res = ErrorGroup::new(Some("Extracted Errors".to_string()));
    let int_1 = err_res.extract(get_int(1, true));
    let int_2 = err_res.extract(get_int(2, false));
    let str_1 = err_res.extract(get_str("String 1", true));
    let str_4 = err_res.extract(get_str("String 4", false));
    assert_eq!(int_1.unwrap(), 1);
    assert_eq!(str_1.unwrap(), "Valid: String 1".to_string());
    assert_eq!(int_2.unwrap_err(), "(Extracted) - Forced Error for val 2".to_string());
    assert_eq!(str_4.unwrap_err(), "(Extracted) - Invalid: String 4".to_string());
    assert_eq!(err_res.len(), 2);
    assert_eq!(err_res.render(), "Extracted Errors:\n\t1) Forced Error for val 2\n\t2) Invalid: String 4\n".to_string());
}
