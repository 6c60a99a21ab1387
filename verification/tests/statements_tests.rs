use gx::interpreter::statements::{
    catch_signal, check_import, loop_step, while_limit, while_step, AssertTally, LoopStep,
    MAX_WHILE_ITERATIONS,
};
use gx::interpreter::Signal;
use gx::value::Value;

fn paths(ps: &[&str]) -> Vec<String> {
    ps.iter().map(|p| p.to_string()).collect()
}

fn text(v: Option<&Value>) -> Option<String> {
    match v {
        Some(Value::Str(s)) => Some(s.clone()),
        _ => None,
    }
}

#[test]
fn an_import_off_the_chain_is_allowed() {
    assert!(check_import(&paths(&["/p/a.gx", "/p/b.gx"]), "/p/c.gx", 1).is_ok());
    assert!(check_import(&[], "/p/a.gx", 1).is_ok());
}

#[test]
fn an_import_cycle_names_the_chain_from_the_repeated_file() {
    let err = check_import(&paths(&["/p/a.gx", "/p/b.gx"]), "/p/a.gx", 1).unwrap_err();
    assert_eq!(err, "Line 1: import cycle detected: /p/a.gx -> /p/b.gx -> /p/a.gx");
    assert!(err.contains("a.gx") && err.contains("b.gx"));
    let err = check_import(&paths(&["/p/main.gx", "/p/a.gx", "/p/b.gx"]), "/p/a.gx", 12).unwrap_err();
    assert_eq!(err, "Line 12: import cycle detected: /p/a.gx -> /p/b.gx -> /p/a.gx");
}

#[test]
fn a_file_importing_itself_is_a_cycle() {
    let err = check_import(&paths(&["/p/self.gx"]), "/p/self.gx", 3).unwrap_err();
    assert_eq!(err, "Line 3: import cycle detected: /p/self.gx -> /p/self.gx");
}

#[test]
fn catch_builds_an_error_object_with_the_inferred_kind() {
    match catch_signal(Signal::Error("connection refused".to_string()), None) {
        Ok(Value::Object(m)) => {
            assert_eq!(m.len(), 3);
            assert_eq!(text(m.get("message")).as_deref(), Some("connection refused"));
            assert_eq!(text(m.get("kind")).as_deref(), Some("NetworkError"));
            assert!(matches!(m.get("code"), Some(Value::Null)));
        }
        _ => panic!("expected an error object"),
    }
    match catch_signal(Signal::Error("division by zero".to_string()), None) {
        Ok(Value::Object(m)) => assert_eq!(text(m.get("kind")).as_deref(), Some("RuntimeError")),
        _ => panic!("expected an error object"),
    }
}

#[test]
fn a_caught_assertion_failure_is_an_assertion_error_with_its_message() {
    match catch_signal(Signal::AssertFail("x must equal y".to_string()), Some("AssertionError")) {
        Ok(Value::Object(m)) => {
            assert_eq!(text(m.get("message")).as_deref(), Some("x must equal y"));
            assert_eq!(text(m.get("kind")).as_deref(), Some("AssertionError"));
        }
        _ => panic!("expected an error object"),
    }
}

#[test]
fn a_catch_for_another_kind_rethrows_the_message_as_an_error() {
    match catch_signal(Signal::Error("file not found".to_string()), Some("NetworkError")) {
        Err(Signal::Error(m)) => assert_eq!(m, "file not found"),
        _ => panic!("expected the error to be passed on"),
    }
    match catch_signal(Signal::AssertFail("boom".to_string()), Some("RuntimeError")) {
        Err(Signal::Error(m)) => assert_eq!(m, "boom"),
        _ => panic!("expected the failure to be passed on as an error"),
    }
    match catch_signal(Signal::Error("file not found".to_string()), Some("NotFoundError")) {
        Ok(Value::Object(m)) => assert_eq!(text(m.get("kind")).as_deref(), Some("NotFoundError")),
        _ => panic!("expected the error to be caught"),
    }
}

#[test]
fn control_flow_signals_are_not_caught() {
    assert!(matches!(catch_signal(Signal::Break, None), Err(Signal::Break)));
    assert!(matches!(catch_signal(Signal::Continue, None), Err(Signal::Continue)));
    assert!(matches!(catch_signal(Signal::Return(Value::Null), None), Err(Signal::Return(Value::Null))));
    match catch_signal(Signal::Cancelled("stop".to_string()), None) {
        Err(Signal::Cancelled(r)) => assert_eq!(r, "stop"),
        _ => panic!("expected the cancellation to be passed on"),
    }
}

#[test]
fn the_assert_tally_counts_every_assertion_and_keeps_failures() {
    let mut tally = AssertTally::new();
    tally.begin();
    assert!(tally.settle(true, None, 1).is_ok());
    tally.begin();
    match tally.settle(false, None, 7) {
        Err(Signal::AssertFail(m)) => assert_eq!(m, "assertion at line 7 failed"),
        _ => panic!("expected a failed assertion"),
    }
    tally.begin();
    match tally.settle(false, Some("x must equal y".to_string()), 9) {
        Err(Signal::AssertFail(m)) => assert_eq!(m, "x must equal y"),
        _ => panic!("expected a failed assertion"),
    }
    assert_eq!(tally.count, 3);
    assert_eq!(tally.failures, vec!["assertion at line 7 failed".to_string(), "x must equal y".to_string()]);
}

#[test]
fn while_loops_stop_at_ten_million_rounds_unless_unlimited() {
    assert_eq!(while_limit(false), 10_000_000);
    assert_eq!(MAX_WHILE_ITERATIONS, 10_000_000);
    assert_eq!(while_limit(true), usize::MAX);
    assert!(matches!(while_step(0, 10_000_000), Ok(1)));
    assert!(matches!(while_step(9_999_999, 10_000_000), Ok(10_000_000)));
    match while_step(10_000_000, 10_000_000) {
        Err(Signal::Error(m)) => {
            assert!(m.starts_with("while loop exceeded 10,000,000 iterations."));
            assert!(m.ends_with("run with: gx run --no-limit"));
        }
        _ => panic!("expected the loop limit error"),
    }
}

#[test]
fn loop_bodies_continue_break_or_pass_signals_on() {
    assert!(matches!(loop_step(Ok(Value::Bool(true))), LoopStep::Next(Value::Bool(true))));
    assert!(matches!(loop_step(Err(Signal::Break)), LoopStep::Stop));
    assert!(matches!(loop_step(Err(Signal::Continue)), LoopStep::Skip));
    match loop_step(Err(Signal::Error("bad".to_string()))) {
        LoopStep::Propagate(Signal::Error(m)) => assert_eq!(m, "bad"),
        _ => panic!("expected the error to be passed on"),
    }
}

#[test]
fn a_caught_assertion_failures_message_stays_pristine() {
    let mut tally = AssertTally::new();
    tally.begin();
    let failure = tally.settle(false, Some("boom".to_string()), 3).unwrap_err();
    match catch_signal(failure, None) {
        Ok(Value::Object(m)) => assert_eq!(text(m.get("message")).as_deref(), Some("boom")),
        _ => panic!("expected the failure to be caught"),
    }
}

#[test]
fn test_assert() {
    let mut tally = AssertTally::new();
    tally.begin();
    assert!(tally.settle(2 + 2 == 4, Some("math must work".to_string()), 6).is_ok());
    assert_eq!(tally.count, 1);
    assert!(tally.failures.is_empty());
}

#[test]
fn test_try_catch() {
    match catch_signal(Signal::Error("Division by zero".to_string()), None) {
        Ok(Value::Object(m)) => {
            assert_eq!(text(m.get("message")).as_deref(), Some("Division by zero"));
            assert_eq!(text(m.get("kind")).as_deref(), Some("RuntimeError"));
        }
        _ => panic!("expected the error to be caught"),
    }
}

#[test]
fn test_while_loop() {
    let limit = while_limit(false);
    let mut iterations = 0usize;
    let mut i = 0;
    loop {
        iterations = while_step(iterations, limit).unwrap();
        if !(i < 3) {
            break;
        }
        i += 1;
    }
    assert_eq!(i, 3);
    assert_eq!(iterations, 4);
}

#[test]
fn test_break_continue() {
    let mut total = 0;
    for i in [1, 2, 3, 4, 5] {
        let outcome = if i == 4 {
            Err(Signal::Break)
        } else if i == 2 {
            Err(Signal::Continue)
        } else {
            Ok(Value::Null)
        };
        match loop_step(outcome) {
            LoopStep::Stop => break,
            LoopStep::Skip => continue,
            LoopStep::Next(_) => total += i,
            LoopStep::Propagate(_) => panic!("no other signal"),
        }
    }
    assert_eq!(total, 4);
}
