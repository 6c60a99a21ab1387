use gx::interpreter::{
    check_recursion_depth, closest_builtin, describe_stray_signal, http_result_err_msg, with_call_stack,
    Signal, MAX_CALL_DEPTH, db_unpack_params, format_call_stack, lcg_step, levenshtein,
    mutate_array_in_place, value_is_ok_false, Env,
};
use gx::value::{ObjectMap, Value};

fn s(x: &str) -> Value {
    Value::Str(x.to_string())
}

fn as_str(v: &Value) -> Option<&str> {
    v.as_str()
}

#[test]
fn object_map_reads_back_what_was_written() {
    let mut m = ObjectMap::new();
    m.insert("a".to_string(), s("1"));
    m.insert("b".to_string(), s("2"));
    m.insert("a".to_string(), s("3"));
    assert_eq!(m.len(), 2);
    assert_eq!(m.get("a").and_then(as_str), Some("3"));
    assert_eq!(m.get("b").and_then(as_str), Some("2"));
    assert!(m.get("c").is_none());
    assert!(m.contains_key("b"));
    let (k, _) = m.entry(0);
    assert_eq!(k, "a");
}

#[test]
fn env_get_after_set_and_memory_round_trip() {
    let mut env = Env::new();
    assert!(matches!(env.get("x"), Value::Null));
    env.set("x", s("hello"));
    env.set("y", Value::Bool(true));
    assert_eq!(env.get("x").as_str(), Some("hello"));
    assert!(matches!(env.get("y"), Value::Bool(true)));
    assert_eq!(env.get_memory().len(), 0);
    let mut mem = ObjectMap::new();
    mem.insert("count".to_string(), Value::Number(3.0f64.to_bits()));
    env.set_memory(mem);
    let back = env.get_memory();
    assert!(matches!(back.get("count"), Some(Value::Number(n)) if f64::from_bits(*n) == 3.0));
    assert_eq!(env.all_vars().len(), 3);
    let copy = env.clone();
    assert_eq!(copy.get("x").as_str(), Some("hello"));
}

#[test]
fn ok_false_values_are_recognized() {
    let mut m = ObjectMap::new();
    m.insert("ok".to_string(), Value::Bool(false));
    assert!(value_is_ok_false(&Value::Object(m)));
    let mut t = ObjectMap::new();
    t.insert("ok".to_string(), Value::Bool(true));
    assert!(!value_is_ok_false(&Value::Object(t)));
    assert!(!value_is_ok_false(&Value::Bool(false)));
    assert!(!value_is_ok_false(&Value::Object(ObjectMap::new())));
}

#[test]
fn http_err_msg_falls_back_when_the_error_field_is_missing() {
    let mut m = ObjectMap::new();
    m.insert("ok".to_string(), Value::Bool(false));
    let r: Result<Value, Signal> = Ok(Value::Object(m));
    assert_eq!(http_result_err_msg(&r), Some("request failed".to_string()));
    let other: Result<Value, Signal> = Err(Signal::Break);
    assert_eq!(http_result_err_msg(&other), Some("request failed".to_string()));
    let plain: Result<Value, Signal> = Ok(Value::Null);
    assert_eq!(http_result_err_msg(&plain), None);
}

#[test]
fn db_params_unpack_a_single_array_argument() {
    let args = vec![s("db"), s("sql"), Value::Array(vec![s("p1"), s("p2")])];
    let params = db_unpack_params(&args, 2);
    assert_eq!(params.len(), 2);
    assert_eq!(params[1].as_str(), Some("p2"));
    let loose = vec![s("db"), s("sql"), s("a"), s("b")];
    assert_eq!(db_unpack_params(&loose, 2).len(), 2);
    assert_eq!(db_unpack_params(&loose, 9).len(), 0);
}

#[test]
fn call_stacks_are_truncated_past_twenty_frames() {
    let short: Vec<String> = vec!["a".into(), "b".into(), "c".into()];
    assert_eq!(format_call_stack(&short), "a → b → c");
    assert_eq!(format_call_stack(&[]), "");
    let long: Vec<String> = (0..25).map(|i| format!("f{}", i)).collect();
    assert_eq!(
        format_call_stack(&long),
        "f0 → f1 → f2 → f3 → f4 → f5 → f6 → f7 → f8 → f9 → ... (5 more frames omitted) ... → f15 → f16 → f17 → f18 → f19 → f20 → f21 → f22 → f23 → f24"
    );
    let twenty: Vec<String> = (0..20).map(|i| format!("g{}", i)).collect();
    assert!(!format_call_stack(&twenty).contains("omitted"));
}

#[test]
fn arrays_are_pushed_and_reversed_in_place() {
    let mut arr = vec![s("a")];
    assert!(mutate_array_in_place(&mut arr, "push", vec![s("b"), s("c")]));
    assert!(mutate_array_in_place(&mut arr, "append", vec![s("d")]));
    assert!(mutate_array_in_place(&mut arr, "reverse", vec![]));
    let texts: Vec<&str> = arr.iter().map(|v| v.as_str().unwrap()).collect();
    assert_eq!(texts, vec!["d", "c", "b", "a"]);
    assert!(mutate_array_in_place(&mut arr, "reverse", vec![]));
    assert_eq!(arr[0].as_str(), Some("a"));
    assert!(mutate_array_in_place(&mut arr, "reverse", vec![]));
    assert!(mutate_array_in_place(&mut arr, "sort", vec![]));
    let texts: Vec<&str> = arr.iter().map(|v| v.as_str().unwrap()).collect();
    assert_eq!(texts, vec!["a", "b", "c", "d"]);
}

#[test]
fn sort_orders_strings_by_text_and_leaves_numbers_to_the_caller() {
    let mut arr = vec![s("b"), s("a"), s("B"), s("ab"), s("a")];
    assert!(mutate_array_in_place(&mut arr, "sort", vec![]));
    let texts: Vec<&str> = arr.iter().map(|v| v.as_str().unwrap()).collect();
    assert_eq!(texts, vec!["B", "a", "a", "ab", "b"]);
    let mut mixed = vec![s("b"), Value::Number(1f64.to_bits())];
    assert!(!mutate_array_in_place(&mut mixed, "sort", vec![]));
    assert_eq!(mixed[0].as_str(), Some("b"));
    let mut empty: Vec<Value> = vec![];
    assert!(mutate_array_in_place(&mut empty, "sort", vec![]));
}

#[test]
fn levenshtein_distances() {
    assert_eq!(levenshtein("kitten", "sitting"), 3);
    assert_eq!(levenshtein("", "abc"), 3);
    assert_eq!(levenshtein("abc", ""), 3);
    assert_eq!(levenshtein("same", "same"), 0);
    assert_eq!(levenshtein("flaw", "lawn"), 2);
    assert_eq!(levenshtein("lawn", "flaw"), 2);
    assert_eq!(levenshtein("héllo", "hello"), 1);
}

#[test]
fn closest_builtin_suggests_within_two_edits() {
    assert_eq!(closest_builtin("lenn"), Some("len"));
    assert_eq!(closest_builtin("http_gt"), Some("http_get"));
    assert_eq!(closest_builtin("log"), Some("log"));
    assert_eq!(closest_builtin("completely_unknown_name"), None);
}

#[test]
fn lcg_steps_follow_the_recurrence() {
    let mut state: u64 = 0;
    let out = lcg_step(&mut state);
    assert_eq!(state, 1442695040888963407);
    assert_eq!(out, 1442695040888963407 >> 33);
    let mut s2: u64 = 1;
    lcg_step(&mut s2);
    assert_eq!(s2, 6364136223846793005u64.wrapping_add(1442695040888963407));
}

#[test]
fn stray_signals_are_described_in_plain_words() {
    let stack: Vec<String> = vec!["agent \"demo\"".into(), "helper".into()];
    assert_eq!(
        describe_stray_signal(&stack, Signal::AssertFail("x must equal y".into())),
        "Assertion failed: x must equal y\n  in agent \"demo\" → helper"
    );
    assert_eq!(
        describe_stray_signal(&[], Signal::AssertFail("x".into())),
        "Assertion failed: x"
    );
    assert_eq!(describe_stray_signal(&stack, Signal::Error("boom".into())), "boom");
    assert_eq!(
        describe_stray_signal(&stack, Signal::Return(Value::Null)),
        "unexpected return outside a function"
    );
    assert_eq!(describe_stray_signal(&stack, Signal::Break), "unexpected break outside a loop");
    assert_eq!(
        describe_stray_signal(&stack, Signal::Respond("text/plain".into(), "b".into(), 200)),
        "unexpected respond outside a route handler"
    );
    assert_eq!(
        describe_stray_signal(&stack, Signal::Cancelled("deadline exceeded".into())),
        "cancelled: deadline exceeded"
    );
    assert_eq!(with_call_stack(&[], "m".to_string()), "m");
}

#[test]
fn call_depth_is_capped() {
    assert!(check_recursion_depth(MAX_CALL_DEPTH - 1).is_ok());
    match check_recursion_depth(MAX_CALL_DEPTH) {
        Err(Signal::Error(m)) => assert_eq!(
            m,
            "maximum call depth exceeded (1000) — likely infinite or excessively deep recursion"
        ),
        _ => panic!("expected an error at the depth limit"),
    }
}

#[test]
fn some_state_gives_a_unit_value_in_the_upper_half() {
    let mut state: u64 = 1843579416325869589;
    let r = lcg_step(&mut state);
    assert_eq!(state, 1 << 63);
    assert_eq!(r, 0x4000_0000);
    assert!(r < gx::interpreter::LCG_UNIT_DENOMINATOR);
}
