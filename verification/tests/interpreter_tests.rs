use gx::interpreter::util::is_package_import;
use gx::interpreter::{http_result_err_msg, try_reserve_sse_responder_slot, Signal};
use gx::value::{ObjectMap, Value};

#[test]
fn http_result_err_msg_detects_an_ok_false_result_as_an_error() {
    let mut ok_false = ObjectMap::new();
    ok_false.insert("ok".to_string(), Value::Bool(false));
    ok_false.insert(
        "error".to_string(),
        Value::Str("connection refused".to_string()),
    );
    let result: Result<Value, Signal> = Ok(Value::Object(ok_false));
    assert_eq!(
        http_result_err_msg(&result),
        Some("connection refused".to_string())
    );

    let mut ok_true = ObjectMap::new();
    ok_true.insert("ok".to_string(), Value::Bool(true));
    let success: Result<Value, Signal> = Ok(Value::Object(ok_true));
    assert_eq!(http_result_err_msg(&success), None);

    let thrown: Result<Value, Signal> = Err(Signal::Error("boom".to_string()));
    assert_eq!(http_result_err_msg(&thrown), Some("boom".to_string()));
}

#[test]
fn is_package_import_distinguishes_package_names_from_file_paths() {
    assert!(is_package_import("leftpad"));
    assert!(is_package_import("http-utils"));
    assert!(
        !is_package_import("leftpad.gx"),
        "a .gx suffix is a file path"
    );
    assert!(
        !is_package_import("./leftpad.gx"),
        "a leading . is a relative file path"
    );
    assert!(!is_package_import("../lib/leftpad.gx"));
    assert!(
        !is_package_import("lib/leftpad"),
        "a path separator makes it a file path"
    );
    assert!(!is_package_import("lib\\leftpad"));
}

#[test]
fn try_reserve_sse_responder_slot_rejects_once_the_cap_is_reached_and_allows_below_it() {
    let counter = std::sync::atomic::AtomicUsize::new(0);
    assert!(try_reserve_sse_responder_slot(&counter, 3));
    assert!(try_reserve_sse_responder_slot(&counter, 3));
    assert!(try_reserve_sse_responder_slot(&counter, 3));
    assert_eq!(counter.load(std::sync::atomic::Ordering::SeqCst), 3);
    assert!(
        !try_reserve_sse_responder_slot(&counter, 3),
        "a 4th reservation must be refused once the cap is reached"
    );
    // Refusing must not have mutated the counter.
    assert_eq!(counter.load(std::sync::atomic::Ordering::SeqCst), 3);

    // Releasing one slot (what a finished responder thread's
    // `fetch_sub` does) must free capacity for the next reservation.
    counter.fetch_sub(1, std::sync::atomic::Ordering::SeqCst);
    assert!(try_reserve_sse_responder_slot(&counter, 3));
}
