use gx::interpreter::indexing::{
    assign_index, char_at, index_value, IndexKey, pad_char, pad_end, pad_start, repeat_string, skip_items, slice_array, slice_bounds,
    slice_string, substr, take_items, value_len, MAX_STRING_REPEAT_BYTES,
};
use gx::interpreter::Signal;
use gx::value::{ObjectMap, Value};

fn num(n: f64) -> Value {
    Value::Number(n.to_bits())
}

fn nums(v: &[Value]) -> Vec<f64> {
    v.iter()
        .map(|x| match x {
            Value::Number(b) => f64::from_bits(*b),
            _ => f64::NAN,
        })
        .collect()
}

#[test]
fn test_standalone_slice() {
    assert_eq!(slice_string("foobar", 0, Some(3)), "foo");
    let items: Vec<Value> = (1..=5).map(|i| num(i as f64)).collect();
    let sub = slice_array(&items, 1, Some(4));
    assert_eq!(nums(&sub), vec![2.0, 3.0, 4.0]);
}

#[test]
fn slices_clamp_their_bounds() {
    assert_eq!(slice_bounds(5, 1, None), (1, 5));
    assert_eq!(slice_bounds(5, 4, Some(2)), (2, 2));
    assert_eq!(slice_bounds(5, 9, Some(99)), (5, 5));
    assert_eq!(slice_string("héllo", 1, None), "éllo");
    assert_eq!(slice_string("abc", 2, Some(1)), "");
    let items: Vec<Value> = (1..=3).map(|i| num(i as f64)).collect();
    assert_eq!(nums(&take_items(&items, 2)), vec![1.0, 2.0]);
    assert_eq!(nums(&take_items(&items, 10)), vec![1.0, 2.0, 3.0]);
    assert_eq!(nums(&skip_items(&items, 1)), vec![2.0, 3.0]);
    assert!(skip_items(&items, 7).is_empty());
}

#[test]
fn substr_counts_characters() {
    assert_eq!(substr("hello world", 6, None), "world");
    assert_eq!(substr("hello world", 0, Some(5)), "hello");
    assert_eq!(substr("héllo", 1, Some(2)), "él");
    assert_eq!(substr("abc", 5, Some(1)), "");
    assert_eq!(substr("abc", 1, Some(99)), "bc");
}

#[test]
fn padding_and_repetition() {
    assert_eq!(pad_start("hi", 5, '0'), "000hi");
    assert_eq!(pad_end("hi", 4, '.'), "hi..");
    assert_eq!(pad_start("hello", 3, '0'), "hello");
    assert_eq!(pad_char(Some(&Value::Str("0x".to_string()))), '0');
    assert_eq!(pad_char(Some(&Value::Str(String::new()))), ' ');
    assert_eq!(pad_char(Some(&num(1.0))), ' ');
    assert_eq!(pad_char(None), ' ');
    assert_eq!(repeat_string("abc", 3), Ok("abcabcabc".to_string()));
    assert_eq!(repeat_string("x", 0), Ok(String::new()));
    assert_eq!(
        repeat_string("ab", MAX_STRING_REPEAT_BYTES),
        Err("repeat: result would exceed the 67108864-byte limit".to_string())
    );
    assert_eq!(repeat_string("é", usize::MAX), Err("repeat: result would exceed the 67108864-byte limit".to_string()));
    assert!(repeat_string("é", MAX_STRING_REPEAT_BYTES / 2).is_ok());
    assert!(repeat_string("é", MAX_STRING_REPEAT_BYTES / 2 + 1).is_err());
}

#[test]
fn length_of_each_kind_of_value() {
    assert_eq!(value_len(&Value::Str("héllo".to_string())), 5);
    assert_eq!(value_len(&Value::Array(vec![Value::Null, Value::Null])), 2);
    let mut m = ObjectMap::new();
    m.insert("a".to_string(), Value::Null);
    assert_eq!(value_len(&Value::Object(m)), 1);
    assert_eq!(value_len(&Value::Null), 0);
    assert_eq!(value_len(&num(7.0)), 1);
    assert_eq!(value_len(&Value::Bool(true)), 1);
}

fn key(n: i64) -> IndexKey {
    IndexKey::Num { magnitude: n.unsigned_abs() as usize, negative: n < 0 }
}

fn skey(k: &str) -> IndexKey {
    IndexKey::Str(k.to_string())
}

fn arr(ns: &[f64]) -> Value {
    Value::Array(ns.iter().map(|n| num(*n)).collect())
}

fn as_nums(v: &Value) -> Vec<f64> {
    match v {
        Value::Array(items) => nums(items),
        _ => panic!("expected an array"),
    }
}

fn as_num(v: &Value) -> Option<f64> {
    match v {
        Value::Number(b) => Some(f64::from_bits(*b)),
        _ => None,
    }
}

#[test]
fn test_negative_indexing() {
    let a = arr(&[1.0, 2.0, 3.0, 4.0, 5.0]);
    assert_eq!(as_num(&index_value(&a, &key(-1))), Some(5.0));
    assert_eq!(as_num(&index_value(&a, &key(-2))), Some(4.0));
}

#[test]
fn reads_miss_outside_the_array_and_for_the_wrong_kind_of_key() {
    let a = arr(&[1.0, 2.0, 3.0]);
    assert_eq!(as_num(&index_value(&a, &key(0))), Some(1.0));
    assert!(matches!(index_value(&a, &key(3)), Value::Null));
    assert!(matches!(index_value(&a, &key(-4)), Value::Null));
    assert!(matches!(index_value(&a, &skey("x")), Value::Null));
    let mut m = ObjectMap::new();
    m.insert("x".to_string(), num(7.0));
    let o = Value::Object(m);
    assert_eq!(as_num(&index_value(&o, &skey("x"))), Some(7.0));
    assert!(matches!(index_value(&o, &skey("y")), Value::Null));
    assert!(matches!(index_value(&o, &key(0)), Value::Null));
    assert!(matches!(index_value(&Value::Null, &key(0)), Value::Null));
}

#[test]
fn strings_index_and_char_at_by_character() {
    let s = Value::Str("héllo".to_string());
    assert!(matches!(index_value(&s, &key(1)), Value::Str(ref c) if c == "é"));
    assert!(matches!(index_value(&s, &key(-1)), Value::Str(ref c) if c == "o"));
    assert!(matches!(char_at("héllo", &key(4)), Value::Str(ref c) if c == "o"));
    assert!(matches!(char_at("héllo", &key(-5)), Value::Str(ref c) if c == "h"));
    assert!(matches!(char_at("héllo", &key(5)), Value::Null));
    assert!(matches!(char_at("héllo", &key(-6)), Value::Null));
}

#[test]
fn assigning_inside_an_array_replaces_the_item() {
    let mut a = arr(&[1.0, 2.0, 3.0]);
    assert!(assign_index(&mut a, key(1), num(9.0)).is_ok());
    assert_eq!(as_nums(&a), vec![1.0, 9.0, 3.0]);
    assert!(assign_index(&mut a, key(-1), num(8.0)).is_ok());
    assert_eq!(as_nums(&a), vec![1.0, 9.0, 8.0]);
}

#[test]
fn assigning_past_the_end_extends_the_array_with_nulls() {
    let mut a = arr(&[1.0]);
    assert!(assign_index(&mut a, key(3), num(4.0)).is_ok());
    match &a {
        Value::Array(items) => {
            assert_eq!(items.len(), 4);
            assert!(matches!(items[1], Value::Null));
            assert!(matches!(items[2], Value::Null));
            assert_eq!(as_num(&items[3]), Some(4.0));
        }
        _ => panic!("expected an array"),
    }
}

#[test]
fn assigning_before_the_start_is_an_error_and_changes_nothing() {
    let mut a = arr(&[1.0, 2.0, 3.0]);
    match assign_index(&mut a, key(-100), num(0.0)) {
        Err(Signal::Error(m)) => assert_eq!(m, "array index -100 out of bounds for length 3"),
        _ => panic!("expected an out-of-bounds error"),
    }
    assert_eq!(as_nums(&a), vec![1.0, 2.0, 3.0]);
}

#[test]
fn assigning_into_null_creates_an_object_or_an_array() {
    let mut o = Value::Null;
    assert!(assign_index(&mut o, skey("name"), Value::Str("Ada".to_string())).is_ok());
    match &o {
        Value::Object(m) => {
            assert_eq!(m.len(), 1);
            assert!(matches!(m.get("name"), Some(Value::Str(s)) if s == "Ada"));
        }
        _ => panic!("expected an object"),
    }
    let mut a = Value::Null;
    assert!(assign_index(&mut a, key(2), num(5.0)).is_ok());
    match &a {
        Value::Array(items) => {
            assert_eq!(items.len(), 3);
            assert!(matches!(items[0], Value::Null));
            assert_eq!(as_num(&items[2]), Some(5.0));
        }
        _ => panic!("expected an array"),
    }
}

#[test]
fn assigning_with_the_wrong_kind_of_key_is_refused() {
    let mut a = arr(&[1.0]);
    match assign_index(&mut a, skey("x"), num(0.0)) {
        Err(Signal::Error(m)) => assert_eq!(m, "Cannot index assign to this type"),
        _ => panic!("expected an error"),
    }
    let mut s = Value::Str("abc".to_string());
    assert!(assign_index(&mut s, key(0), num(0.0)).is_err());
    assert!(matches!(s, Value::Str(ref t) if t == "abc"));
}

#[test]
fn a_written_key_reads_back() {
    let mut o = Value::Null;
    assign_index(&mut o, skey("k"), num(1.0)).unwrap();
    assign_index(&mut o, skey("k"), num(2.0)).unwrap();
    assert_eq!(as_num(&index_value(&o, &skey("k"))), Some(2.0));
    let mut a = arr(&[1.0, 2.0]);
    assign_index(&mut a, key(-2), num(6.0)).unwrap();
    assert_eq!(as_num(&index_value(&a, &key(-2))), Some(6.0));
    assert_eq!(as_num(&index_value(&a, &key(1))), Some(2.0));
}
