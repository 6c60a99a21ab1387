use gx::interpreter::selection::{contains, find_text, group_by, has, join_strings, omit, pick};
use gx::interpreter::Signal;
use gx::value::{ObjectMap, Value};

fn s(x: &str) -> Value {
    Value::Str(x.to_string())
}

fn num(n: f64) -> Value {
    Value::Number(n.to_bits())
}

fn obj(pairs: &[(&str, Value)]) -> Value {
    let mut m = ObjectMap::new();
    for (k, v) in pairs {
        m.insert(k.to_string(), v.clone());
    }
    Value::Object(m)
}

fn list(ks: &[&str]) -> Value {
    Value::Array(ks.iter().map(|k| s(k)).collect())
}

fn entries(v: &Value) -> &ObjectMap {
    match v {
        Value::Object(m) => m,
        _ => panic!("expected an object"),
    }
}

fn field_num(v: &Value, k: &str) -> Option<f64> {
    match entries(v).get(k) {
        Some(Value::Number(b)) => Some(f64::from_bits(*b)),
        _ => None,
    }
}

fn field_str(v: &Value, k: &str) -> Option<String> {
    match entries(v).get(k) {
        Some(Value::Str(t)) => Some(t.clone()),
        _ => None,
    }
}

fn truth(v: Option<Value>) -> bool {
    match v {
        Some(Value::Bool(b)) => b,
        _ => panic!("expected a boolean"),
    }
}

fn user() -> Value {
    obj(&[("id", num(1.0)), ("name", s("Ada")), ("email", s("ada@example.com"))])
}

#[test]
fn pick_keeps_only_the_named_keys_that_are_actually_present() {
    let public = pick(&user(), &list(&["id", "name"]));
    assert_eq!(field_num(&public, "id"), Some(1.0));
    assert_eq!(field_str(&public, "name").as_deref(), Some("Ada"));
    assert!(!truth(has(&public, &s("email"))), "pick must not include keys that weren't asked for");

    let partial = pick(&user(), &list(&["id", "does_not_exist"]));
    assert!(truth(has(&partial, &s("id"))));
    assert!(!truth(has(&partial, &s("does_not_exist"))));

    let one = pick(&user(), &list(&["id"]));
    assert_eq!(field_num(&one, "id"), Some(1.0));
}

#[test]
fn pick_on_a_non_object_or_with_no_keys_returns_an_empty_object_not_an_error() {
    assert_eq!(entries(&pick(&Value::Null, &list(&["a"]))).len(), 0);
    assert_eq!(entries(&pick(&num(42.0), &list(&["a"]))).len(), 0);
    assert_eq!(entries(&pick(&obj(&[("a", num(1.0))]), &Value::Null)).len(), 0);
}

#[test]
fn omit_excludes_only_the_named_keys() {
    let u = obj(&[("id", num(1.0)), ("name", s("Ada")), ("password_hash", s("secret"))]);
    let safe = omit(&u, &list(&["password_hash"]));
    assert_eq!(field_num(&safe, "id"), Some(1.0));
    assert_eq!(field_str(&safe, "name").as_deref(), Some("Ada"));
    assert!(!truth(has(&safe, &s("password_hash"))), "omit must remove exactly the named keys");
    assert_eq!(entries(&safe).len(), 2);
}

#[test]
fn omit_with_no_keys_returns_the_object_unchanged() {
    let u = obj(&[("id", num(1.0)), ("name", s("Ada"))]);
    let same = omit(&u, &list(&[]));
    assert_eq!(field_num(&same, "id"), Some(1.0));
    assert_eq!(field_str(&same, "name").as_deref(), Some("Ada"));
    let same = omit(&u, &Value::Null);
    assert_eq!(entries(&same).len(), 2);
}

#[test]
fn omit_on_a_non_object_is_an_empty_object() {
    assert_eq!(entries(&omit(&s("text"), &list(&["a"]))).len(), 0);
}

#[test]
fn keys_are_whatever_the_key_value_walks_to() {
    assert_eq!(entries(&pick(&user(), &num(3.0))).len(), 0);
    assert_eq!(entries(&pick(&user(), &Value::Bool(true))).len(), 0);
    assert_eq!(entries(&omit(&user(), &num(3.0))).len(), 3);
    let by_object = pick(&user(), &obj(&[("id", Value::Null), ("phone", Value::Null)]));
    assert_eq!(entries(&by_object).len(), 1);
    assert_eq!(field_num(&by_object, "id"), Some(1.0));
    let letters = obj(&[("a", num(1.0)), ("b", num(2.0)), ("ab", num(3.0))]);
    let by_chars = omit(&letters, &s("ab"));
    assert_eq!(entries(&by_chars).len(), 1);
    assert_eq!(field_num(&by_chars, "ab"), Some(3.0));
}

#[test]
fn has_looks_up_object_keys() {
    assert!(truth(has(&user(), &s("email"))));
    assert!(!truth(has(&user(), &s("phone"))));
    assert!(!truth(has(&user(), &num(1.0))));
    assert!(!truth(has(&s("email"), &s("e"))));
    assert!(truth(has(&list(&["a", "b"]), &s("b"))));
    assert!(!truth(has(&list(&["a"]), &s("z"))));
    assert!(has(&list(&["a"]), &num(1.0)).is_none());
}

#[test]
fn contains_searches_strings() {
    assert!(truth(contains(&s("hello world"), &s("o w"))));
    assert!(!truth(contains(&s("hello"), &s("z"))));
    assert!(truth(contains(&s("hello"), &Value::Null)));
    assert!(!truth(contains(&num(5.0), &s("5"))));
    assert!(truth(contains(&Value::Array(vec![num(1.0), Value::Null]), &Value::Null)));
    assert!(!truth(contains(&Value::Array(vec![s("true")]), &Value::Bool(true))));
    assert!(truth(contains(&Value::Array(vec![Value::Bool(true)]), &Value::Bool(true))));
    assert!(contains(&list(&["a"]), &list(&["a"])).is_none());
}

#[test]
fn index_of_gives_the_byte_offset_of_the_first_occurrence() {
    assert_eq!(find_text("hello", "ll"), Some(2));
    assert_eq!(find_text("héllo", "l"), Some(3));
    assert_eq!(find_text("a→b→c", "c"), Some(8));
    assert_eq!(find_text("abcabc", "c"), Some(2));
    assert_eq!(find_text("abc", ""), Some(0));
    assert_eq!(find_text("abc", "z"), None);
    assert_eq!(find_text("", "a"), None);
}

#[test]
fn join_puts_the_separator_between_strings() {
    let words = vec![s("a"), s("b"), s("c")];
    assert_eq!(join_strings(&words, ", ").as_deref(), Some("a, b, c"));
    assert_eq!(join_strings(&words, "").as_deref(), Some("abc"));
    assert_eq!(join_strings(&[s("solo")], "-").as_deref(), Some("solo"));
    assert_eq!(join_strings(&[], "-").as_deref(), Some(""));
    assert!(join_strings(&[s("a"), num(1.0)], "-").is_none());
}

fn group_names(v: &Value, k: &str) -> Vec<String> {
    match entries(v).get(k) {
        Some(Value::Array(items)) => items
            .iter()
            .map(|x| match x {
                Value::Object(_) => field_str(x, "name").unwrap_or_default(),
                Value::Str(t) => t.clone(),
                _ => String::new(),
            })
            .collect(),
        _ => panic!("expected a group named {}", k),
    }
}

#[test]
fn group_by_gathers_items_under_their_field_text_in_order() {
    let people = Value::Array(vec![
        obj(&[("name", s("Ada")), ("team", s("core"))]),
        obj(&[("name", s("Bo")), ("team", s("web"))]),
        obj(&[("name", s("Cy")), ("team", s("core"))]),
        obj(&[("name", s("Di"))]),
    ]);
    let groups = group_by(&people, "team").unwrap().unwrap();
    assert_eq!(entries(&groups).len(), 3);
    assert_eq!(group_names(&groups, "core"), vec!["Ada", "Cy"]);
    assert_eq!(group_names(&groups, "web"), vec!["Bo"]);
    assert_eq!(group_names(&groups, ""), vec!["Di"]);
}

#[test]
fn group_by_groups_strings_by_themselves() {
    let words = Value::Array(vec![s("a"), s("b"), s("a")]);
    let groups = group_by(&words, "").unwrap().unwrap();
    assert_eq!(group_names(&groups, "a"), vec!["a", "a"]);
    assert_eq!(group_names(&groups, "b"), vec!["b"]);
}

#[test]
fn group_by_requires_an_array() {
    match group_by(&s("x"), "k") {
        Some(Err(Signal::Error(m))) => assert_eq!(m, "group_by requires an array"),
        _ => panic!("expected an error"),
    }
    assert!(group_by(&Value::Array(vec![num(1.0)]), "k").is_none());
    assert!(group_by(&Value::Array(vec![obj(&[("k", num(1.0))])]), "k").is_none());
}
