use gx::interpreter::schema::schema_validate;
use gx::interpreter::Signal;
use gx::value::{ObjectMap, Value};

fn s(x: &str) -> Value {
    Value::Str(x.to_string())
}

fn num(n: f64) -> Value {
    Value::Number(n.to_bits())
}

fn obj(pairs: &[(&str, Value)]) -> Value {
    let mut m = ObjectMap::new();
    for (k, v) in pairs {
        m.insert(k.to_string(), v.clone());
    }
    Value::Object(m)
}

/// The report's `ok` and its errors.
fn report(r: Result<Value, Signal>) -> (bool, Vec<String>) {
    match r {
        Ok(Value::Object(m)) => {
            let ok = matches!(m.get("ok"), Some(Value::Bool(true)));
            let errors = match m.get("errors") {
                Some(Value::Array(items)) => items
                    .iter()
                    .map(|e| match e {
                        Value::Str(t) => t.clone(),
                        _ => panic!("an error is text"),
                    })
                    .collect(),
                _ => panic!("expected an errors array"),
            };
            (ok, errors)
        }
        _ => panic!("expected a report"),
    }
}

#[test]
fn test_schema_validate() {
    let spec = obj(&[("name", s("string")), ("age", s("number")), ("active", s("boolean"))]);
    let good = obj(&[("name", s("Alice")), ("age", num(30.0)), ("active", Value::Bool(true))]);
    let (ok, errors) = report(schema_validate(&good, &spec));
    assert!(ok, "valid passes");
    assert_eq!(errors.len(), 0, "no errors");

    let bad = obj(&[("name", s("Bob")), ("age", s("thirty"))]);
    let (ok, errors) = report(schema_validate(&bad, &spec));
    assert!(!ok, "invalid fails");
    assert!(errors.len() > 0, "has errors");
}

#[test]
fn schema_errors_name_the_field_the_type_and_what_was_found() {
    let spec = obj(&[("name", s("string")), ("age", s("number")), ("active", s("boolean"))]);
    let bad = obj(&[("name", s("Bob")), ("age", s("thirty")), ("active", Value::Null)]);
    let (ok, errors) = report(schema_validate(&bad, &spec));
    assert!(!ok);
    assert_eq!(
        errors,
        vec!["field 'age' must be number, got string".to_string(), "field 'active' is required".to_string()]
    );
}

#[test]
fn rule_objects_default_to_any_and_required() {
    let spec = obj(&[
        ("id", obj(&[])),
        ("nick", obj(&[("type", s("string")), ("required", Value::Bool(false))])),
        ("tags", obj(&[("type", s("list"))])),
        ("skipped", num(1.0)),
    ]);
    let (ok, errors) = report(schema_validate(&obj(&[("tags", obj(&[]))]), &spec));
    assert!(!ok);
    assert_eq!(
        errors,
        vec!["field 'id' is required".to_string(), "field 'tags' must be list, got object".to_string()]
    );
    let fine = obj(&[("id", num(7.0)), ("tags", Value::Array(vec![]))]);
    assert_eq!(report(schema_validate(&fine, &spec)), (true, vec![]));
}

#[test]
fn unknown_type_names_accept_anything() {
    let spec = obj(&[("x", s("whatever"))]);
    assert_eq!(report(schema_validate(&obj(&[("x", num(1.0))]), &spec)), (true, vec![]));
}

#[test]
fn a_value_that_is_not_an_object_fails_with_one_error() {
    let spec = obj(&[("x", s("string"))]);
    assert_eq!(
        report(schema_validate(&s("text"), &spec)),
        (false, vec!["value must be an object".to_string()])
    );
}

#[test]
fn a_schema_that_is_not_an_object_is_an_error() {
    match schema_validate(&obj(&[]), &s("string")) {
        Err(Signal::Error(m)) => assert_eq!(m, "schema_validate(value, schema) — schema must be an object"),
        _ => panic!("expected an error"),
    }
}
