//! The builtin `schema_validate(value, schema)`: checks the fields of an
//! object against a schema of field rules and reports
//! `{ ok: bool, errors: array<string> }`. A rule is a type name, or
//! `{ type, required }` with the type defaulting to "any" and `required`
//! to true.
use vstd::prelude::*;
use crate::interpreter::builtins::str_values;
use crate::interpreter::Signal;
use crate::text::str_eq;
use crate::value::{
    assoc_get, has_key, is_first_key, kind_name_of, lemma_key_index, lemma_assoc_set_fresh, lemma_first_key_is_key_index, truthy,
    ObjectMap, Value, ValueModel,
};

verus! {

/// Whether `v` is of the type the schema names `t`; an unknown type name
/// accepts anything.
pub open spec fn type_fits(t: Seq<char>, v: ValueModel) -> bool {
    if t == "any"@ {
        true
    } else if t == "string"@ || t == "str"@ {
        v is Str
    } else if t == "number"@ || t == "num"@ || t == "float"@ || t == "int"@ {
        v is Number
    } else if t == "boolean"@ || t == "bool"@ {
        v is Bool
    } else if t == "array"@ || t == "list"@ {
        v is Array
    } else if t == "object"@ || t == "map"@ {
        v is Object
    } else if t == "null"@ {
        v is Null
    } else {
        true
    }
}

/// The type and requiredness a rule asks for, or `None` for a rule of any
/// other kind, which is skipped.
pub open spec fn rule_of(rule: ValueModel) -> Option<(Seq<char>, bool)> {
    match rule {
        ValueModel::Str(t) => Some((t, true)),
        ValueModel::Object(opts) => Some(
            (
                match assoc_get(opts, "type"@) {
                    Some(ValueModel::Str(t)) => t,
                    _ => "any"@,
                },
                match assoc_get(opts, "required"@) {
                    Some(r) => truthy(r),
                    None => true,
                },
            ),
        ),
        _ => None,
    }
}

/// The error for the field `field` of the object `obj` under a rule for
/// type `t`, if it breaks the rule.
pub open spec fn field_error(field: Seq<char>, t: Seq<char>, required: bool, obj: Seq<(Seq<char>, ValueModel)>) -> Option<
    Seq<char>,
> {
    match assoc_get(obj, field) {
        Some(v) => if v is Null {
            if required {
                Some("field '"@ + field + "' is required"@)
            } else {
                None
            }
        } else if type_fits(t, v) {
            None
        } else {
            Some("field '"@ + field + "' must be "@ + t + ", got "@ + kind_name_of(v))
        },
        None => if required {
            Some("field '"@ + field + "' is required"@)
        } else {
            None
        },
    }
}

/// The errors of `obj` under the rules of `schema`, in the order of the
/// rules.
pub open spec fn schema_errors(schema: Seq<(Seq<char>, ValueModel)>, obj: Seq<(Seq<char>, ValueModel)>) -> Seq<
    Seq<char>,
>
    decreases schema.len(),
{
    if schema.len() == 0 {
        Seq::empty()
    } else {
        let acc = schema_errors(schema.drop_last(), obj);
        let (f, rule) = schema.last();
        match rule_of(rule) {
            Some((t, req)) => match field_error(f, t, req, obj) {
                Some(e) => acc.push(e),
                None => acc,
            },
            None => acc,
        }
    }
}

/// The report for `errors`.
pub open spec fn report(errors: Seq<Seq<char>>) -> ValueModel {
    ValueModel::Object(
        seq![
            ("ok"@, ValueModel::Bool(errors.len() == 0)),
            ("errors"@, ValueModel::Array(str_values(errors))),
        ],
    )
}

/// What `schema_validate(value, schema)` gives: an error for a schema that
/// is not an object; a report with one error for a value that is not an
/// object; otherwise the report of the value's fields under the rules.
pub open spec fn schema_validate_result(value: ValueModel, schema: ValueModel) -> Result<ValueModel, Seq<char>> {
    match schema {
        ValueModel::Object(rules) => match value {
            ValueModel::Object(es) => Ok(report(schema_errors(rules, es))),
            _ => Ok(report(seq!["value must be an object"@])),
        },
        _ => Err("schema_validate(value, schema) — schema must be an object"@),
    }
}

/// What each type name of a schema accepts: "any" everything; "string" or
/// "str" strings; "number", "num", "float" or "int" numbers; "boolean" or
/// "bool" booleans; "array" or "list" arrays; "object" or "map" objects
/// (never an array); "null" null.
pub proof fn lemma_type_names(v: ValueModel)
    ensures
        type_fits("any"@, v),
        type_fits("string"@, v) <==> v is Str,
        type_fits("str"@, v) <==> v is Str,
        type_fits("number"@, v) <==> v is Number,
        type_fits("num"@, v) <==> v is Number,
        type_fits("float"@, v) <==> v is Number,
        type_fits("int"@, v) <==> v is Number,
        type_fits("boolean"@, v) <==> v is Bool,
        type_fits("bool"@, v) <==> v is Bool,
        type_fits("array"@, v) <==> v is Array,
        type_fits("list"@, v) <==> v is Array,
        type_fits("object"@, v) <==> v is Object,
        type_fits("map"@, v) <==> v is Object,
        type_fits("null"@, v) <==> v is Null,
{
    reveal_strlit("any");
    reveal_strlit("string");
    reveal_strlit("str");
    reveal_strlit("number");
    reveal_strlit("num");
    reveal_strlit("float");
    reveal_strlit("int");
    reveal_strlit("boolean");
    reveal_strlit("bool");
    reveal_strlit("array");
    reveal_strlit("list");
    reveal_strlit("object");
    reveal_strlit("map");
    reveal_strlit("null");
    assert("any"@.len() == 3 && "any"@[0] == 'a');
    assert("string"@.len() == 6 && "string"@[0] == 's');
    assert("str"@.len() == 3 && "str"@[0] == 's');
    assert("number"@.len() == 6 && "number"@[0] == 'n');
    assert("num"@.len() == 3 && "num"@[0] == 'n');
    assert("float"@.len() == 5 && "float"@[0] == 'f');
    assert("int"@.len() == 3 && "int"@[0] == 'i');
    assert("boolean"@.len() == 7 && "boolean"@[0] == 'b');
    assert("bool"@.len() == 4 && "bool"@[0] == 'b');
    assert("array"@.len() == 5 && "array"@[0] == 'a');
    assert("list"@.len() == 4 && "list"@[0] == 'l');
    assert("object"@.len() == 6 && "object"@[0] == 'o');
    assert("map"@.len() == 3 && "map"@[0] == 'm');
    assert("null"@.len() == 4 && "null"@[0] == 'n');
}

/// A schema whose one rule asks the field `f` to be an object (type
/// "object" or "map") accepts a value whose field `f` is an object, and
/// for any other non-null field reports that the field must be of that
/// type, naming the kind it has.
pub proof fn lemma_object_rule(f: Seq<char>, v: ValueModel, t: Seq<char>)
    requires
        t == "object"@ || t == "map"@,
        !(v is Null),
    ensures
        schema_validate_result(
            ValueModel::Object(seq![(f, v)]),
            ValueModel::Object(seq![(f, ValueModel::Str(t))]),
        ) == Ok::<ValueModel, Seq<char>>(
            report(
                if v is Object {
                    Seq::<Seq<char>>::empty()
                } else {
                    seq!["field '"@ + f + "' must be "@ + t + ", got "@ + kind_name_of(v)]
                },
            ),
        ),
{
    lemma_type_names(v);
    let obj = seq![(f, v)];
    let rules = seq![(f, ValueModel::Str(t))];
    assert(is_first_key(obj, f, 0));
    lemma_first_key_is_key_index(obj, f, 0);
    assert(assoc_get(obj, f) == Some(v));
    assert(rules.drop_last() =~= Seq::<(Seq<char>, ValueModel)>::empty());
    assert(schema_errors(rules.drop_last(), obj) =~= Seq::<Seq<char>>::empty());
    if v is Object {
        assert(schema_errors(rules, obj) =~= Seq::<Seq<char>>::empty());
    } else {
        assert(schema_errors(rules, obj) =~= seq!["field '"@ + f + "' must be "@ + t + ", got "@ + kind_name_of(v)]);
    }
}

/// A field the value lacks is reported as required, whether its rule is a
/// plain type name or a rule object that leaves `required` unset (which
/// also leaves the type "any", so any present value passes); a rule object
/// with `required: false` lets it be absent.
pub proof fn lemma_missing_fields(f: Seq<char>, t: Seq<char>, v: ValueModel)
    requires
        !(v is Null),
    ensures
        schema_validate_result(
            ValueModel::Object(Seq::empty()),
            ValueModel::Object(seq![(f, ValueModel::Str(t))]),
        ) == Ok::<ValueModel, Seq<char>>(report(seq!["field '"@ + f + "' is required"@])),
        schema_validate_result(
            ValueModel::Object(Seq::empty()),
            ValueModel::Object(seq![(f, ValueModel::Object(Seq::empty()))]),
        ) == Ok::<ValueModel, Seq<char>>(report(seq!["field '"@ + f + "' is required"@])),
        schema_validate_result(
            ValueModel::Object(seq![(f, v)]),
            ValueModel::Object(seq![(f, ValueModel::Object(Seq::empty()))]),
        ) == Ok::<ValueModel, Seq<char>>(report(Seq::empty())),
        schema_validate_result(
            ValueModel::Object(Seq::empty()),
            ValueModel::Object(seq![(f, ValueModel::Object(seq![("required"@, ValueModel::Bool(false))]))]),
        ) == Ok::<ValueModel, Seq<char>>(report(Seq::empty())),
{
    reveal_strlit("type");
    reveal_strlit("required");
    reveal_strlit("any");
    let none = Seq::<(Seq<char>, ValueModel)>::empty();
    lemma_key_index(none, f);
    lemma_key_index(none, "type"@);
    lemma_key_index(none, "required"@);
    let obj = seq![(f, v)];
    assert(is_first_key(obj, f, 0));
    lemma_first_key_is_key_index(obj, f, 0);
    let opts = seq![("required"@, ValueModel::Bool(false))];
    assert(is_first_key(opts, "required"@, 0));
    lemma_first_key_is_key_index(opts, "required"@, 0);
    assert("required"@ != "type"@) by {
        assert("required"@.len() != "type"@.len());
    }
    lemma_key_index(opts, "type"@);
    assert(!has_key(opts, "type"@)) by {
        if has_key(opts, "type"@) {
            assert(opts[0].0 != "type"@);
        }
    }
    lemma_type_names(v);
    let r1 = seq![(f, ValueModel::Str(t))];
    let r2 = seq![(f, ValueModel::Object(none))];
    let r3 = seq![(f, ValueModel::Object(opts))];
    assert(r1.drop_last() =~= none);
    assert(r2.drop_last() =~= none);
    assert(r3.drop_last() =~= none);
    assert(schema_errors(none, none) =~= Seq::<Seq<char>>::empty());
    assert(schema_errors(none, obj) =~= Seq::<Seq<char>>::empty());
    assert(assoc_get(none, f) is None);
    assert(rule_of(ValueModel::Str(t)) == Some((t, true)));
    assert(field_error(f, t, true, none) == Some("field '"@ + f + "' is required"@));
    assert(schema_errors(r1, none) =~= seq!["field '"@ + f + "' is required"@]);
    assert(schema_errors(r2, none) =~= seq!["field '"@ + f + "' is required"@]);
    assert(rule_of(ValueModel::Object(none)) == Some(("any"@, true)));
    assert(field_error(f, "any"@, true, obj) is None);
    assert(schema_errors(r2, obj) =~= Seq::<Seq<char>>::empty());
    assert(schema_errors(r3, none) =~= Seq::<Seq<char>>::empty());
}

fn type_fits_exec(t: &str, v: &Value) -> (r: bool)
    ensures
        r == type_fits(t@, v.model()),
{
    if str_eq(t, "any") {
        true
    } else if str_eq(t, "string") || str_eq(t, "str") {
        matches!(v, Value::Str(_))
    } else if str_eq(t, "number") || str_eq(t, "num") || str_eq(t, "float") || str_eq(t, "int") {
        matches!(v, Value::Number(_))
    } else if str_eq(t, "boolean") || str_eq(t, "bool") {
        matches!(v, Value::Bool(_))
    } else if str_eq(t, "array") || str_eq(t, "list") {
        matches!(v, Value::Array(_))
    } else if str_eq(t, "object") || str_eq(t, "map") {
        matches!(v, Value::Object(_))
    } else if str_eq(t, "null") {
        matches!(v, Value::Null)
    } else {
        true
    }
}

fn rule_of_exec(rule: &Value) -> (r: Option<(String, bool)>)
    ensures
        match rule_of(rule.model()) {
            Some((t, req)) => r matches Some((x, q)) && x@ == t && q == req,
            None => r is None,
        },
{
    match rule {
        Value::Str(t) => Some((String::from_str(t.as_str()), true)),
        Value::Object(opts) => {
            let t = match opts.get("type") {
                Some(Value::Str(t)) => String::from_str(t.as_str()),
                _ => String::from_str("any"),
            };
            let req = match opts.get("required") {
                Some(r) => r.is_truthy(),
                None => true,
            };
            Some((t, req))
        },
        _ => None,
    }
}

fn field_error_exec(field: &str, t: &str, required: bool, obj: &ObjectMap) -> (r: Option<String>)
    ensures
        match field_error(field@, t@, required, obj.model()) {
            Some(e) => r matches Some(x) && x@ == e,
            None => r is None,
        },
{
    let missing = match obj.get(field) {
        Some(v) => {
            if matches!(v, Value::Null) {
                true
            } else if type_fits_exec(t, v) {
                return None;
            } else {
                let mut m = String::from_str("field '");
                m.append(field);
                m.append("' must be ");
                m.append(t);
                m.append(", got ");
                m.append(v.kind_name());
                return Some(m);
            }
        },
        None => true,
    };
    if missing && required {
        let mut m = String::from_str("field '");
        m.append(field);
        m.append("' is required");
        Some(m)
    } else {
        None
    }
}

/// The report for `errors`, as a value.
fn report_value(errors: Vec<String>) -> (r: Value)
    ensures
        r.model() == report(errors@.map_values(|e: String| e@)),
{
    let ghost ev = errors@.map_values(|e: String| e@);
    let ok = errors.len() == 0;
    let mut items: Vec<Value> = Vec::new();
    let mut i: usize = 0;
    while i < errors.len()
        invariant
            i <= errors@.len(),
            ev == errors@.map_values(|e: String| e@),
            crate::interpreter::values_model(items@) == str_values(ev.take(i as int)),
        decreases errors@.len() - i,
    {
        let ghost before = items@;
        items.push(Value::Str(String::from_str(errors[i].as_str())));
        assert(crate::interpreter::values_model(items@) =~= crate::interpreter::values_model(before).push(
            ValueModel::Str(ev[i as int]),
        ));
        assert(str_values(ev.take(i + 1)) =~= str_values(ev.take(i as int)).push(ValueModel::Str(ev[i as int])));
        i = i + 1;
    }
    assert(ev.take(errors@.len() as int) =~= ev);
    let list = Value::Array(items);
    assert(list.model()->Array_0 =~= crate::interpreter::values_model(items@));
    let ghost lm = list.model();
    let mut out = ObjectMap::new();
    out.insert(String::from_str("ok"), Value::Bool(ok));
    let ghost m1 = out.model();
    out.insert(String::from_str("errors"), list);
    proof {
        reveal_strlit("ok");
        reveal_strlit("errors");
        lemma_assoc_set_fresh(Seq::empty(), "ok"@, ValueModel::Bool(ok));
        assert(m1 =~= seq![("ok"@, ValueModel::Bool(ok))]);
        assert("ok"@ != "errors"@) by {
            assert("ok"@.len() != "errors"@.len());
        }
        assert(m1[0].0 != "errors"@);
        lemma_assoc_set_fresh(m1, "errors"@, lm);
        assert(out.model() =~= seq![("ok"@, ValueModel::Bool(ok)), ("errors"@, lm)]);
    }
    Value::Object(out)
}

/// The builtin `schema_validate(value, schema)`.
pub fn schema_validate(value: &Value, schema: &Value) -> (r: Result<Value, Signal>)
    ensures
        match schema_validate_result(value.model(), schema.model()) {
            Ok(m) => r matches Ok(v) && v.model() == m,
            Err(e) => r matches Err(Signal::Error(t)) && t@ == e,
        },
{
    let rules = match schema {
        Value::Object(m) => m,
        _ => {
            return Err(
                Signal::Error(String::from_str("schema_validate(value, schema) — schema must be an object")),
            );
        },
    };
    let obj = match value {
        Value::Object(m) => m,
        _ => {
            let mut errors: Vec<String> = Vec::new();
            errors.push(String::from_str("value must be an object"));
            assert(errors@.map_values(|e: String| e@) =~= seq!["value must be an object"@]);
            return Ok(report_value(errors));
        },
    };
    let ghost rs = rules.model();
    let ghost os = obj.model();
    let mut errors: Vec<String> = Vec::new();
    let mut i: usize = 0;
    assert(rs.take(0) =~= Seq::<(Seq<char>, ValueModel)>::empty());
    while i < rules.len()
        invariant
            i <= rs.len(),
            rs == rules.model(),
            os == obj.model(),
            errors@.map_values(|e: String| e@) == schema_errors(rs.take(i as int), os),
        decreases rs.len() - i,
    {
        let (f, rule) = rules.entry(i);
        assert(rs.take(i + 1).drop_last() =~= rs.take(i as int));
        assert(rs.take(i + 1).last() == rs[i as int]);
        match rule_of_exec(rule) {
            Some((t, req)) => match field_error_exec(f.as_str(), t.as_str(), req, obj) {
                Some(e) => {
                    let ghost before = errors@;
                    errors.push(e);
                    assert(errors@.map_values(|e: String| e@) =~= before.map_values(|e: String| e@).push(e@));
                },
                None => {},
            },
            None => {},
        }
        i = i + 1;
    }
    assert(rs.take(rs.len() as int) =~= rs);
    Ok(report_value(errors))
}

} // verus!
