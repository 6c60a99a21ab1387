use gx::interpreter::builtins::{
    chr, eval_value_builtin, eval_value_method, ord, format_template, truncate_text, url_parse,
};
use gx::interpreter::Signal;
use gx::value::{ObjectMap, Value};

fn s(x: &str) -> Value {
    Value::Str(x.to_string())
}

fn num(n: f64) -> Value {
    Value::Number(n.to_bits())
}

fn arr(items: Vec<Value>) -> Value {
    Value::Array(items)
}

fn obj(pairs: &[(&str, Value)]) -> Value {
    let mut m = ObjectMap::new();
    for (k, v) in pairs {
        m.insert(k.to_string(), v.clone());
    }
    Value::Object(m)
}

/// A compact rendering for comparisons: strings quoted, objects in entry
/// order.
fn show(v: &Value) -> String {
    match v {
        Value::Null => "null".to_string(),
        Value::Bool(b) => b.to_string(),
        Value::Number(bits) => f64::from_bits(*bits).to_string(),
        Value::Str(t) => format!("{:?}", t),
        Value::Array(items) => {
            let parts: Vec<String> = items.iter().map(show).collect();
            format!("[{}]", parts.join(","))
        }
        Value::Object(m) => {
            let mut parts = Vec::new();
            for i in 0..m.len() {
                let (k, v) = m.entry(i);
                parts.push(format!("{}:{}", k, show(v)));
            }
            format!("{{{}}}", parts.join(","))
        }
    }
}

fn call(name: &str, args: Vec<Value>) -> String {
    match eval_value_builtin(name, &args) {
        Some(Ok(v)) => show(&v),
        Some(Err(Signal::Error(e))) => format!("error: {}", e),
        Some(Err(_)) => "other signal".to_string(),
        None => "not a value builtin".to_string(),
    }
}

#[test]
fn type_tests_look_at_the_first_argument() {
    assert_eq!(call("is_null", vec![]), "true");
    assert_eq!(call("is_null", vec![Value::Null]), "true");
    assert_eq!(call("is_null", vec![num(0.0)]), "false");
    assert_eq!(call("is_number", vec![num(1.5)]), "true");
    assert_eq!(call("is_string", vec![s("x")]), "true");
    assert_eq!(call("is_string", vec![]), "false");
    assert_eq!(call("is_array", vec![arr(vec![])]), "true");
    assert_eq!(call("is_object", vec![obj(&[])]), "true");
    assert_eq!(call("is_bool", vec![Value::Bool(false)]), "true");
    assert_eq!(call("is_bool", vec![s("true")]), "false");
}

#[test]
fn unknown_names_are_left_to_the_caller() {
    assert_eq!(call("http_get", vec![s("x")]), "not a value builtin");
    assert_eq!(call("len", vec![s("abc")]), "not a value builtin");
}

#[test]
fn trimming_and_case() {
    assert_eq!(call("trim", vec![s("  a b \t\n")]), "\"a b\"");
    assert_eq!(call("trim_start", vec![s("  a ")]), "\"a \"");
    assert_eq!(call("ltrim", vec![s("\u{3000}a")]), "\"a\"");
    assert_eq!(call("rtrim", vec![s(" a  ")]), "\" a\"");
    assert_eq!(call("trim", vec![num(3.0)]), "\"\"");
    assert_eq!(call("upper", vec![s("straße")]), "\"STRASSE\"");
    assert_eq!(call("to_lower", vec![s("ÀB")]), "\"àb\"");
    assert_eq!(call("uppercase", vec![]), "\"\"");
}

#[test]
fn prefixes_and_suffixes() {
    assert_eq!(call("starts_with", vec![s("hello"), s("he")]), "true");
    assert_eq!(call("starts_with", vec![s("hello"), s("lo")]), "false");
    assert_eq!(call("starts_with", vec![s("hello")]), "true");
    assert_eq!(call("ends_with", vec![s("hello"), s("lo")]), "true");
    assert_eq!(call("ends_with", vec![s("lo"), s("hello")]), "false");
    assert_eq!(call("strip_prefix", vec![s("v1.2"), s("v")]), "\"1.2\"");
    assert_eq!(call("remove_prefix", vec![s("1.2"), s("v")]), "\"1.2\"");
    assert_eq!(call("strip_suffix", vec![s("a.gx"), s(".gx")]), "\"a\"");
    assert_eq!(call("remove_suffix", vec![s("a.gx"), s(".rs")]), "\"a.gx\"");
}

#[test]
fn replace_works_like_str_replace() {
    assert_eq!(call("replace", vec![s("a-b-c"), s("-"), s("+")]), "\"a+b+c\"");
    assert_eq!(call("replace", vec![s("aaa"), s("aa"), s("b")]), "\"ba\"");
    assert_eq!(call("replace", vec![s("abc"), s(""), s("-")]), "\"-a-b-c-\"");
    assert_eq!(call("replace", vec![s(""), s(""), s("x")]), "\"x\"");
    assert_eq!(call("replace", vec![s("abc"), s("b")]), "\"ac\"");
}

#[test]
fn split_works_like_str_split() {
    assert_eq!(call("split", vec![s("a,b,,c"), s(",")]), "[\"a\",\"b\",\"\",\"c\"]");
    assert_eq!(call("split", vec![s("a b")]), "[\"a\",\"b\"]");
    assert_eq!(call("split", vec![s("a b"), num(1.0)]), "[\"a\",\"b\"]");
    assert_eq!(call("split", vec![s(""), s(",")]), "[\"\"]");
    assert_eq!(call("split", vec![s("ab"), s("")]), "[\"\",\"a\",\"b\",\"\"]");
    assert_eq!(call("split", vec![s(""), s("")]), "[\"\",\"\"]");
    assert_eq!(call("split", vec![s("a::b::"), s("::")]), "[\"a\",\"b\",\"\"]");
}

#[test]
fn character_tests_look_at_the_first_character() {
    assert_eq!(call("is_digit", vec![s("7a")]), "true");
    assert_eq!(call("is_digit", vec![s("٣")]), "false");
    assert_eq!(call("is_alpha", vec![s("Zz")]), "true");
    assert_eq!(call("is_alpha", vec![s("é")]), "false");
    assert_eq!(call("is_alnum", vec![s("_")]), "false");
    assert_eq!(call("is_alnum", vec![s("9")]), "true");
    assert_eq!(call("is_whitespace", vec![s("\u{a0}")]), "true");
    assert_eq!(call("is_whitespace", vec![s("")]), "false");
}

#[test]
fn encodings() {
    assert_eq!(call("url_encode", vec![s("a b&c~")]), "\"a%20b%26c~\"");
    assert_eq!(call("url_encode", vec![s("\n")]), "\"%0A\"");
    assert_eq!(call("url_encode", vec![s("é€")]), "\"é%20AC\"");
    assert_eq!(
        call("html_escape", vec![s("<a href=\"x\">Tom & 'Jerry'</a>")]),
        "\"&lt;a href=&quot;x&quot;&gt;Tom &amp; &#39;Jerry&#39;&lt;/a&gt;\""
    );
    assert_eq!(call("html_unescape", vec![s("&lt;b&gt; &amp;amp; &#39;")]), "\"<b> &amp; '\"");
    assert_eq!(call("html_unescape", vec![s("&nbsp;")]), "\"&nbsp;\"");
}

#[test]
fn collections() {
    let o = obj(&[("a", num(1.0)), ("b", s("x"))]);
    assert_eq!(call("values", vec![o.clone()]), "[1,\"x\"]");
    assert_eq!(call("entries", vec![o.clone()]), "[[\"a\",1],[\"b\",\"x\"]]");
    assert_eq!(call("values", vec![s("ab")]), "[]");
    assert_eq!(
        call("zip", vec![arr(vec![num(1.0), num(2.0), num(3.0)]), arr(vec![s("a"), s("b")])]),
        "[[1,\"a\"],[2,\"b\"]]"
    );
    assert_eq!(call("zip", vec![arr(vec![num(1.0)]), s("a")]), "[]");
    assert_eq!(
        call("flatten", vec![arr(vec![arr(vec![num(1.0), arr(vec![num(2.0)])]), num(3.0)])]),
        "[1,[2],3]"
    );
    assert_eq!(call("flat", vec![Value::Null]), "[]");
}

#[test]
fn array_edits_return_new_arrays() {
    let a = arr(vec![num(1.0), num(2.0)]);
    assert_eq!(call("push", vec![a.clone(), num(3.0)]), "[1,2,3]");
    assert_eq!(call("push", vec![a.clone()]), "[1,2]");
    assert_eq!(call("push", vec![s("x"), num(1.0)]), "error: push() requires an array as first argument");
    assert_eq!(call("pop", vec![a.clone()]), "[1]");
    assert_eq!(call("pop", vec![arr(vec![])]), "[]");
    assert_eq!(call("pop", vec![s("x")]), "[]");
    assert_eq!(call("first", vec![a.clone()]), "1");
    assert_eq!(call("last", vec![a.clone()]), "2");
    assert_eq!(call("first", vec![arr(vec![])]), "null");
    assert_eq!(call("last", vec![s("x")]), "\"x\"");
    assert_eq!(call("first", vec![]), "null");
    assert_eq!(call("is_empty", vec![s("")]), "true");
    assert_eq!(call("is_empty", vec![arr(vec![Value::Null])]), "false");
    assert_eq!(call("is_empty", vec![obj(&[])]), "true");
    assert_eq!(call("is_empty", vec![Value::Null]), "true");
    assert_eq!(call("is_empty", vec![num(0.0)]), "false");
}

#[test]
fn object_edits_return_new_objects() {
    let o = obj(&[("a", num(1.0)), ("b", num(2.0))]);
    assert_eq!(call("set_key", vec![o.clone(), s("b"), s("z")]), "{a:1,b:\"z\"}");
    assert_eq!(call("set_field", vec![o.clone(), s("c")]), "{a:1,b:2,c:null}");
    assert_eq!(call("set_key", vec![arr(vec![]), s("a"), num(1.0)]), "error: set_key requires an object as first argument");
    assert_eq!(call("delete_key", vec![o.clone(), s("a")]), "{b:2}");
    assert_eq!(call("remove_key", vec![o.clone(), s("zz")]), "{a:1,b:2}");
    assert_eq!(call("delete_key", vec![s("a")]), "error: delete_key requires an object as first argument");
    assert_eq!(
        call("merge", vec![o.clone(), s("ignored"), obj(&[("b", num(3.0)), ("c", num(4.0))])]),
        "{a:1,b:3,c:4}"
    );
    assert_eq!(call("merge", vec![]), "{}");
}

#[test]
fn unwrap_raises_the_error_of_an_ok_false_value() {
    let failed = obj(&[("ok", Value::Bool(false)), ("error", s("timed out")), ("error_kind", s("NetworkError"))]);
    assert_eq!(call("unwrap", vec![failed]), "error: timed out (NetworkError)");
    let bare = obj(&[("ok", Value::Bool(false))]);
    assert_eq!(call("unwrap", vec![bare]), "error: operation failed");
    let fine = obj(&[("ok", Value::Bool(true)), ("data", num(1.0))]);
    assert_eq!(call("unwrap", vec![fine]), "{ok:true,data:1}");
    assert_eq!(call("unwrap", vec![s("x")]), "\"x\"");
    assert_eq!(call("unwrap", vec![]), "null");
}

fn method(recv: Value, name: &str, args: Vec<Value>) -> String {
    match eval_value_method(&recv, name, &args) {
        Some(v) => show(&v),
        None => "not a value method".to_string(),
    }
}

#[test]
fn array_methods() {
    let a = arr(vec![num(1.0), num(2.0)]);
    assert_eq!(method(a.clone(), "push", vec![num(3.0), num(4.0)]), "[1,2,3,4]");
    assert_eq!(method(a.clone(), "append", vec![]), "[1,2]");
    assert_eq!(method(a.clone(), "pop", vec![]), "2");
    assert_eq!(method(arr(vec![]), "pop", vec![]), "null");
    assert_eq!(method(a.clone(), "shift", vec![]), "1");
    assert_eq!(method(a.clone(), "unshift", vec![num(0.0), num(9.0)]), "[0,1,2]");
    assert_eq!(method(a.clone(), "first", vec![]), "1");
    assert_eq!(method(a.clone(), "last", vec![]), "2");
    assert_eq!(method(a.clone(), "reverse", vec![]), "[2,1]");
    assert_eq!(
        method(a.clone(), "concat", vec![arr(vec![num(3.0)]), s("x")]),
        "[1,2,3,\"x\"]"
    );
    assert_eq!(method(arr(vec![arr(vec![num(1.0)]), num(2.0)]), "flat", vec![]), "[1,2]");
    assert_eq!(method(a.clone(), "sort", vec![]), "not a value method");
    assert_eq!(method(a, "len", vec![]), "not a value method");
}

#[test]
fn string_methods() {
    assert_eq!(method(s("Hi"), "upper", vec![]), "\"HI\"");
    assert_eq!(method(s("Hi"), "to_lower", vec![]), "\"hi\"");
    assert_eq!(method(s(" x "), "trim", vec![]), "\"x\"");
    assert_eq!(method(s("a-b"), "split", vec![s("-")]), "[\"a\",\"b\"]");
    assert_eq!(method(s("a b"), "split", vec![]), "[\"a\",\"b\"]");
    assert_eq!(method(s("one\r\ntwo\n"), "lines", vec![]), "[\"one\",\"two\"]");
    assert_eq!(method(s("a\n\nb"), "split_lines", vec![]), "[\"a\",\"\",\"b\"]");
    assert_eq!(method(s("hello"), "contains", vec![s("ell")]), "true");
    assert_eq!(method(s("hello"), "includes", vec![]), "true");
    assert_eq!(method(s("hello"), "contains", vec![s("xyz")]), "false");
    assert_eq!(method(s("hello"), "starts_with", vec![s("he")]), "true");
    assert_eq!(method(s("hello"), "ends_with", vec![s("he")]), "false");
    assert_eq!(method(s("a.b.c"), "replace", vec![s("."), s("/")]), "\"a/b/c\"");
    assert_eq!(method(s("a.b.c"), "replace_first", vec![s("."), s("/")]), "\"a/b.c\"");
    assert_eq!(method(s("abc"), "replace_first", vec![s(""), s("-")]), "\"-abc\"");
    assert_eq!(method(s("abc"), "replace_first", vec![s("z"), s("-")]), "\"abc\"");
    assert_eq!(method(s("abc"), "reverse", vec![]), "\"cba\"");
    assert_eq!(method(s("ab"), "to_array", vec![]), "[\"a\",\"b\"]");
    assert_eq!(method(s(""), "is_empty", vec![]), "true");
    assert_eq!(method(s("ßig"), "to_upper_first", vec![]), "\"SSig\"");
    assert_eq!(method(s(""), "to_upper_first", vec![]), "\"\"");
    assert_eq!(method(s("abc"), "len", vec![]), "not a value method");
}

#[test]
fn object_methods() {
    let o = obj(&[("a", num(1.0)), ("b", s("x"))]);
    assert_eq!(method(o.clone(), "has", vec![s("a")]), "true");
    assert_eq!(method(o.clone(), "has_key", vec![s("z")]), "false");
    assert_eq!(method(o.clone(), "values", vec![]), "[1,\"x\"]");
    assert_eq!(method(o.clone(), "entries", vec![]), "[[\"a\",1],[\"b\",\"x\"]]");
    assert_eq!(method(o.clone(), "get", vec![s("b")]), "\"x\"");
    assert_eq!(method(o.clone(), "get", vec![s("z"), num(7.0)]), "7");
    assert_eq!(method(o.clone(), "get", vec![s("z")]), "null");
    assert_eq!(method(o.clone(), "merge", vec![obj(&[("b", num(2.0)), ("c", num(3.0))])]), "{a:1,b:2,c:3}");
    assert_eq!(method(o.clone(), "merge", vec![s("nope")]), "{a:1,b:\"x\"}");
    assert_eq!(method(o.clone(), "delete", vec![s("a")]), "{b:\"x\"}");
    assert_eq!(method(o.clone(), "remove", vec![s("q")]), "{a:1,b:\"x\"}");
    assert_eq!(method(obj(&[]), "is_empty", vec![]), "true");
    assert_eq!(method(o, "keys", vec![]), "[\"a\",\"b\"]");
    assert_eq!(method(num(1.0), "floor", vec![]), "not a value method");
}

#[test]
fn set_key_then_get_reads_back_and_delete_key_then_has_is_false() {
    let o = obj(&[("a", num(1.0))]);
    let updated = eval_value_builtin("set_key", &[o, s("b"), s("v")]).unwrap().ok().unwrap();
    assert_eq!(method(updated.clone(), "get", vec![s("b")]), "\"v\"");
    assert_eq!(method(updated.clone(), "get", vec![s("a")]), "1");
    let removed = eval_value_builtin("delete_key", &[updated, s("b")]).unwrap().ok().unwrap();
    assert_eq!(method(removed, "has", vec![s("b")]), "false");
}

#[test]
fn url_parse_splits_a_url_into_its_parts() {
    assert_eq!(
        show(&url_parse("https://user@example.com:8443/a/b?x=1&y=2#top")),
        "{scheme:\"https\",host:\"user@example.com\",port:\"8443\",path:\"/a/b\",query:\"x=1&y=2\",fragment:\"top\"}"
    );
    assert_eq!(
        show(&url_parse("example.com")),
        "{scheme:\"\",host:\"example.com\",port:null,path:\"\",query:\"\",fragment:\"\"}"
    );
    assert_eq!(
        show(&url_parse("http://[::1]:80/x")),
        "{scheme:\"http\",host:\"[::1]\",port:\"80\",path:\"/x\",query:\"\",fragment:\"\"}"
    );
    assert_eq!(
        show(&url_parse("/p?q#f?g")),
        "{scheme:\"\",host:\"\",port:null,path:\"/p\",query:\"q\",fragment:\"f?g\"}"
    );
}

#[test]
fn truncate_clips_to_max_characters_including_the_ellipsis() {
    assert_eq!(truncate_text("hello", 10, "…"), "hello");
    assert_eq!(truncate_text("hello", 5, "…"), "hello");
    assert_eq!(truncate_text("hello world", 5, "…"), "hell…");
    assert_eq!(truncate_text("hello world", 5, "..."), "he...");
    assert_eq!(truncate_text("hello world", 2, "..."), "...");
    assert_eq!(truncate_text("hello", 0, "…"), "");
    assert_eq!(truncate_text("héllo wörld", 4, ""), "héll");
}

#[test]
fn format_replaces_numbered_placeholders_in_turn() {
    let args = vec!["Ann".to_string(), "42".to_string()];
    assert_eq!(format_template("Hello {0}, you are {1}", &args), "Hello Ann, you are 42");
    assert_eq!(format_template("{1}{1}{0}{2}", &args), "4242Ann{2}");
    assert_eq!(format_template("{0}", &["{1}".to_string(), "x".to_string()]), "x");
    assert_eq!(format_template("plain", &[]), "plain");
}

#[test]
fn regex_match_compiles_the_pattern_and_searches_the_text() {
    assert_eq!(call("regex_match", vec![s(r"^\d{3}-\d{4}$"), s("555-1234")]), "true");
    assert_eq!(call("regex_match", vec![s(r"\bcat\b"), s("concatenate")]), "false");
    assert_eq!(call("regex_match", vec![s("a+"), s("xxaay")]), "true");
    assert_eq!(call("regex_match", vec![num(1.0), s("x")]), "error: regex_match: expected pattern string");
    assert_eq!(call("regex_match", vec![s("x")]), "error: regex_match: expected text string");
    let bad = call("regex_match", vec![s("foo(bar"), s("foo(bar")]);
    assert!(bad.starts_with("error: regex_match: invalid pattern: "), "{}", bad);
    assert!(bad.contains("unclosed group"), "{}", bad);
}

#[test]
fn unwrap_passes_through_an_ok_true_result_unchanged() {
    let r = eval_value_builtin("unwrap", &[obj(&[("ok", Value::Bool(true)), ("value", num(42.0))])]);
    assert_eq!(show(&r.unwrap().ok().unwrap()), "{ok:true,value:42}");
}

#[test]
fn unwrap_passes_through_a_plain_value_with_no_ok_field_unchanged() {
    assert_eq!(call("unwrap", vec![num(42.0)]), "42");
    assert_eq!(call("unwrap", vec![s("hello")]), "\"hello\"");
    assert_eq!(call("unwrap", vec![arr(vec![num(1.0), num(2.0), num(3.0)])]), "[1,2,3]");
}

#[test]
fn unwrap_raises_a_catchable_error_from_an_ok_false_result() {
    let failed = obj(&[
        ("ok", Value::Bool(false)),
        ("error", s("connection refused")),
        ("error_kind", s("timeout")),
    ]);
    match eval_value_builtin("unwrap", &[failed]) {
        Some(Err(Signal::Error(message))) => {
            assert!(message.contains("connection refused"));
            assert!(message.contains("timeout"));
        }
        _ => panic!("unwrap must throw on ok:false, not return it"),
    }
}

#[test]
fn unwrap_falls_back_to_a_generic_message_when_error_field_is_missing() {
    match eval_value_builtin("unwrap", &[obj(&[("ok", Value::Bool(false))])]) {
        Some(Err(Signal::Error(message))) => assert!(!message.is_empty()),
        _ => panic!("unwrap must throw on ok:false"),
    }
}

#[test]
fn test_standalone_merge() {
    let m = eval_value_builtin(
        "merge",
        &[obj(&[("a", num(1.0)), ("b", num(2.0))]), obj(&[("b", num(99.0)), ("c", num(3.0))])],
    );
    assert_eq!(show(&m.unwrap().ok().unwrap()), "{a:1,b:99,c:3}");
}

#[test]
fn keys_come_back_sorted_as_strings() {
    let o = obj(&[("zeta", num(1.0)), ("Alpha", num(2.0)), ("beta", num(3.0)), ("a", num(4.0)), ("ab", num(5.0))]);
    assert_eq!(call("keys", vec![o.clone()]), "[\"Alpha\",\"a\",\"ab\",\"beta\",\"zeta\"]");
    assert_eq!(method(o, "keys", vec![]), "[\"Alpha\",\"a\",\"ab\",\"beta\",\"zeta\"]");
    let u = obj(&[("é", num(1.0)), ("z", num(2.0)), ("Ω", num(3.0))]);
    assert_eq!(call("keys", vec![u]), "[\"z\",\"é\",\"Ω\"]");
    assert_eq!(call("keys", vec![obj(&[])]), "[]");
    assert_eq!(call("keys", vec![s("not an object")]), "[]");
}

#[test]
fn the_sort_method_orders_an_array_of_strings_by_text() {
    let words = arr(vec![s("pear"), s("apple"), s("Zebra"), s("apple")]);
    assert_eq!(method(words, "sort", vec![]), "[\"Zebra\",\"apple\",\"apple\",\"pear\"]");
    assert_eq!(method(arr(vec![]), "sort", vec![]), "[]");
    assert_eq!(method(arr(vec![num(2.0), num(1.0)]), "sort", vec![]), "not a value method");
}

#[test]
fn type_of_names_each_kind_of_value() {
    assert_eq!(call("type_of", vec![s("x")]), "\"string\"");
    assert_eq!(call("typeof", vec![num(1.0)]), "\"number\"");
    assert_eq!(call("type_of", vec![Value::Bool(false)]), "\"boolean\"");
    assert_eq!(call("type_of", vec![arr(vec![])]), "\"array\"");
    assert_eq!(call("type_of", vec![obj(&[])]), "\"object\"");
    assert_eq!(call("type_of", vec![Value::Null]), "\"null\"");
    assert_eq!(call("type_of", vec![]), "\"null\"");
}

#[test]
fn chr_and_ord_convert_between_characters_and_codes() {
    assert!(matches!(chr(65), Value::Str(ref t) if t == "A"));
    assert!(matches!(chr(0x1F600), Value::Str(ref t) if t == "😀"));
    assert!(matches!(chr(0xD800), Value::Null));
    assert!(matches!(chr(0x110000), Value::Null));
    assert_eq!(ord("A"), 65);
    assert_eq!(ord("é!"), 233);
    assert_eq!(ord(""), 0);
}

#[test]
fn truthiness_and_kind_names_of_values() {
    assert!(!Value::Null.is_truthy());
    assert!(!num(0.0).is_truthy());
    assert!(!num(-0.0).is_truthy());
    assert!(num(2.5).is_truthy());
    assert!(!s("").is_truthy());
    assert!(s("x").is_truthy());
    assert!(!arr(vec![]).is_truthy());
    assert!(obj(&[("a", Value::Null)]).is_truthy());
    assert_eq!(Value::Bool(true).kind_name(), "boolean");
}
