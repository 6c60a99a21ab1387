//! The builtins that select from an object or test what a value holds:
//! `pick`, `omit`, `has`, `contains`, `group_by`, and `join` and
//! `index_of` on text.
use vstd::prelude::*;
use crate::interpreter::util::{contains_exec, contains_seq, occurs_at, occurs_at_exec};
use crate::interpreter::{all_strings, join, value_texts, values_model, Signal};
use crate::text::{chars_of, str_eq};
use crate::interpreter::builtins::{char_string_values, char_strings, copy_all};
use crate::value::{
    assoc_get, assoc_set, has_key, is_first_key, keys_distinct, lemma_assoc_get_set_other,
    lemma_assoc_get_set_same, lemma_first_key_is_key_index, lemma_key_index, ObjectMap, Value,
    ValueModel,
};

verus! {

/// The entries of `es` named by the string keys among `keys`, in the order
/// of the keys; a key `es` lacks is skipped.
pub open spec fn picked(es: Seq<(Seq<char>, ValueModel)>, keys: Seq<ValueModel>) -> Seq<
    (Seq<char>, ValueModel),
>
    decreases keys.len(),
{
    if keys.len() == 0 {
        Seq::empty()
    } else {
        let acc = picked(es, keys.drop_last());
        match keys.last() {
            ValueModel::Str(k) => match assoc_get(es, k) {
                Some(v) => assoc_set(acc, k, v),
                None => acc,
            },
            _ => acc,
        }
    }
}

/// The values the interpreter walks in `v`: an array's items, an object's
/// names (as strings), a string's characters (as one-character strings),
/// and nothing in any other value.
pub open spec fn walked(v: ValueModel) -> Seq<ValueModel> {
    match v {
        ValueModel::Array(xs) => xs,
        ValueModel::Object(es) => es.map_values(|e: (Seq<char>, ValueModel)| ValueModel::Str(e.0)),
        ValueModel::Str(s) => char_strings(s),
        _ => Seq::empty(),
    }
}

/// The values `v` walks to, as `walked` says.
pub fn walk(v: &Value) -> (r: Vec<Value>)
    ensures
        values_model(r@) == walked(v.model()),
{
    match v {
        Value::Array(xs) => {
            assert(v.model()->Array_0 =~= values_model(xs@));
            copy_all(xs)
        },
        Value::Object(m) => {
            let ghost es = m.model();
            let mut out: Vec<Value> = Vec::new();
            let mut i: usize = 0;
            while i < m.len()
                invariant
                    i <= es.len(),
                    es == m.model(),
                    values_model(out@) == es.take(i as int).map_values(
                        |e: (Seq<char>, ValueModel)| ValueModel::Str(e.0),
                    ),
                decreases es.len() - i,
            {
                let (k, _) = m.entry(i);
                let ghost before = out@;
                out.push(Value::Str(String::from_str(k.as_str())));
                assert(values_model(out@) =~= values_model(before).push(ValueModel::Str(es[i as int].0)));
                assert(es.take(i + 1).map_values(|e: (Seq<char>, ValueModel)| ValueModel::Str(e.0))
                    =~= es.take(i as int).map_values(|e: (Seq<char>, ValueModel)| ValueModel::Str(e.0)).push(
                    ValueModel::Str(es[i as int].0),
                ));
                i = i + 1;
            }
            assert(es.take(es.len() as int) =~= es);
            out
        },
        Value::Str(s) => char_string_values(&chars_of(s.as_str())),
        _ => {
            let out: Vec<Value> = Vec::new();
            assert(values_model(out@) =~= Seq::<ValueModel>::empty());
            out
        },
    }
}

/// What `pick(obj, keys)` gives: the entries named by the strings that
/// `keys` walks to; a non-object picks from nothing.
pub open spec fn pick_result(obj: ValueModel, keys: ValueModel) -> ValueModel {
    match obj {
        ValueModel::Object(es) => ValueModel::Object(picked(es, walked(keys))),
        _ => ValueModel::Object(Seq::empty()),
    }
}

/// The builtin `pick(obj, keys)`: the entries of the object `obj` whose
/// names are listed in `keys`.
pub fn pick(obj: &Value, keys: &Value) -> (r: Value)
    ensures
        r.model() == pick_result(obj.model(), keys.model()),
{
    match obj {
        Value::Object(m) => {
            let ks = walk(keys);
            let ghost km = values_model(ks@);
            let mut out = ObjectMap::new();
            let mut i: usize = 0;
            assert(km.take(0) =~= Seq::<ValueModel>::empty());
            while i < ks.len()
                invariant
                    i <= ks@.len(),
                    km == values_model(ks@),
                    out.model() == picked(m.model(), km.take(i as int)),
                decreases ks@.len() - i,
            {
                assert(km.take(i + 1).drop_last() =~= km.take(i as int));
                assert(km.take(i + 1).last() == ks@[i as int].model());
                match &ks[i] {
                    Value::Str(k) => match m.get(k.as_str()) {
                        Some(v) => {
                            out.insert(String::from_str(k.as_str()), v.deep_copy());
                        },
                        None => {},
                    },
                    _ => {},
                }
                i = i + 1;
            }
            assert(km.take(ks@.len() as int) =~= km);
            Value::Object(out)
        },
        _ => Value::Object(ObjectMap::new()),
    }
}

/// The entries of `es` whose names are not among the string keys in
/// `excluded`.
pub open spec fn omitted(es: Seq<(Seq<char>, ValueModel)>, excluded: Seq<ValueModel>) -> Seq<
    (Seq<char>, ValueModel),
>
    decreases es.len(),
{
    if es.len() == 0 {
        Seq::empty()
    } else {
        let acc = omitted(es.drop_last(), excluded);
        let e = es.last();
        if excluded.contains(ValueModel::Str(e.0)) {
            acc
        } else {
            assoc_set(acc, e.0, e.1)
        }
    }
}

/// What `omit(obj, keys)` gives: the object without the entries named by
/// the strings that `keys` walks to; a non-object leaves nothing.
pub open spec fn omit_result(obj: ValueModel, keys: ValueModel) -> ValueModel {
    match obj {
        ValueModel::Object(es) => ValueModel::Object(omitted(es, walked(keys))),
        _ => ValueModel::Object(Seq::empty()),
    }
}

/// Whether the string `k` is among `keys`.
fn lists_key(keys: &[Value], k: &str) -> (r: bool)
    ensures
        r == values_model(keys@).contains(ValueModel::Str(k@)),
{
    let ghost km = values_model(keys@);
    let mut i: usize = 0;
    while i < keys.len()
        invariant
            i <= keys@.len(),
            km == values_model(keys@),
            forall|j: int| 0 <= j < i ==> #[trigger] km[j] != ValueModel::Str(k@),
        decreases keys@.len() - i,
    {
        assert(km[i as int] == keys@[i as int].model());
        match &keys[i] {
            Value::Str(s) => {
                if str_eq(s.as_str(), k) {
                    assert(km[i as int] == ValueModel::Str(k@));
                    return true;
                }
            },
            _ => {},
        }
        i = i + 1;
    }
    proof {
        if km.contains(ValueModel::Str(k@)) {
            let w = choose|j: int| 0 <= j < km.len() && km[j] == ValueModel::Str(k@);
            assert(km[w] != ValueModel::Str(k@));
        }
    }
    false
}

/// The entries of `m` whose names are not listed in `keys`.
fn omit_entries(m: &ObjectMap, keys: &[Value]) -> (r: ObjectMap)
    ensures
        r.model() == omitted(m.model(), values_model(keys@)),
{
    let ghost es = m.model();
    let ghost km = values_model(keys@);
    let mut out = ObjectMap::new();
    let mut i: usize = 0;
    assert(es.take(0) =~= Seq::<(Seq<char>, ValueModel)>::empty());
    while i < m.len()
        invariant
            i <= es.len(),
            es == m.model(),
            km == values_model(keys@),
            out.model() == omitted(es.take(i as int), km),
        decreases es.len() - i,
    {
        let (k, v) = m.entry(i);
        assert(es.take(i + 1).drop_last() =~= es.take(i as int));
        assert(es.take(i + 1).last() == es[i as int]);
        if !lists_key(keys, k.as_str()) {
            out.insert(String::from_str(k.as_str()), v.deep_copy());
        }
        i = i + 1;
    }
    assert(es.take(es.len() as int) =~= es);
    out
}

/// The builtin `omit(obj, keys)`: the object `obj` without the entries
/// whose names are listed in `keys`.
pub fn omit(obj: &Value, keys: &Value) -> (r: Value)
    ensures
        r.model() == omit_result(obj.model(), keys.model()),
{
    match obj {
        Value::Object(m) => {
            let ks = walk(keys);
            Value::Object(omit_entries(m, ks.as_slice()))
        },
        _ => Value::Object(ObjectMap::new()),
    }
}

/// The text of a string argument, or the empty text for any other value.
pub open spec fn text_or_empty(v: ValueModel) -> Seq<char> {
    match v {
        ValueModel::Str(s) => s,
        _ => Seq::empty(),
    }
}

/// A string, a boolean or null: a value that equals another exactly when
/// it is the same value.
pub open spec fn is_plain_scalar(v: ValueModel) -> bool {
    v is Str || v is Bool || v is Null
}

/// Whether an array holds `needle`, for a needle that is a plain scalar;
/// for any other needle equality compares numbers as floats, or objects
/// regardless of the order of their entries, and the search is the
/// caller's (`None`).
pub open spec fn array_holds(xs: Seq<ValueModel>, needle: ValueModel) -> Option<ValueModel> {
    if is_plain_scalar(needle) {
        Some(ValueModel::Bool(xs.contains(needle)))
    } else {
        None
    }
}

/// Searches `xs` for the plain scalar `needle`.
fn holds_scalar(xs: &Vec<Value>, needle: &Value) -> (r: bool)
    requires
        is_plain_scalar(needle.model()),
    ensures
        r == values_model(xs@).contains(needle.model()),
{
    let ghost vm = values_model(xs@);
    let mut i: usize = 0;
    while i < xs.len()
        invariant
            i <= xs@.len(),
            vm == values_model(xs@),
            is_plain_scalar(needle.model()),
            forall|j: int| 0 <= j < i ==> #[trigger] vm[j] != needle.model(),
        decreases xs@.len() - i,
    {
        assert(vm[i as int] == xs@[i as int].model());
        let same = match (&xs[i], needle) {
            (Value::Str(a), Value::Str(b)) => str_eq(a.as_str(), b.as_str()),
            (Value::Bool(a), Value::Bool(b)) => *a == *b,
            (Value::Null, Value::Null) => true,
            _ => false,
        };
        if same {
            return true;
        }
        i = i + 1;
    }
    proof {
        if vm.contains(needle.model()) {
            let w = choose|j: int| 0 <= j < vm.len() && vm[j] == needle.model();
            assert(vm[w] != needle.model());
        }
    }
    false
}

/// What `has(container, key)` gives: for an object, whether it holds an
/// entry named `key`; for an array, whether it holds `key` (see
/// `array_holds`); false for anything else.
pub open spec fn has_result(container: ValueModel, key: ValueModel) -> Option<ValueModel> {
    match container {
        ValueModel::Object(es) => Some(ValueModel::Bool(assoc_get(es, text_or_empty(key)) is Some)),
        ValueModel::Array(xs) => array_holds(xs, key),
        _ => Some(ValueModel::Bool(false)),
    }
}

/// The builtin `has(container, key)`.
pub fn has(container: &Value, key: &Value) -> (r: Option<Value>)
    ensures
        match has_result(container.model(), key.model()) {
            Some(m) => r matches Some(v) && v.model() == m,
            None => r is None,
        },
{
    match container {
        Value::Object(m) => {
            let k: &str = match key {
                Value::Str(s) => s.as_str(),
                _ => "",
            };
            proof {
                reveal_strlit("");
                assert(""@ =~= Seq::<char>::empty());
                assert(k@ == text_or_empty(key.model()));
            }
            Some(Value::Bool(m.contains_key(k)))
        },
        Value::Array(xs) => {
            assert(container.model()->Array_0 =~= values_model(xs@));
            match key {
                Value::Str(_) | Value::Bool(_) | Value::Null => Some(Value::Bool(holds_scalar(xs, key))),
                _ => None,
            }
        },
        _ => Some(Value::Bool(false)),
    }
}

/// What `contains(container, part)` gives: for a string, whether `part`
/// (a string, else the empty text) occurs in it; for an array, whether it
/// holds `part` (see `array_holds`); false for anything else.
pub open spec fn contains_result(container: ValueModel, part: ValueModel) -> Option<ValueModel> {
    match container {
        ValueModel::Str(s) => Some(ValueModel::Bool(contains_seq(s, text_or_empty(part)))),
        ValueModel::Array(xs) => array_holds(xs, part),
        _ => Some(ValueModel::Bool(false)),
    }
}

/// The builtin `contains(container, part)`.
pub fn contains(container: &Value, part: &Value) -> (r: Option<Value>)
    ensures
        match contains_result(container.model(), part.model()) {
            Some(m) => r matches Some(v) && v.model() == m,
            None => r is None,
        },
{
    match container {
        Value::Str(s) => {
            let p: &str = match part {
                Value::Str(x) => x.as_str(),
                _ => "",
            };
            proof {
                reveal_strlit("");
                assert(""@ =~= Seq::<char>::empty());
                assert(p@ == text_or_empty(part.model()));
            }
            let cs = chars_of(s.as_str());
            Some(Value::Bool(contains_exec(&cs, p)))
        },
        Value::Array(xs) => {
            assert(container.model()->Array_0 =~= values_model(xs@));
            match part {
                Value::Str(_) | Value::Bool(_) | Value::Null => Some(Value::Bool(holds_scalar(xs, part))),
                _ => None,
            }
        },
        _ => Some(Value::Bool(false)),
    }
}




// ── group_by ─────────────────────────────────────────────────────────────────

/// The text `item` is grouped under for the field `key`, when it can be
/// read here: for an object, its field `key` when that is a string, or the
/// empty text when it has no such field; a string item is its own text.
/// Any other value is rendered as text by the caller (`None`).
pub open spec fn group_text(item: ValueModel, key: Seq<char>) -> Option<Seq<char>> {
    match item {
        ValueModel::Object(es) => match assoc_get(es, key) {
            None => Some(Seq::empty()),
            Some(ValueModel::Str(t)) => Some(t),
            Some(_) => None,
        },
        ValueModel::Str(t) => Some(t),
        _ => None,
    }
}

/// Whether every item's group text can be read here.
pub open spec fn groupable(items: Seq<ValueModel>, key: Seq<char>) -> bool {
    forall|i: int| 0 <= i < items.len() ==> #[trigger] group_text(items[i], key) is Some
}

/// The items already grouped under `k` in `groups`.
pub open spec fn group_of(groups: Seq<(Seq<char>, ValueModel)>, k: Seq<char>) -> Seq<ValueModel> {
    match assoc_get(groups, k) {
        Some(ValueModel::Array(g)) => g,
        _ => Seq::empty(),
    }
}

/// The groups of `items` by their group text: each group an array of its
/// items in their order, the groups in the order their first item comes.
pub open spec fn grouped(items: Seq<ValueModel>, key: Seq<char>) -> Seq<(Seq<char>, ValueModel)>
    decreases items.len(),
{
    if items.len() == 0 {
        Seq::empty()
    } else {
        let acc = grouped(items.drop_last(), key);
        let x = items.last();
        match group_text(x, key) {
            Some(k) => assoc_set(acc, k, ValueModel::Array(group_of(acc, k).push(x))),
            None => acc,
        }
    }
}

/// What `group_by(items, key)` gives: an error for anything but an array;
/// for an array whose items can all be read here, the object of its
/// groups.
pub open spec fn group_by_result(items: ValueModel, key: Seq<char>) -> Option<Result<ValueModel, Seq<char>>> {
    match items {
        ValueModel::Array(xs) => if groupable(xs, key) {
            Some(Ok(ValueModel::Object(grouped(xs, key))))
        } else {
            None
        },
        _ => Some(Err("group_by requires an array"@)),
    }
}

/// The group text of one item, when it can be read here.
fn item_group_text(item: &Value, key: &str) -> (r: Option<String>)
    ensures
        match group_text(item.model(), key@) {
            Some(t) => r matches Some(x) && x@ == t,
            None => r is None,
        },
{
    match item {
        Value::Object(m) => match m.get(key) {
            None => Some(String::new()),
            Some(Value::Str(t)) => Some(String::from_str(t.as_str())),
            Some(_) => None,
        },
        Value::Str(t) => Some(String::from_str(t.as_str())),
        _ => None,
    }
}

/// The groups of `xs`, or `None` when an item's group text cannot be read
/// here.
fn group_items(xs: &Vec<Value>, key: &str) -> (r: Option<ObjectMap>)
    ensures
        groupable(values_model(xs@), key@) ==> (r matches Some(m) && m.model() == grouped(
            values_model(xs@),
            key@,
        )),
        !groupable(values_model(xs@), key@) ==> r is None,
{
    let ghost vm = values_model(xs@);
    let mut out = ObjectMap::new();
    let mut i: usize = 0;
    assert(vm.take(0) =~= Seq::<ValueModel>::empty());
    while i < xs.len()
        invariant
            i <= xs@.len(),
            vm == values_model(xs@),
            groupable(vm.take(i as int), key@),
            out.model() == grouped(vm.take(i as int), key@),
        decreases xs@.len() - i,
    {
        let item = &xs[i];
        assert(vm[i as int] == item.model());
        assert(vm.take(i + 1).drop_last() =~= vm.take(i as int));
        assert(vm.take(i + 1).last() == vm[i as int]);
        match item_group_text(item, key) {
            None => {
                assert(!groupable(vm, key@)) by {
                    assert(group_text(vm[i as int], key@) is None);
                }
                return None;
            },
            Some(k) => {
                let mut group: Vec<Value> = match out.get(k.as_str()) {
                    Some(Value::Array(g)) => crate::interpreter::builtins::copy_all(g),
                    _ => Vec::new(),
                };
                let ghost before = values_model(group@);
                assert(before == group_of(out.model(), k@)) by {
                    match assoc_get(out.model(), k@) {
                        Some(ValueModel::Array(g)) => {},
                        _ => {
                            assert(before =~= Seq::<ValueModel>::empty());
                        },
                    }
                }
                group.push(item.deep_copy());
                assert(values_model(group@) =~= before.push(vm[i as int]));
                let g = Value::Array(group);
                assert(g.model()->Array_0 =~= values_model(group@));
                out.insert(k, g);
                assert(groupable(vm.take(i + 1), key@)) by {
                    assert forall|j: int| 0 <= j < vm.take(i + 1).len() implies #[trigger] group_text(
                        vm.take(i + 1)[j],
                        key@,
                    ) is Some by {
                        if j < i {
                            assert(vm.take(i + 1)[j] == vm.take(i as int)[j]);
                        }
                    }
                }
            },
        }
        i = i + 1;
    }
    assert(vm.take(xs@.len() as int) =~= vm);
    Some(out)
}

/// The builtin `group_by(items, key)`, with the key given as text.
pub fn group_by(items: &Value, key: &str) -> (r: Option<Result<Value, Signal>>)
    ensures
        match group_by_result(items.model(), key@) {
            Some(Ok(m)) => r matches Some(Ok(v)) && v.model() == m,
            Some(Err(e)) => r matches Some(Err(Signal::Error(t))) && t@ == e,
            None => r is None,
        },
{
    match items {
        Value::Array(xs) => {
            assert(items.model()->Array_0 =~= values_model(xs@));
            match group_items(xs, key) {
                Some(m) => Some(Ok(Value::Object(m))),
                None => None,
            }
        },
        _ => Some(Err(Signal::Error(String::from_str("group_by requires an array")))),
    }
}

// ── join ─────────────────────────────────────────────────────────────────────

/// The builtin `join(items, sep)` and the array method of that name, for
/// an array of strings: their texts with `sep` between them. An array
/// holding anything else is joined by the caller, which renders each item
/// as text (`None`).
pub fn join_strings(items: &[Value], sep: &str) -> (r: Option<String>)
    ensures
        all_strings(values_model(items@)) ==> (r matches Some(t) && t@ == join(
            value_texts(values_model(items@)),
            sep@,
        )),
        !all_strings(values_model(items@)) ==> r is None,
{
    let ghost vm = values_model(items@);
    let mut out = String::new();
    let mut i: usize = 0;
    assert(value_texts(vm).take(0) =~= Seq::<Seq<char>>::empty());
    while i < items.len()
        invariant
            i <= items@.len(),
            vm == values_model(items@),
            all_strings(vm.take(i as int)),
            out@ == join(value_texts(vm).take(i as int), sep@),
        decreases items@.len() - i,
    {
        assert(vm[i as int] == items@[i as int].model());
        match &items[i] {
            Value::Str(t) => {
                let ghost before = value_texts(vm).take(i as int);
                assert(value_texts(vm).take(i + 1).drop_last() =~= before);
                assert(value_texts(vm)[i as int] == t@);
                if i > 0 {
                    out.append(sep);
                }
                out.append(t.as_str());
                assert(vm.take(i + 1) =~= vm.take(i as int).push(vm[i as int]));
                proof {
                    if i == 0 {
                        assert(value_texts(vm).take(1) =~= seq![t@]);
                    }
                }
            },
            _ => {
                assert(!all_strings(vm)) by {
                    assert(!(vm[i as int] is Str));
                }
                return None;
            },
        }
        i = i + 1;
    }
    assert(vm.take(items@.len() as int) =~= vm);
    assert(value_texts(vm).take(items@.len() as int) =~= value_texts(vm));
    Some(out)
}

// ── index_of on text ─────────────────────────────────────────────────────────

/// How many bytes UTF-8 takes for `c`.
pub open spec fn utf8_width(c: char) -> nat {
    if (c as u32) < 0x80 {
        1
    } else if (c as u32) < 0x800 {
        2
    } else if (c as u32) < 0x10000 {
        3
    } else {
        4
    }
}

/// How many bytes UTF-8 takes for the text `s`.
pub open spec fn utf8_len(s: Seq<char>) -> nat
    decreases s.len(),
{
    if s.len() == 0 {
        0
    } else {
        utf8_len(s.drop_last()) + utf8_width(s.last())
    }
}

/// The first position from `i` on where `p` occurs in `s`, or `s.len() + 1`
/// when there is none.
pub open spec fn first_match(s: Seq<char>, p: Seq<char>, i: int) -> int
    decreases s.len() + 1 - i,
{
    if i < 0 || i > s.len() {
        (s.len() + 1) as int
    } else if occurs_at(s, p, i) {
        i
    } else {
        first_match(s, p, i + 1)
    }
}

/// What `str::find` gives: the byte offset of the first occurrence of `p`
/// in `s`, or none.
pub open spec fn find_offset(s: Seq<char>, p: Seq<char>) -> Option<nat> {
    let j = first_match(s, p, 0);
    if j <= s.len() {
        Some(utf8_len(s.take(j)))
    } else {
        None
    }
}

proof fn lemma_utf8_len_prefix(s: Seq<char>, k: int)
    requires
        0 <= k <= s.len(),
    ensures
        utf8_len(s.take(k)) <= utf8_len(s),
    decreases s.len() - k,
{
    if k < s.len() {
        assert(s.take(k + 1).drop_last() =~= s.take(k));
        lemma_utf8_len_prefix(s, k + 1);
    } else {
        assert(s.take(k) =~= s);
    }
}

fn utf8_width_of(c: char) -> (r: usize)
    ensures
        r == utf8_width(c),
{
    if (c as u32) < 0x80 {
        1
    } else if (c as u32) < 0x800 {
        2
    } else if (c as u32) < 0x10000 {
        3
    } else {
        4
    }
}

/// The builtin `index_of(text, part)` and the text method of that name:
/// the byte offset of the first occurrence of `needle` in `s` (the caller
/// answers -1 for `None`).
pub fn find_text(s: &str, needle: &str) -> (r: Option<usize>)
    requires
        utf8_len(s@) <= usize::MAX,
    ensures
        match find_offset(s@, needle@) {
            Some(o) => r matches Some(x) && x == o,
            None => r is None,
        },
{
    let cs = chars_of(s);
    let ps = chars_of(needle);
    let n = cs.len();
    let mut i: usize = 0;
    while i <= n && !occurs_at_exec(&cs, &ps, i)
        invariant
            n == cs@.len() == s@.len(),
            n <= isize::MAX,
            cs@ == s@,
            ps@ == needle@,
            i <= n + 1,
            first_match(cs@, ps@, i as int) == first_match(cs@, ps@, 0),
        decreases n + 1 - i,
    {
        i = i + 1;
    }
    if i > n {
        return None;
    }
    let mut acc: usize = 0;
    let mut k: usize = 0;
    assert(cs@.take(0) =~= Seq::<char>::empty());
    while k < i
        invariant
            k <= i <= n == cs@.len(),
            cs@ == s@,
            utf8_len(s@) <= usize::MAX,
            acc == utf8_len(cs@.take(k as int)),
        decreases i - k,
    {
        assert(cs@.take(k + 1).drop_last() =~= cs@.take(k as int));
        proof {
            lemma_utf8_len_prefix(cs@, k + 1);
        }
        acc = acc + utf8_width_of(cs[k]);
        k = k + 1;
    }
    Some(acc)
}

// ── Laws ─────────────────────────────────────────────────────────────────────

proof fn lemma_contains_last(s: Seq<ValueModel>, x: ValueModel)
    requires
        s.len() > 0,
    ensures
        s.contains(x) == (s.drop_last().contains(x) || s.last() == x),
{
    if s.contains(x) {
        let w = choose|j: int| 0 <= j < s.len() && s[j] == x;
        if w < s.len() - 1 {
            assert(s.drop_last()[w] == x);
        }
    }
    if s.drop_last().contains(x) {
        let w = choose|j: int| 0 <= j < s.drop_last().len() && s.drop_last()[j] == x;
        assert(s[w] == x);
    }
}

/// What a name reads in an entry list with one more, distinct entry.
proof fn lemma_assoc_get_push(init: Seq<(Seq<char>, ValueModel)>, e: (Seq<char>, ValueModel), k: Seq<char>)
    requires
        keys_distinct(init.push(e)),
    ensures
        assoc_get(init.push(e), k) == (if e.0 == k { Some(e.1) } else { assoc_get(init, k) }),
{
    let es = init.push(e);
    lemma_key_index(init, k);
    lemma_key_index(es, k);
    let i = crate::value::key_index(init, k);
    if e.0 == k {
        assert forall|j: int| 0 <= j < init.len() implies #[trigger] es[j].0 != k by {
            assert(es[j].0 != es[init.len() as int].0);
        }
        assert(is_first_key(es, k, init.len() as int));
        lemma_first_key_is_key_index(es, k, init.len() as int);
    } else if i < init.len() {
        assert(is_first_key(es, k, i));
        lemma_first_key_is_key_index(es, k, i);
    } else {
        assert(!has_key(es, k)) by {
            if has_key(es, k) {
                let w = choose|j: int| 0 <= j < es.len() && #[trigger] es[j].0 == k;
                if w < init.len() {
                    assert(init[w].0 == k);
                }
            }
        }
    }
}

/// `pick` keeps exactly the names asked for that the object has, with
/// the object's values: a name not asked for, or one the object lacks,
/// is absent from the result.
pub proof fn lemma_pick_lookup(es: Seq<(Seq<char>, ValueModel)>, keys: Seq<ValueModel>, k: Seq<char>)
    ensures
        assoc_get(picked(es, keys), k) == (if keys.contains(ValueModel::Str(k)) {
            assoc_get(es, k)
        } else {
            None
        }),
    decreases keys.len(),
{
    if keys.len() == 0 {
        lemma_key_index(Seq::<(Seq<char>, ValueModel)>::empty(), k);
    } else {
        let init = keys.drop_last();
        lemma_pick_lookup(es, init, k);
        lemma_contains_last(keys, ValueModel::Str(k));
        let acc = picked(es, init);
        match keys.last() {
            ValueModel::Str(k2) => match assoc_get(es, k2) {
                Some(v) => {
                    if k2 == k {
                        lemma_assoc_get_set_same(acc, k2, v);
                    } else {
                        lemma_assoc_get_set_other(acc, k2, v, k);
                    }
                },
                None => {},
            },
            _ => {},
        }
    }
}

/// `omit` removes exactly the names listed and keeps every other entry
/// of an object (whose names are distinct) with its value; with no names
/// listed the object reads as it was.
pub proof fn lemma_omit_lookup(es: Seq<(Seq<char>, ValueModel)>, excluded: Seq<ValueModel>, k: Seq<char>)
    requires
        keys_distinct(es),
    ensures
        assoc_get(omitted(es, excluded), k) == (if excluded.contains(ValueModel::Str(k)) {
            None
        } else {
            assoc_get(es, k)
        }),
    decreases es.len(),
{
    if es.len() == 0 {
        lemma_key_index(Seq::<(Seq<char>, ValueModel)>::empty(), k);
        lemma_key_index(es, k);
    } else {
        let init = es.drop_last();
        let e = es.last();
        assert(init.push(e) =~= es);
        assert(keys_distinct(init)) by {
            assert forall|i: int, j: int| 0 <= i < j < init.len() implies #[trigger] init[i].0
                != #[trigger] init[j].0 by {
                assert(es[i].0 != es[j].0);
            }
        }
        lemma_omit_lookup(init, excluded, k);
        lemma_assoc_get_push(init, e, k);
        let acc = omitted(init, excluded);
        if !excluded.contains(ValueModel::Str(e.0)) {
            if e.0 == k {
                lemma_assoc_get_set_same(acc, e.0, e.1);
            } else {
                lemma_assoc_get_set_other(acc, e.0, e.1, k);
            }
        }
    }
}

} // verus!
