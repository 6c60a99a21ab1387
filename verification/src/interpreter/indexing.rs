//! String and array operations that take positions, counts and widths:
//! reading and writing `value[key]`, slicing, taking and skipping,
//! padding, repetition, and the length of a value. Positions and counts are
//! character (or item) counts, already converted from the script's numbers
//! by the caller.
use vstd::prelude::*;
use crate::interpreter::{values_model, Signal};
use crate::text::{chars_of, string_from_range, string_push};
use crate::value::{Value, ValueModel};

verus! {

/// The most bytes `repeat` (and multiplying a string by a number) may
/// produce.
pub const MAX_STRING_REPEAT_BYTES: usize = 67108864;

/// What `len`/`count`/`length` count for a value: items of an array,
/// entries of an object, characters of a string, 0 for null, 1 otherwise.
pub open spec fn value_length(v: ValueModel) -> nat {
    match v {
        ValueModel::Array(items) => items.len(),
        ValueModel::Object(es) => es.len(),
        ValueModel::Str(s) => s.len(),
        ValueModel::Null => 0,
        _ => 1,
    }
}

pub fn value_len(v: &Value) -> (r: usize)
    ensures
        r == value_length(v.model()),
{
    match v {
        Value::Array(items) => items.len(),
        Value::Object(m) => m.len(),
        Value::Str(s) => chars_of(s.as_str()).len(),
        Value::Null => 0,
        _ => 1,
    }
}

/// The range `slice(start, end)` keeps of `len` items: `end` (the length
/// when absent) is clamped to the length, and `start` to `end`.
pub open spec fn slice_range(len: nat, start: nat, end: Option<nat>) -> (nat, nat) {
    let e = match end {
        Some(e) => if e <= len { e } else { len },
        None => len,
    };
    let s = if start <= e { start } else { e };
    (s, e)
}

pub fn slice_bounds(len: usize, start: usize, end: Option<usize>) -> (r: (usize, usize))
    ensures
        (r.0 as nat, r.1 as nat) == slice_range(
            len as nat,
            start as nat,
            match end {
                Some(e) => Some(e as nat),
                None => None::<nat>,
            },
        ),
        r.0 <= r.1 <= len,
{
    let e = match end {
        Some(e) => if e <= len { e } else { len },
        None => len,
    };
    let s = if start <= e { start } else { e };
    (s, e)
}

fn copy_range(items: &Vec<Value>, from: usize, to: usize) -> (r: Vec<Value>)
    requires
        from <= to <= items@.len(),
    ensures
        values_model(r@) == values_model(items@).subrange(from as int, to as int),
{
    let mut out: Vec<Value> = Vec::new();
    let mut i = from;
    while i < to
        invariant
            from <= i <= to <= items@.len(),
            values_model(out@) == values_model(items@).subrange(from as int, i as int),
        decreases to - i,
    {
        let v = items[i].deep_copy();
        let ghost mid = out@;
        out.push(v);
        assert(values_model(out@) =~= values_model(mid).push(v.model()));
        i = i + 1;
        assert(values_model(out@) =~= values_model(items@).subrange(from as int, i as int));
    }
    out
}

/// The items `slice(start, end)` keeps.
pub fn slice_array(items: &Vec<Value>, start: usize, end: Option<usize>) -> (r: Vec<Value>)
    ensures
        ({
            let (s, e) = slice_range(
                items@.len(),
                start as nat,
                match end {
                    Some(e) => Some(e as nat),
                    None => None::<nat>,
                },
            );
            values_model(r@) == values_model(items@).subrange(s as int, e as int)
        }),
{
    let (s, e) = slice_bounds(items.len(), start, end);
    copy_range(items, s, e)
}

/// The characters `slice(start, end)` keeps of a string.
pub fn slice_string(text: &str, start: usize, end: Option<usize>) -> (r: String)
    ensures
        ({
            let (s, e) = slice_range(
                text@.len(),
                start as nat,
                match end {
                    Some(e) => Some(e as nat),
                    None => None::<nat>,
                },
            );
            r@ == text@.subrange(s as int, e as int)
        }),
{
    let c = chars_of(text);
    let (s, e) = slice_bounds(c.len(), start, end);
    string_from_range(&c, s, e)
}

/// The first `n` items (all of them when there are fewer).
pub fn take_items(items: &Vec<Value>, n: usize) -> (r: Vec<Value>)
    ensures
        values_model(r@) == values_model(items@).take(
            if n <= items@.len() { n as int } else { items@.len() as int },
        ),
{
    let k = if n <= items.len() { n } else { items.len() };
    let r = copy_range(items, 0, k);
    assert(values_model(items@).subrange(0, k as int) =~= values_model(items@).take(k as int));
    r
}

/// The items after the first `n` (none when there are fewer).
pub fn skip_items(items: &Vec<Value>, n: usize) -> (r: Vec<Value>)
    ensures
        values_model(r@) == values_model(items@).skip(
            if n <= items@.len() { n as int } else { items@.len() as int },
        ),
{
    let k = if n <= items.len() { n } else { items.len() };
    let r = copy_range(items, k, items.len());
    assert(values_model(items@).subrange(k as int, items@.len() as int) =~= values_model(
        items@,
    ).skip(k as int));
    r
}

/// `substr(s, start, len)`: the characters from `start` on, at most `len`
/// of them when `len` is given.
pub open spec fn substr_text(s: Seq<char>, start: nat, len: Option<nat>) -> Seq<char> {
    let rest = if start <= s.len() { s.skip(start as int) } else { Seq::<char>::empty() };
    match len {
        Some(l) => if l <= rest.len() { rest.take(l as int) } else { rest },
        None => rest,
    }
}

pub fn substr(text: &str, start: usize, len: Option<usize>) -> (r: String)
    ensures
        r@ == substr_text(
            text@,
            start as nat,
            match len {
                Some(l) => Some(l as nat),
                None => None::<nat>,
            },
        ),
{
    let c = chars_of(text);
    let from = if start <= c.len() { start } else { c.len() };
    let to = match len {
        Some(l) => if l <= c.len() - from { from + l } else { c.len() },
        None => c.len(),
    };
    let r = string_from_range(&c, from, to);
    proof {
        let rest = if start <= c@.len() { c@.skip(start as int) } else { Seq::<char>::empty() };
        assert(rest =~= c@.subrange(from as int, c@.len() as int));
        match len {
            Some(l) => {
                if l <= rest.len() {
                    assert(rest.take(l as int) =~= c@.subrange(from as int, to as int));
                }
            },
            None => {},
        }
    }
    r
}

/// `n` copies of `c`.
pub open spec fn repeat_char(c: char, n: nat) -> Seq<char>
    decreases n,
{
    if n == 0 {
        Seq::empty()
    } else {
        repeat_char(c, (n - 1) as nat).push(c)
    }
}

fn push_repeated(out: &mut String, c: char, n: usize)
    ensures
        final(out)@ == old(out)@ + repeat_char(c, n as nat),
{
    let mut i: usize = 0;
    while i < n
        invariant
            i <= n,
            out@ == old(out)@ + repeat_char(c, i as nat),
        decreases n - i,
    {
        string_push(out, c);
        i = i + 1;
        assert(out@ =~= old(out)@ + repeat_char(c, i as nat));
    }
}

/// `pad_left`/`pad_start`: `s` preceded by enough `pad` characters to be
/// `width` characters long (unchanged when it is already that long).
pub open spec fn pad_start_text(s: Seq<char>, width: nat, pad: char) -> Seq<char> {
    if s.len() >= width {
        s
    } else {
        repeat_char(pad, (width - s.len()) as nat) + s
    }
}

/// `pad_right`/`pad_end`: `s` followed by enough `pad` characters.
pub open spec fn pad_end_text(s: Seq<char>, width: nat, pad: char) -> Seq<char> {
    if s.len() >= width {
        s
    } else {
        s + repeat_char(pad, (width - s.len()) as nat)
    }
}

pub fn pad_start(text: &str, width: usize, pad: char) -> (r: String)
    ensures
        r@ == pad_start_text(text@, width as nat, pad),
{
    let n = chars_of(text).len();
    let mut out = String::new();
    if n < width {
        push_repeated(&mut out, pad, width - n);
    }
    out.append(text);
    assert(repeat_char(pad, 0) =~= Seq::<char>::empty());
    assert(out@ =~= pad_start_text(text@, width as nat, pad));
    out
}

pub fn pad_end(text: &str, width: usize, pad: char) -> (r: String)
    ensures
        r@ == pad_end_text(text@, width as nat, pad),
{
    let n = chars_of(text).len();
    let mut out = String::from_str(text);
    if n < width {
        push_repeated(&mut out, pad, width - n);
    }
    assert(out@ =~= pad_end_text(text@, width as nat, pad));
    out
}

/// The padding character a `pad_left`/`pad_right` argument gives: the
/// first character of a string argument (a space for an empty string), and
/// a space when the argument is missing or not a string.
pub open spec fn pad_char_of(arg: Option<ValueModel>) -> char {
    match arg {
        Some(ValueModel::Str(s)) => if s.len() > 0 { s[0] } else { ' ' },
        _ => ' ',
    }
}

pub fn pad_char(arg: Option<&Value>) -> (r: char)
    ensures
        r == pad_char_of(
            match arg {
                Some(v) => Some(v.model()),
                None => None::<ValueModel>,
            },
        ),
{
    match arg {
        Some(Value::Str(s)) => {
            let c = chars_of(s.as_str());
            if c.len() > 0 { c[0] } else { ' ' }
        },
        _ => ' ',
    }
}

/// `s` written `n` times in a row.
pub open spec fn repeat_text(s: Seq<char>, n: nat) -> Seq<char>
    decreases n,
{
    if n == 0 {
        Seq::empty()
    } else {
        repeat_text(s, (n - 1) as nat) + s
    }
}

/// The error `repeat` raises for a result over the byte limit.
pub open spec fn repeat_limit_text() -> Seq<char> {
    "repeat: result would exceed the "@ + crate::text::decimal(MAX_STRING_REPEAT_BYTES as nat)
        + "-byte limit"@
}

/// `s.repeat(n)`: refused when the result would hold more than
/// `MAX_STRING_REPEAT_BYTES` bytes (the UTF-8 length of `text`, times `n`).
pub fn repeat_string(text: &str, n: usize) -> (r: Result<String, String>)
    ensures
        text.len() * n <= MAX_STRING_REPEAT_BYTES ==> (r matches Ok(t) && t@ == repeat_text(
            text@,
            n as nat,
        )),
        text.len() * n > MAX_STRING_REPEAT_BYTES ==> (r matches Err(m) && m@ == repeat_limit_text()),
{
    let bytes = text.len();
    let fits = match bytes.checked_mul(n) {
        Some(total) => total <= MAX_STRING_REPEAT_BYTES,
        None => false,
    };
    if !fits {
        let mut m = String::from_str("repeat: result would exceed the ");
        crate::text::push_decimal(&mut m, MAX_STRING_REPEAT_BYTES);
        m.append("-byte limit");
        return Err(m);
    }
    let mut out = String::new();
    let mut i: usize = 0;
    while i < n
        invariant
            i <= n,
            out@ == repeat_text(text@, i as nat),
        decreases n - i,
    {
        out.append(text);
        i = i + 1;
    }
    Ok(out)
}

// ── Indexing ─────────────────────────────────────────────────────────────────

/// The key of `value[key]`: a number, truncated toward zero and given as
/// its magnitude and sign (a negative fraction has magnitude 0 and is still
/// negative), or a string.
#[derive(Debug, Clone, PartialEq, Eq)]
pub enum IndexKey {
    Num { magnitude: usize, negative: bool },
    Str(String),
}

/// `n` nulls.
pub open spec fn nulls(n: nat) -> Seq<ValueModel>
    decreases n,
{
    if n == 0 {
        Seq::empty()
    } else {
        nulls((n - 1) as nat).push(ValueModel::Null)
    }
}

/// The position a numeric key names in an array of `len` items: a negative
/// key counts from the end (and may land before the start).
pub open spec fn key_position(len: nat, magnitude: nat, negative: bool) -> int {
    if negative {
        len - magnitude
    } else {
        magnitude as int
    }
}

/// The error for a write before the start of an array.
pub open spec fn out_of_bounds_text(magnitude: nat, len: nat) -> Seq<char> {
    "array index -"@ + crate::text::decimal(magnitude) + " out of bounds for length "@
        + crate::text::decimal(len)
}

/// What `slot[key] = val` makes of `slot`, or the error it raises (leaving
/// `slot` as it was):
/// - an array with a numeric key: a negative key counts from the end; a
///   position before the start is an error; a position inside the array is
///   replaced; a position past the end extends the array with nulls;
/// - an object with a string key: the key is bound to `val`;
/// - null: becomes an object holding the key (string key), or an array of
///   nulls ending in `val` at the key's position (a negative key counts as
///   0);
/// - anything else, or a key of the wrong kind: an error.
pub open spec fn assign_result(slot: ValueModel, key: IndexKey, val: ValueModel) -> Result<
    ValueModel,
    Seq<char>,
> {
    match slot {
        ValueModel::Array(items) => match key {
            IndexKey::Num { magnitude, negative } => {
                let p = key_position(items.len(), magnitude as nat, negative);
                if p < 0 {
                    Err(out_of_bounds_text(magnitude as nat, items.len()))
                } else if p < items.len() {
                    Ok(ValueModel::Array(items.update(p, val)))
                } else {
                    Ok(ValueModel::Array(items + nulls((p - items.len()) as nat) + seq![val]))
                }
            },
            IndexKey::Str(_) => Err("Cannot index assign to this type"@),
        },
        ValueModel::Object(es) => match key {
            IndexKey::Str(k) => Ok(ValueModel::Object(crate::value::assoc_set(es, k@, val))),
            IndexKey::Num { .. } => Err("Cannot index assign to this type"@),
        },
        ValueModel::Null => match key {
            IndexKey::Str(k) => Ok(ValueModel::Object(seq![(k@, val)])),
            IndexKey::Num { magnitude, negative } => Ok(ValueModel::Array(
                nulls(if negative { 0 } else { magnitude as nat }) + seq![val],
            )),
        },
        _ => Err("Cannot index assign to this type"@),
    }
}

fn push_nulls(items: &mut Vec<Value>, target: usize)
    requires
        old(items)@.len() <= target,
    ensures
        values_model(final(items)@) == values_model(old(items)@) + nulls(
            (target - old(items)@.len()) as nat,
        ),
{
    let ghost start = values_model(items@);
    let ghost n0 = items@.len();
    while items.len() < target
        invariant
            n0 <= items@.len() <= target,
            values_model(items@) == start + nulls((items@.len() - n0) as nat),
        decreases target - items@.len(),
    {
        let ghost k = (items@.len() - n0) as nat;
        let ghost mid = items@;
        items.push(Value::Null);
        assert(values_model(items@) =~= values_model(mid).push(ValueModel::Null));
        assert(nulls((k + 1) as nat) == nulls(k).push(ValueModel::Null));
        assert(values_model(items@) =~= start + nulls((items@.len() - n0) as nat));
    }
}

proof fn lemma_array_model(v: Value)
    requires
        v is Array,
    ensures
        v.model() == ValueModel::Array(values_model(v->Array_0@)),
{
    assert(v.model()->Array_0 =~= values_model(v->Array_0@));
}

/// Computes `slot[key] = val` on an owned value; on an error the value is
/// handed back as it was.
fn assign_owned(slot: Value, key: IndexKey, val: Value) -> (r: (Value, Result<(), Signal>))
    ensures
        match assign_result(slot.model(), key, val.model()) {
            Ok(m) => r.0.model() == m && r.1 is Ok,
            Err(e) => r.0.model() == slot.model() && (r.1 matches Err(Signal::Error(t)) && t@ == e),
        },
{
    let ghost vm = val.model();
    match slot {
        Value::Array(items) => {
            proof {
                lemma_array_model(Value::Array(items));
            }
            match key {
                IndexKey::Num { magnitude, negative } => {
                    let len = items.len();
                    let pos: usize = if negative {
                        if magnitude > len {
                            let mut m = String::from_str("array index -");
                            crate::text::push_decimal(&mut m, magnitude);
                            m.append(" out of bounds for length ");
                            crate::text::push_decimal(&mut m, len);
                            return (Value::Array(items), Err(Signal::Error(m)));
                        }
                        len - magnitude
                    } else {
                        magnitude
                    };
                    let mut items = items;
                    let ghost old_items = values_model(items@);
                    if pos < len {
                        items.set(pos, val);
                        assert(values_model(items@) =~= old_items.update(pos as int, vm));
                    } else {
                        push_nulls(&mut items, pos);
                        let ghost mid = items@;
                        items.push(val);
                        assert(values_model(items@) =~= values_model(mid).push(vm));
                        assert(values_model(items@) =~= old_items + nulls((pos - len) as nat) + seq![vm]);
                    }
                    let r = Value::Array(items);
                    proof {
                        lemma_array_model(r);
                    }
                    (r, Ok(()))
                },
                IndexKey::Str(_) => (
                    Value::Array(items),
                    Err(Signal::Error(String::from_str("Cannot index assign to this type"))),
                ),
            }
        },
        Value::Object(m) => match key {
            IndexKey::Str(k) => {
                let mut m = m;
                m.insert(k, val);
                (Value::Object(m), Ok(()))
            },
            IndexKey::Num { .. } => (
                Value::Object(m),
                Err(Signal::Error(String::from_str("Cannot index assign to this type"))),
            ),
        },
        Value::Null => match key {
            IndexKey::Str(k) => {
                let mut m = crate::value::ObjectMap::new();
                let ghost kv = k@;
                m.insert(k, val);
                proof {
                    crate::value::lemma_assoc_set_fresh(Seq::empty(), kv, vm);
                }
                assert(m.model() =~= seq![(kv, vm)]);
                (Value::Object(m), Ok(()))
            },
            IndexKey::Num { magnitude, negative } => {
                let n = if negative { 0 } else { magnitude };
                let mut items: Vec<Value> = Vec::new();
                assert(values_model(items@) =~= Seq::<ValueModel>::empty());
                push_nulls(&mut items, n);
                let ghost mid = items@;
                items.push(val);
                assert(values_model(items@) =~= values_model(mid).push(vm));
                assert(values_model(items@) =~= nulls(n as nat) + seq![vm]);
                let r = Value::Array(items);
                proof {
                    lemma_array_model(r);
                }
                (r, Ok(()))
            },
        },
        other => (other, Err(Signal::Error(String::from_str("Cannot index assign to this type")))),
    }
}

/// `slot[key] = val`, in place: see `assign_result`. On an error `slot` is
/// left as it was.
pub fn assign_index(slot: &mut Value, key: IndexKey, val: Value) -> (r: Result<(), Signal>)
    ensures
        match assign_result(old(slot).model(), key, val.model()) {
            Ok(m) => final(slot).model() == m && r is Ok,
            Err(e) => final(slot).model() == old(slot).model() && (r matches Err(Signal::Error(t))
                && t@ == e),
        },
{
    let mut owned = Value::Null;
    std::mem::swap(&mut owned, slot);
    let (v, r) = assign_owned(owned, key, val);
    *slot = v;
    r
}

/// What reading `v[key]` gives: an array item (a negative key counting from
/// the end), a one-character string of a string, an object's field, and
/// null when there is none or the kinds do not fit.
pub open spec fn index_result(v: ValueModel, key: IndexKey) -> ValueModel {
    match (v, key) {
        (ValueModel::Array(items), IndexKey::Num { magnitude, negative }) => {
            let p = key_position(items.len(), magnitude as nat, negative);
            if 0 <= p < items.len() { items[p] } else { ValueModel::Null }
        },
        (ValueModel::Str(s), IndexKey::Num { magnitude, negative }) => {
            let p = key_position(s.len(), magnitude as nat, negative);
            if 0 <= p < s.len() { ValueModel::Str(seq![s[p]]) } else { ValueModel::Null }
        },
        (ValueModel::Object(es), IndexKey::Str(k)) => match crate::value::assoc_get(es, k@) {
            Some(x) => x,
            None => ValueModel::Null,
        },
        _ => ValueModel::Null,
    }
}

fn position_in(len: usize, magnitude: usize, negative: bool) -> (r: Option<usize>)
    ensures
        match r {
            Some(p) => p == key_position(len as nat, magnitude as nat, negative) && p < len,
            None => !(0 <= key_position(len as nat, magnitude as nat, negative) < len),
        },
{
    if negative {
        if magnitude > len || magnitude == 0 {
            None
        } else {
            Some(len - magnitude)
        }
    } else if magnitude < len {
        Some(magnitude)
    } else {
        None
    }
}

/// Reads `v[key]`: see `index_result`.
pub fn index_value(v: &Value, key: &IndexKey) -> (r: Value)
    ensures
        r.model() == index_result(v.model(), *key),
{
    match (v, key) {
        (Value::Array(items), IndexKey::Num { magnitude, negative }) => {
            assert(v.model()->Array_0 =~= values_model(items@));
            match position_in(items.len(), *magnitude, *negative) {
                Some(p) => items[p].deep_copy(),
                None => Value::Null,
            }
        },
        (Value::Str(s), IndexKey::Num { magnitude, negative }) => {
            let c = chars_of(s.as_str());
            match position_in(c.len(), *magnitude, *negative) {
                Some(p) => {
                    let mut one = String::new();
                    string_push(&mut one, c[p]);
                    Value::Str(one)
                },
                None => Value::Null,
            }
        },
        (Value::Object(m), IndexKey::Str(k)) => match m.get(k.as_str()) {
            Some(x) => x.deep_copy(),
            None => Value::Null,
        },
        _ => Value::Null,
    }
}

/// The string method `char_at`: the character at a position of `s` as a
/// one-character string (a negative position counting from the end), or
/// null when the position lies outside `s`.
pub fn char_at(s: &str, key: &IndexKey) -> (r: Value)
    ensures
        r.model() == index_result(ValueModel::Str(s@), *key),
{
    match key {
        IndexKey::Num { magnitude, negative } => {
            let c = chars_of(s);
            match position_in(c.len(), *magnitude, *negative) {
                Some(p) => {
                    let mut one = String::new();
                    string_push(&mut one, c[p]);
                    Value::Str(one)
                },
                None => Value::Null,
            }
        },
        IndexKey::Str(_) => Value::Null,
    }
}

/// `nulls(n)` is `n` nulls long.
proof fn lemma_nulls_len(n: nat)
    ensures
        nulls(n).len() == n,
    decreases n,
{
    if n > 0 {
        lemma_nulls_len((n - 1) as nat);
    }
}

/// A write that a read with the same key can see back: any key but a
/// negative one into null (which lands at the start) or the negative key
/// zero (which appends).
pub open spec fn key_reads_back(slot: ValueModel, key: IndexKey) -> bool {
    match key {
        IndexKey::Num { magnitude, negative } => !(negative && (slot is Null || magnitude == 0)),
        IndexKey::Str(_) => true,
    }
}

/// Reading a key right after a successful write to it gives the value
/// written.
pub proof fn lemma_read_after_assign(slot: ValueModel, key: IndexKey, val: ValueModel)
    requires
        assign_result(slot, key, val) is Ok,
        key_reads_back(slot, key),
    ensures
        index_result(assign_result(slot, key, val)->Ok_0, key) == val,
{
    match (slot, key) {
        (ValueModel::Array(items), IndexKey::Num { magnitude, negative }) => {
            let p = key_position(items.len(), magnitude as nat, negative);
            if p >= items.len() {
                lemma_nulls_len((p - items.len()) as nat);
                let grown = items + nulls((p - items.len()) as nat) + seq![val];
                assert(grown.len() == p + 1);
                assert(grown[p] == val);
            }
        },
        (ValueModel::Object(es), IndexKey::Str(k)) => {
            crate::value::lemma_assoc_get_set_same(es, k@, val);
        },
        (ValueModel::Null, IndexKey::Str(k)) => {
            crate::value::lemma_assoc_set_fresh(Seq::empty(), k@, val);
            crate::value::lemma_assoc_get_set_same(Seq::empty(), k@, val);
            assert(seq![(k@, val)] =~= Seq::<(Seq<char>, ValueModel)>::empty().push((k@, val)));
        },
        (ValueModel::Null, IndexKey::Num { magnitude, negative }) => {
            lemma_nulls_len(magnitude as nat);
            let made = nulls(magnitude as nat) + seq![val];
            assert(made[magnitude as int] == val);
        },
        _ => {},
    }
}

/// A write to a position inside an array replaces that item and leaves
/// every other item as it was.
pub proof fn lemma_assign_keeps_other_items(items: Seq<ValueModel>, magnitude: usize, negative: bool, val: ValueModel, j: usize)
    requires
        0 <= key_position(items.len(), magnitude as nat, negative) < items.len(),
        0 <= j < items.len(),
        j != key_position(items.len(), magnitude as nat, negative),
    ensures
        assign_result(ValueModel::Array(items), IndexKey::Num { magnitude, negative }, val)->Ok_0
            == ValueModel::Array(items.update(key_position(items.len(), magnitude as nat, negative), val)),
        index_result(
            assign_result(ValueModel::Array(items), IndexKey::Num { magnitude, negative }, val)->Ok_0,
            IndexKey::Num { magnitude: j, negative: false },
        ) == items[j as int],
{
}

} // verus!
