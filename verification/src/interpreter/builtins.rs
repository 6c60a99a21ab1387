//! The built-in functions and methods of GX that only reshape values:
//! type tests, string and array helpers, object edits, URL splitting,
//! templates, and regular-expression matching. Each is a function of its
//! arguments alone.
use vstd::prelude::*;
use crate::interpreter::util::{contains_seq, has_prefix, occurs_at, occurs_at_exec, replace_all};
use crate::interpreter::{is_ok_false, values_model, Signal};
use crate::text::{
    char_is_whitespace, char_to_uppercase, lines_view, spec_char_to_uppercase, split_lines,
    str_eq, text_lines, chars_of, is_alphanumeric, is_ws, spec_is_alphanumeric, spec_to_lowercase,
    spec_to_uppercase, str_to_lowercase, str_to_uppercase, string_from_chars, string_from_range,
    string_push, trim_end_where, trim_start_where, ws_pred,
};
use crate::value::{assoc_get, assoc_remove, assoc_set, ObjectMap, Value, ValueModel};

verus! {

// ── Arguments ────────────────────────────────────────────────────────────────

/// Argument `i`, or null when there are fewer arguments.
pub open spec fn arg_or_null(args: Seq<ValueModel>, i: int) -> ValueModel {
    if 0 <= i < args.len() {
        args[i]
    } else {
        ValueModel::Null
    }
}

/// The text of argument `i` when it is a string; otherwise the empty text.
pub open spec fn str_arg(args: Seq<ValueModel>, i: int) -> Seq<char> {
    match arg_or_null(args, i) {
        ValueModel::Str(s) => s,
        _ => Seq::empty(),
    }
}

fn arg_copy(args: &[Value], i: usize) -> (r: Value)
    ensures
        r.model() == arg_or_null(values_model(args@), i as int),
{
    if i < args.len() {
        args[i].deep_copy()
    } else {
        Value::Null
    }
}

fn text_arg(args: &[Value], i: usize) -> (r: Vec<char>)
    ensures
        r@ == str_arg(values_model(args@), i as int),
{
    if i < args.len() {
        match &args[i] {
            Value::Str(s) => chars_of(s.as_str()),
            _ => Vec::new(),
        }
    } else {
        Vec::new()
    }
}

pub(crate) fn str_value(v: &Vec<char>) -> (r: Value)
    ensures
        r.model() == ValueModel::Str(v@),
{
    Value::Str(string_from_chars(v))
}

// ── Strings ──────────────────────────────────────────────────────────────────

/// Whether `s` ends with `p`.
pub open spec fn has_suffix(s: Seq<char>, p: Seq<char>) -> bool {
    p.len() <= s.len() && s.skip(s.len() - p.len()) == p
}

fn prefix_of(s: &Vec<char>, p: &Vec<char>) -> (r: bool)
    ensures
        r == has_prefix(s@, p@),
{
    if p.len() > s.len() {
        return false;
    }
    let mut i: usize = 0;
    while i < p.len()
        invariant
            p@.len() <= s@.len(),
            i <= p@.len(),
            forall|j: int| 0 <= j < i ==> s@[j] == p@[j],
        decreases p@.len() - i,
    {
        if s[i] != p[i] {
            assert(s@.take(p@.len() as int)[i as int] != p@[i as int]);
            return false;
        }
        i = i + 1;
    }
    assert(s@.take(p@.len() as int) =~= p@);
    true
}

fn suffix_of(s: &Vec<char>, p: &Vec<char>) -> (r: bool)
    ensures
        r == has_suffix(s@, p@),
{
    if p.len() > s.len() {
        return false;
    }
    let n = s.len();
    let off = n - p.len();
    let mut i: usize = 0;
    while i < p.len()
        invariant
            n == s@.len(),
            off + p@.len() == s@.len(),
            i <= p@.len(),
            forall|j: int| 0 <= j < i ==> s@[off + j] == p@[j],
        decreases p@.len() - i,
    {
        if s[off + i] != p[i] {
            assert(s@.skip(off as int)[i as int] != p@[i as int]);
            return false;
        }
        i = i + 1;
    }
    assert(s@.skip(off as int) =~= p@);
    true
}

/// What `str::replace` gives: with an empty pattern, `rep` is put before
/// every character and at the end.
pub open spec fn replace_str(s: Seq<char>, pat: Seq<char>, rep: Seq<char>) -> Seq<char> {
    if pat.len() == 0 {
        rep + interleave_after(s, rep)
    } else {
        replace_all(s, pat, rep)
    }
}

/// Each character of `s` followed by `rep`.
pub open spec fn interleave_after(s: Seq<char>, rep: Seq<char>) -> Seq<char>
    decreases s.len(),
{
    if s.len() == 0 {
        Seq::empty()
    } else {
        seq![s[0]] + rep + interleave_after(s.drop_first(), rep)
    }
}

fn push_all(out: &mut Vec<char>, v: &Vec<char>)
    ensures
        final(out)@ == old(out)@ + v@,
{
    let mut i: usize = 0;
    while i < v.len()
        invariant
            i <= v@.len(),
            out@ == old(out)@ + v@.subrange(0, i as int),
        decreases v@.len() - i,
    {
        out.push(v[i]);
        i = i + 1;
        assert(out@ =~= old(out)@ + v@.subrange(0, i as int));
    }
    assert(v@.subrange(0, v@.len() as int) =~= v@);
}

fn replace_chars(s: &Vec<char>, pat: &Vec<char>, rep: &Vec<char>) -> (r: Vec<char>)
    ensures
        r@ == replace_str(s@, pat@, rep@),
{
    if pat.len() == 0 {
        let mut out: Vec<char> = Vec::new();
        push_all(&mut out, rep);
        let mut i: usize = 0;
        assert(s@.skip(0) =~= s@);
        while i < s.len()
            invariant
                i <= s@.len(),
                out@ + interleave_after(s@.skip(i as int), rep@) == rep@ + interleave_after(s@, rep@),
            decreases s@.len() - i,
        {
            let ghost before = out@;
            let ghost t = s@.skip(i as int);
            out.push(s[i]);
            push_all(&mut out, rep);
            assert(t.drop_first() =~= s@.skip(i + 1));
            assert(out@ + interleave_after(s@.skip(i + 1), rep@) =~= before + (seq![t[0]] + rep@
                + interleave_after(t.drop_first(), rep@)));
            i = i + 1;
        }
        assert(s@.skip(i as int) =~= Seq::<char>::empty());
        assert(out@ + Seq::<char>::empty() =~= out@);
        out
    } else {
        let mut out: Vec<char> = Vec::new();
        let mut i: usize = 0;
        assert(s@.skip(0) =~= s@);
        while i < s.len()
            invariant
                pat@.len() > 0,
                i <= s@.len(),
                out@ + replace_all(s@.skip(i as int), pat@, rep@) == replace_all(s@, pat@, rep@),
            decreases s@.len() - i,
        {
            let ghost t = s@.skip(i as int);
            let ghost before = out@;
            let hit = occurs_at_exec(s, pat, i);
            if hit {
                assert(t.subrange(0, pat@.len() as int) =~= s@.subrange(i as int, i + pat@.len()));
                push_all(&mut out, rep);
                assert(t.skip(pat@.len() as int) =~= s@.skip(i + pat@.len()));
                i = i + pat.len();
            } else {
                if pat.len() <= s.len() - i {
                    assert(t.subrange(0, pat@.len() as int) =~= s@.subrange(i as int, i + pat@.len()));
                }
                out.push(s[i]);
                assert(t.drop_first() =~= s@.skip(i + 1));
                assert(out@ + replace_all(s@.skip(i + 1), pat@, rep@) =~= before + (seq![t[0]]
                    + replace_all(t.drop_first(), pat@, rep@)));
                i = i + 1;
            }
        }
        assert(s@.skip(i as int) =~= Seq::<char>::empty());
        assert(out@ + Seq::<char>::empty() =~= out@);
        out
    }
}

/// The pieces of `s` between occurrences of `delim` (what `str::split`
/// yields): with an empty delimiter, an empty piece, each character, and
/// an empty piece.
pub open spec fn split_str(s: Seq<char>, delim: Seq<char>) -> Seq<Seq<char>> {
    if delim.len() == 0 {
        seq![Seq::<char>::empty()] + Seq::new(s.len(), |i: int| seq![s[i]]) + seq![
            Seq::<char>::empty(),
        ]
    } else {
        split_from(s, delim, Seq::empty())
    }
}

/// Splitting `s` on the non-empty `delim`, the current piece having begun
/// with `cur`.
pub open spec fn split_from(s: Seq<char>, delim: Seq<char>, cur: Seq<char>) -> Seq<Seq<char>>
    decreases s.len(),
{
    if s.len() == 0 {
        seq![cur]
    } else if delim.len() > 0 && crate::interpreter::util::occurs_at(s, delim, 0) {
        seq![cur] + split_from(s.skip(delim.len() as int), delim, Seq::empty())
    } else {
        split_from(s.drop_first(), delim, cur.push(s[0]))
    }
}

/// The string values of `parts`.
pub open spec fn str_values(parts: Seq<Seq<char>>) -> Seq<ValueModel> {
    parts.map_values(|p: Seq<char>| ValueModel::Str(p))
}

proof fn lemma_str_values_push(p: Seq<Seq<char>>, x: Seq<char>)
    ensures
        str_values(p.push(x)) == str_values(p).push(ValueModel::Str(x)),
{
    assert(str_values(p.push(x)) =~= str_values(p).push(ValueModel::Str(x)));
}

fn split_values(s: &Vec<char>, delim: &Vec<char>) -> (r: Vec<Value>)
    ensures
        values_model(r@) == str_values(split_str(s@, delim@)),
{
    let mut out: Vec<Value> = Vec::new();
    if delim.len() == 0 {
        let ghost mut pieces: Seq<Seq<char>> = seq![Seq::<char>::empty()];
        out.push(Value::Str(String::new()));
        assert(values_model(out@) =~= str_values(pieces));
        let mut i: usize = 0;
        while i < s.len()
            invariant
                i <= s@.len(),
                pieces == seq![Seq::<char>::empty()] + Seq::new(i as nat, |j: int| seq![s@[j]]),
                values_model(out@) == str_values(pieces),
            decreases s@.len() - i,
        {
            let ghost before = values_model(out@);
            let mut one = String::new();
            string_push(&mut one, s[i]);
            out.push(Value::Str(one));
            proof {
                lemma_str_values_push(pieces, seq![s@[i as int]]);
                pieces = pieces.push(seq![s@[i as int]]);
                assert(values_model(out@) =~= before.push(ValueModel::Str(seq![s@[i as int]])));
                assert(pieces =~= seq![Seq::<char>::empty()] + Seq::new((i + 1) as nat, |j: int| seq![s@[j]]));
            }
            i = i + 1;
        }
        let ghost before = values_model(out@);
        out.push(Value::Str(String::new()));
        proof {
            lemma_str_values_push(pieces, Seq::<char>::empty());
            assert(values_model(out@) =~= before.push(ValueModel::Str(Seq::<char>::empty())));
            assert(pieces.push(Seq::<char>::empty()) =~= split_str(s@, delim@));
        }
        return out;
    }
    let mut cur: Vec<char> = Vec::new();
    let mut i: usize = 0;
    assert(s@.skip(0) =~= s@);
    while i < s.len()
        invariant
            delim@.len() > 0,
            i <= s@.len(),
            str_values(split_str(s@, delim@)) == values_model(out@) + str_values(
                split_from(s@.skip(i as int), delim@, cur@),
            ),
        decreases s@.len() - i,
    {
        let ghost t = s@.skip(i as int);
        let hit = occurs_at_exec(s, delim, i);
        if hit {
            assert(t.subrange(0, delim@.len() as int) =~= s@.subrange(i as int, i + delim@.len()));
            let ghost before = values_model(out@);
            let piece = str_value(&cur);
            out.push(piece);
            assert(values_model(out@) =~= before.push(ValueModel::Str(cur@)));
            assert(t.skip(delim@.len() as int) =~= s@.skip(i + delim@.len()));
            assert(str_values(seq![cur@] + split_from(t.skip(delim@.len() as int), delim@, Seq::empty()))
                =~= seq![ValueModel::Str(cur@)] + str_values(split_from(t.skip(delim@.len() as int), delim@, Seq::empty())));
            assert(before + (seq![ValueModel::Str(cur@)] + str_values(split_from(t.skip(delim@.len() as int), delim@, Seq::empty())))
                =~= before.push(ValueModel::Str(cur@)) + str_values(split_from(t.skip(delim@.len() as int), delim@, Seq::empty())));
            cur = Vec::new();
            i = i + delim.len();
        } else {
            if delim.len() <= s.len() - i {
                assert(t.subrange(0, delim@.len() as int) =~= s@.subrange(i as int, i + delim@.len()));
            }
            cur.push(s[i]);
            assert(t.drop_first() =~= s@.skip(i + 1));
            i = i + 1;
        }
    }
    assert(s@.skip(i as int) =~= Seq::<char>::empty());
    let ghost before = values_model(out@);
    let piece = str_value(&cur);
    out.push(piece);
    assert(values_model(out@) =~= before.push(ValueModel::Str(cur@)));
    assert(str_values(seq![cur@]) =~= seq![ValueModel::Str(cur@)]);
    out
}

/// `s` without its leading whitespace.
fn trim_start_chars(s: &Vec<char>) -> (r: Vec<char>)
    ensures
        r@ == trim_start_where(s@, ws_pred()),
{
    let mut a: usize = 0;
    assert(s@.subrange(0, s@.len() as int) =~= s@);
    while a < s.len() && char_is_whitespace(s[a])
        invariant
            a <= s@.len(),
            trim_start_where(s@.subrange(a as int, s@.len() as int), ws_pred()) == trim_start_where(
                s@,
                ws_pred(),
            ),
        decreases s@.len() - a,
    {
        assert(s@.subrange(a as int, s@.len() as int).drop_first() =~= s@.subrange(a + 1, s@.len() as int));
        a = a + 1;
    }
    let mut out: Vec<char> = Vec::new();
    let mut i = a;
    while i < s.len()
        invariant
            a <= i <= s@.len(),
            out@ == s@.subrange(a as int, i as int),
        decreases s@.len() - i,
    {
        out.push(s[i]);
        i = i + 1;
        assert(out@ =~= s@.subrange(a as int, i as int));
    }
    out
}

/// `s` without its trailing whitespace.
fn trim_end_chars(s: &Vec<char>) -> (r: Vec<char>)
    ensures
        r@ == trim_end_where(s@, ws_pred()),
{
    let mut b: usize = s.len();
    assert(s@.subrange(0, s@.len() as int) =~= s@);
    while b > 0 && char_is_whitespace(s[b - 1])
        invariant
            b <= s@.len(),
            trim_end_where(s@.subrange(0, b as int), ws_pred()) == trim_end_where(s@, ws_pred()),
        decreases b,
    {
        assert(s@.subrange(0, b as int).drop_last() =~= s@.subrange(0, b - 1));
        b = b - 1;
    }
    let mut out: Vec<char> = Vec::new();
    let mut i: usize = 0;
    while i < b
        invariant
            i <= b <= s@.len(),
            out@ == s@.subrange(0, i as int),
        decreases b - i,
    {
        out.push(s[i]);
        i = i + 1;
        assert(out@ =~= s@.subrange(0, i as int));
    }
    out
}

/// `char::is_ascii_alphabetic`.
pub open spec fn is_ascii_alpha(c: char) -> bool {
    ('a' <= c <= 'z') || ('A' <= c <= 'Z')
}

/// The uppercase hexadecimal digits of `n`.
pub open spec fn hex(n: nat) -> Seq<char>
    decreases n,
{
    if n < 16 {
        seq![hex_digit(n)]
    } else {
        hex(n / 16).push(hex_digit(n % 16))
    }
}

pub open spec fn hex_digit(d: nat) -> char {
    if d < 10 {
        ('0' as nat + d) as char
    } else {
        ('A' as nat + (d - 10)) as char
    }
}

/// `n` in uppercase hexadecimal, at least two digits wide (`{:02X}`).
pub open spec fn hex2(n: nat) -> Seq<char> {
    if n < 16 {
        seq!['0'] + hex(n)
    } else {
        hex(n)
    }
}

fn hex_digit_exec(d: u32) -> (c: char)
    requires
        d < 16,
    ensures
        c == hex_digit(d as nat),
{
    if d < 10 {
        ((48 + d) as u8) as char
    } else {
        ((55 + d) as u8) as char
    }
}

fn push_hex(out: &mut Vec<char>, n: u32)
    ensures
        final(out)@ == old(out)@ + hex(n as nat),
    decreases n,
{
    if n >= 16 {
        push_hex(out, n / 16);
    }
    out.push(hex_digit_exec(n % 16));
    assert(out@ =~= old(out)@ + hex(n as nat));
}

/// Whether `url_encode` keeps `c` as it is: alphanumeric, or one of
/// `-_.~`.
pub open spec fn url_safe(c: char) -> bool {
    spec_is_alphanumeric(c) || c == '-' || c == '_' || c == '.' || c == '~'
}

/// `s` with every unsafe character written as `%` and its code point in
/// hexadecimal.
pub open spec fn url_encode_text(s: Seq<char>) -> Seq<char>
    decreases s.len(),
{
    if s.len() == 0 {
        Seq::empty()
    } else {
        let c = s.last();
        url_encode_text(s.drop_last()) + if url_safe(c) {
            seq![c]
        } else {
            seq!['%'] + hex2((c as u32) as nat)
        }
    }
}

fn url_encode_chars(s: &Vec<char>) -> (r: Vec<char>)
    ensures
        r@ == url_encode_text(s@),
{
    let mut out: Vec<char> = Vec::new();
    let mut i: usize = 0;
    while i < s.len()
        invariant
            i <= s@.len(),
            out@ == url_encode_text(s@.subrange(0, i as int)),
        decreases s@.len() - i,
    {
        let c = s[i];
        let ghost before = out@;
        assert(s@.subrange(0, i + 1).drop_last() =~= s@.subrange(0, i as int));
        if is_alphanumeric(c) || c == '-' || c == '_' || c == '.' || c == '~' {
            out.push(c);
        } else {
            out.push('%');
            let n = c as u32;
            if n < 16 {
                out.push('0');
            }
            push_hex(&mut out, n);
        }
        assert(s@.subrange(0, i + 1).last() == c);
        i = i + 1;
        assert(out@ =~= url_encode_text(s@.subrange(0, i as int)));
    }
    assert(s@.subrange(0, s@.len() as int) =~= s@);
    out
}

/// The HTML escape of one character.
pub open spec fn html_escape_char(c: char) -> Seq<char> {
    if c == '&' {
        "&amp;"@
    } else if c == '<' {
        "&lt;"@
    } else if c == '>' {
        "&gt;"@
    } else if c == '"' {
        "&quot;"@
    } else if c == '\'' {
        "&#39;"@
    } else {
        seq![c]
    }
}

/// `s` with `& < > " '` escaped as HTML entities.
pub open spec fn html_escape_text(s: Seq<char>) -> Seq<char>
    decreases s.len(),
{
    if s.len() == 0 {
        Seq::empty()
    } else {
        html_escape_text(s.drop_last()) + html_escape_char(s.last())
    }
}

fn html_escape_chars(s: &Vec<char>) -> (r: Vec<char>)
    ensures
        r@ == html_escape_text(s@),
{
    let mut out: Vec<char> = Vec::new();
    let mut i: usize = 0;
    while i < s.len()
        invariant
            i <= s@.len(),
            out@ == html_escape_text(s@.subrange(0, i as int)),
        decreases s@.len() - i,
    {
        let c = s[i];
        assert(s@.subrange(0, i + 1).drop_last() =~= s@.subrange(0, i as int));
        let e = if c == '&' {
            chars_of("&amp;")
        } else if c == '<' {
            chars_of("&lt;")
        } else if c == '>' {
            chars_of("&gt;")
        } else if c == '"' {
            chars_of("&quot;")
        } else if c == '\'' {
            chars_of("&#39;")
        } else {
            let mut one: Vec<char> = Vec::new();
            one.push(c);
            assert(one@ =~= seq![c]);
            one
        };
        push_all(&mut out, &e);
        i = i + 1;
        assert(out@ =~= html_escape_text(s@.subrange(0, i as int)));
    }
    assert(s@.subrange(0, s@.len() as int) =~= s@);
    out
}

/// `s` with the entities `&amp; &lt; &gt; &quot; &#39;` decoded, one
/// after the other in this order.
pub open spec fn html_unescape_text(s: Seq<char>) -> Seq<char> {
    let a = replace_all(s, "&amp;"@, "&"@);
    let b = replace_all(a, "&lt;"@, "<"@);
    let c = replace_all(b, "&gt;"@, ">"@);
    let d = replace_all(c, "&quot;"@, "\""@);
    replace_all(d, "&#39;"@, "'"@)
}

fn replace_lit(s: &Vec<char>, pat: &str, rep: &str) -> (r: Vec<char>)
    requires
        pat@.len() > 0,
    ensures
        r@ == replace_all(s@, pat@, rep@),
{
    let p = chars_of(pat);
    let q = chars_of(rep);
    replace_chars(s, &p, &q)
}

fn html_unescape_chars(s: &Vec<char>) -> (r: Vec<char>)
    ensures
        r@ == html_unescape_text(s@),
{
    proof {
        reveal_strlit("&amp;");
        reveal_strlit("&lt;");
        reveal_strlit("&gt;");
        reveal_strlit("&quot;");
        reveal_strlit("&#39;");
    }
    let a = replace_lit(s, "&amp;", "&");
    let b = replace_lit(&a, "&lt;", "<");
    let c = replace_lit(&b, "&gt;", ">");
    let d = replace_lit(&c, "&quot;", "\"");
    replace_lit(&d, "&#39;", "'")
}

// ── Arrays and objects ───────────────────────────────────────────────────────

/// One level of nesting removed: the items of each array item in place of
/// it, other items kept.
pub open spec fn flatten_one(items: Seq<ValueModel>) -> Seq<ValueModel>
    decreases items.len(),
{
    if items.len() == 0 {
        Seq::empty()
    } else {
        flatten_one(items.drop_last()) + match items.last() {
            ValueModel::Array(inner) => inner,
            other => seq![other],
        }
    }
}

fn flatten_values(items: &Vec<Value>) -> (r: Vec<Value>)
    ensures
        values_model(r@) == flatten_one(values_model(items@)),
{
    let mut out: Vec<Value> = Vec::new();
    let mut i: usize = 0;
    while i < items.len()
        invariant
            i <= items@.len(),
            values_model(out@) == flatten_one(values_model(items@.subrange(0, i as int))),
        decreases items@.len() - i,
    {
        let ghost before = values_model(out@);
        assert(values_model(items@.subrange(0, i + 1)).drop_last() =~= values_model(
            items@.subrange(0, i as int),
        ));
        match &items[i] {
            Value::Array(inner) => {
                let mut k: usize = 0;
                while k < inner.len()
                    invariant
                        k <= inner@.len(),
                        values_model(out@) == before + values_model(inner@).subrange(0, k as int),
                    decreases inner@.len() - k,
                {
                    let c = inner[k].deep_copy();
                    let ghost mid = out@;
                    out.push(c);
                    assert(values_model(out@) =~= values_model(mid).push(c.model()));
                    assert(values_model(inner@).subrange(0, k + 1) =~= values_model(inner@).subrange(0, k as int).push(inner@[k as int].model()));
                    k = k + 1;
                    assert(values_model(out@) =~= before + values_model(inner@).subrange(0, k as int));
                }
                assert(values_model(inner@).subrange(0, inner@.len() as int) =~= values_model(inner@));
                assert(items@[i as int].model()->Array_0 =~= values_model(inner@));
            },
            other => {
                let c = other.deep_copy();
                let ghost mid = out@;
                out.push(c);
                assert(values_model(out@) =~= values_model(mid).push(c.model()));
                assert(values_model(out@) =~= before + seq![c.model()]);
            },
        }
        i = i + 1;
    }
    assert(items@.subrange(0, items@.len() as int) =~= items@);
    out
}

pub(crate) fn copy_all(items: &Vec<Value>) -> (r: Vec<Value>)
    ensures
        values_model(r@) == values_model(items@),
{
    let mut out: Vec<Value> = Vec::new();
    let mut i: usize = 0;
    while i < items.len()
        invariant
            i <= items@.len(),
            values_model(out@) == values_model(items@).subrange(0, i as int),
        decreases items@.len() - i,
    {
        let c = items[i].deep_copy();
        let ghost mid = out@;
        out.push(c);
        assert(values_model(out@) =~= values_model(mid).push(c.model()));
        assert(values_model(items@).subrange(0, i + 1) =~= values_model(items@).subrange(0, i as int).push(items@[i as int].model()));
        i = i + 1;
        assert(values_model(out@) =~= values_model(items@).subrange(0, i as int));
    }
    assert(values_model(items@).subrange(0, items@.len() as int) =~= values_model(items@));
    out
}

/// Shallow merge of the object arguments, left to right: each key takes
/// the value of the last object that has it; other arguments are ignored.
pub open spec fn merge_objects(args: Seq<ValueModel>) -> Seq<(Seq<char>, ValueModel)>
    decreases args.len(),
{
    if args.len() == 0 {
        Seq::empty()
    } else {
        let acc = merge_objects(args.drop_last());
        match args.last() {
            ValueModel::Object(es) => set_all(acc, es),
            _ => acc,
        }
    }
}

/// `acc` with each entry of `es` written in turn.
pub open spec fn set_all(
    acc: Seq<(Seq<char>, ValueModel)>,
    es: Seq<(Seq<char>, ValueModel)>,
) -> Seq<(Seq<char>, ValueModel)>
    decreases es.len(),
{
    if es.len() == 0 {
        acc
    } else {
        assoc_set(set_all(acc, es.drop_last()), es.last().0, es.last().1)
    }
}

fn merge_values(args: &[Value]) -> (r: ObjectMap)
    ensures
        r.model() == merge_objects(values_model(args@)),
{
    let mut out = ObjectMap::new();
    let mut i: usize = 0;
    while i < args.len()
        invariant
            i <= args@.len(),
            out.model() == merge_objects(values_model(args@).subrange(0, i as int)),
        decreases args@.len() - i,
    {
        let ghost acc = out.model();
        assert(values_model(args@).subrange(0, i + 1).drop_last() =~= values_model(args@).subrange(
            0,
            i as int,
        ));
        match &args[i] {
            Value::Object(m) => {
                let mut k: usize = 0;
                while k < m.len()
                    invariant
                        k <= m.model().len(),
                        out.model() == set_all(acc, m.model().subrange(0, k as int)),
                    decreases m.model().len() - k,
                {
                    let (key, val) = m.entry(k);
                    let kc = key.clone();
                    let vc = val.deep_copy();
                    out.insert(kc, vc);
                    assert(m.model().subrange(0, k + 1).drop_last() =~= m.model().subrange(0, k as int));
                    k = k + 1;
                }
                assert(m.model().subrange(0, m.model().len() as int) =~= m.model());
            },
            _ => {},
        }
        i = i + 1;
    }
    assert(values_model(args@).subrange(0, args@.len() as int) =~= values_model(args@));
    out
}

/// The message `unwrap` raises for a `{ ok: false, ... }` value: its
/// `error` text (or "operation failed"), followed by its `error_kind` in
/// parentheses when that is a string.
pub open spec fn unwrap_message(es: Seq<(Seq<char>, ValueModel)>) -> Seq<char> {
    let error = match assoc_get(es, "error"@) {
        Some(ValueModel::Str(e)) => e,
        _ => "operation failed"@,
    };
    match assoc_get(es, "error_kind"@) {
        Some(ValueModel::Str(k)) => error + " ("@ + k + ")"@,
        _ => error,
    }
}

// ── Sorting keys ─────────────────────────────────────────────────────────────

/// Whether `a` comes before `b` or equals it, comparing character by
/// character (the order of `String`, whose UTF-8 bytes order as the code
/// points do).
pub open spec fn lex_le(a: Seq<char>, b: Seq<char>) -> bool
    decreases a.len(),
{
    if a.len() == 0 {
        true
    } else if b.len() == 0 {
        false
    } else if a[0] != b[0] {
        a[0] < b[0]
    } else {
        lex_le(a.drop_first(), b.drop_first())
    }
}

/// `s` with `x` inserted after every element that comes before it or
/// equals it, scanning from the end (insertion into a sorted sequence).
pub open spec fn insert_sorted(s: Seq<Seq<char>>, x: Seq<char>) -> Seq<Seq<char>>
    decreases s.len(),
{
    if s.len() == 0 {
        seq![x]
    } else if lex_le(s.last(), x) {
        s.push(x)
    } else {
        insert_sorted(s.drop_last(), x).push(s.last())
    }
}

/// `ks` sorted by insertion, in string order.
pub open spec fn sort_texts(ks: Seq<Seq<char>>) -> Seq<Seq<char>>
    decreases ks.len(),
{
    if ks.len() == 0 {
        Seq::empty()
    } else {
        insert_sorted(sort_texts(ks.drop_last()), ks.last())
    }
}

/// The keys of an object's entries.
pub open spec fn entry_keys(es: Seq<(Seq<char>, ValueModel)>) -> Seq<Seq<char>> {
    es.map_values(|e: (Seq<char>, ValueModel)| e.0)
}

fn lex_le_exec(a: &Vec<char>, b: &Vec<char>) -> (r: bool)
    ensures
        r == lex_le(a@, b@),
{
    let mut i: usize = 0;
    assert(a@.skip(0) =~= a@ && b@.skip(0) =~= b@);
    loop
        invariant
            i <= a@.len(),
            i <= b@.len(),
            lex_le(a@.skip(i as int), b@.skip(i as int)) == lex_le(a@, b@),
        decreases a@.len() - i,
    {
        if i == a.len() {
            return true;
        }
        if i == b.len() {
            return false;
        }
        if a[i] != b[i] {
            return a[i] < b[i];
        }
        assert(a@.skip(i as int).drop_first() =~= a@.skip(i + 1));
        assert(b@.skip(i as int).drop_first() =~= b@.skip(i + 1));
        i = i + 1;
    }
}

proof fn lemma_insert_sorted_at(s: Seq<Seq<char>>, x: Seq<char>, p: int)
    requires
        0 <= p <= s.len(),
        p == 0 || lex_le(s[p - 1], x),
        forall|j: int| p <= j < s.len() ==> !lex_le(#[trigger] s[j], x),
    ensures
        insert_sorted(s, x) == s.take(p).push(x) + s.skip(p),
    decreases s.len(),
{
    if s.len() == 0 {
        assert(s.take(p).push(x) + s.skip(p) =~= seq![x]);
    } else if p == s.len() {
        assert(s.take(p).push(x) + s.skip(p) =~= s.push(x));
    } else {
        assert(!lex_le(s.last(), x));
        let t = s.drop_last();
        lemma_insert_sorted_at(t, x, p);
        assert(t.take(p).push(x) + t.skip(p) + seq![s.last()] =~= s.take(p).push(x) + s.skip(p));
    }
}

pub(crate) fn sorted_texts(ks: &Vec<Vec<char>>) -> (r: Vec<Vec<char>>)
    ensures
        r@.map_values(|k: Vec<char>| k@) == sort_texts(ks@.map_values(|k: Vec<char>| k@)),
{
    let ghost kv = ks@.map_values(|k: Vec<char>| k@);
    let mut out: Vec<Vec<char>> = Vec::new();
    let mut i: usize = 0;
    while i < ks.len()
        invariant
            i <= ks@.len(),
            kv == ks@.map_values(|k: Vec<char>| k@),
            out@.map_values(|k: Vec<char>| k@) == sort_texts(kv.take(i as int)),
        decreases ks@.len() - i,
    {
        let x = ks[i].clone();
        let ghost before = out@.map_values(|k: Vec<char>| k@);
        let mut p = out.len();
        while p > 0 && !lex_le_exec(&out[p - 1], &x)
            invariant
                p <= out@.len(),
                before == out@.map_values(|k: Vec<char>| k@),
                forall|j: int| p <= j < out@.len() ==> !lex_le(#[trigger] before[j], x@),
            decreases p,
        {
            p = p - 1;
        }
        proof {
            lemma_insert_sorted_at(before, x@, p as int);
            assert(kv.take(i + 1).drop_last() =~= kv.take(i as int));
            assert(kv.take(i + 1).last() == x@);
        }
        out.insert(p, x);
        assert(out@.map_values(|k: Vec<char>| k@) =~= before.take(p as int).push(ks@[i as int]@) + before.skip(p as int));
        i = i + 1;
    }
    assert(kv.take(ks@.len() as int) =~= kv);
    out
}

/// The sorted keys of an object, as string values.
fn sorted_key_values(m: &ObjectMap) -> (r: Vec<Value>)
    ensures
        values_model(r@) == str_values(sort_texts(entry_keys(m.model()))),
{
    let mut ks: Vec<Vec<char>> = Vec::new();
    let mut i: usize = 0;
    while i < m.len()
        invariant
            i <= m.model().len(),
            ks@.map_values(|k: Vec<char>| k@) == entry_keys(m.model()).take(i as int),
        decreases m.model().len() - i,
    {
        let (k, _) = m.entry(i);
        let c = chars_of(k.as_str());
        let ghost before = ks@;
        ks.push(c);
        assert(ks@.map_values(|k: Vec<char>| k@) =~= before.map_values(|k: Vec<char>| k@).push(c@));
        i = i + 1;
        assert(ks@.map_values(|k: Vec<char>| k@) =~= entry_keys(m.model()).take(i as int));
    }
    assert(entry_keys(m.model()).take(m.model().len() as int) =~= entry_keys(m.model()));
    let sorted = sorted_texts(&ks);
    let ghost sv = sorted@.map_values(|k: Vec<char>| k@);
    let mut out: Vec<Value> = Vec::new();
    let mut j: usize = 0;
    while j < sorted.len()
        invariant
            j <= sorted@.len(),
            sv == sorted@.map_values(|k: Vec<char>| k@),
            values_model(out@) == str_values(sv).take(j as int),
        decreases sorted@.len() - j,
    {
        let v = str_value(&sorted[j]);
        let ghost mid = out@;
        out.push(v);
        assert(values_model(out@) =~= values_model(mid).push(v.model()));
        j = j + 1;
        assert(values_model(out@) =~= str_values(sv).take(j as int));
    }
    assert(str_values(sv).take(sorted@.len() as int) =~= str_values(sv));
    out
}

proof fn lemma_lex_total(a: Seq<char>, b: Seq<char>)
    ensures
        lex_le(a, b) || lex_le(b, a),
    decreases a.len(),
{
    if a.len() > 0 && b.len() > 0 && a[0] == b[0] {
        lemma_lex_total(a.drop_first(), b.drop_first());
    }
}

proof fn lemma_lex_trans(a: Seq<char>, b: Seq<char>, c: Seq<char>)
    requires
        lex_le(a, b),
        lex_le(b, c),
    ensures
        lex_le(a, c),
    decreases a.len(),
{
    if a.len() > 0 && b.len() > 0 && c.len() > 0 && a[0] == b[0] && b[0] == c[0] {
        lemma_lex_trans(a.drop_first(), b.drop_first(), c.drop_first());
    }
}

/// In ascending string order, each element comes before or equals every
/// later one.
pub open spec fn is_sorted(s: Seq<Seq<char>>) -> bool {
    forall|i: int, j: int| 0 <= i < j < s.len() ==> lex_le(#[trigger] s[i], #[trigger] s[j])
}

proof fn lemma_insert_sorted_keeps_order(s: Seq<Seq<char>>, x: Seq<char>)
    requires
        is_sorted(s),
    ensures
        is_sorted(insert_sorted(s, x)),
        insert_sorted(s, x).to_multiset() == s.to_multiset().insert(x),
        insert_sorted(s, x).len() == s.len() + 1,
        forall|i: int|
            0 <= i < insert_sorted(s, x).len() ==> #[trigger] insert_sorted(s, x)[i] == x
                || s.contains(insert_sorted(s, x)[i]),
    decreases s.len(),
{
    broadcast use vstd::seq_lib::group_to_multiset_ensures;
    if s.len() == 0 {
        assert(seq![x] =~= Seq::<Seq<char>>::empty().push(x));
    } else if lex_le(s.last(), x) {
        let r = s.push(x);
        assert forall|i: int, j: int| 0 <= i < j < r.len() implies lex_le(#[trigger] r[i], #[trigger] r[j]) by {
            if j == s.len() {
                if i < s.len() - 1 {
                    lemma_lex_trans(s[i], s.last(), x);
                }
            }
        }
        assert forall|i: int| 0 <= i < r.len() implies #[trigger] r[i] == x || s.contains(r[i]) by {
            if i < s.len() {
                assert(s[i] == r[i]);
            }
        }
    } else {
        let t = s.drop_last();
        assert(is_sorted(t));
        lemma_insert_sorted_keeps_order(t, x);
        let u = insert_sorted(t, x);
        let r = u.push(s.last());
        lemma_lex_total(s.last(), x);
        assert forall|i: int, j: int| 0 <= i < j < r.len() implies lex_le(#[trigger] r[i], #[trigger] r[j]) by {
            if j == u.len() {
                assert(u[i] == x || t.contains(u[i]));
                if u[i] != x {
                    let k = choose|k: int| 0 <= k < t.len() && t[k] == u[i];
                    assert(s[k] == t[k]);
                    assert(lex_le(s[k], s[s.len() - 1]));
                }
            } else {
                assert(r[i] == u[i] && r[j] == u[j]);
            }
        }
        assert forall|i: int| 0 <= i < r.len() implies #[trigger] r[i] == x || s.contains(r[i]) by {
            if i < u.len() {
                assert(r[i] == u[i]);
                if u[i] != x {
                    let k = choose|k: int| 0 <= k < t.len() && t[k] == u[i];
                    assert(s[k] == t[k]);
                }
            } else {
                assert(s[s.len() - 1] == r[i]);
            }
        }
        assert(s =~= t.push(s.last()));
        assert(r.to_multiset() =~= u.to_multiset().insert(s.last()));
        assert(s.to_multiset() =~= t.to_multiset().insert(s.last()));
    }
}

/// Sorting keys gives them in ascending string order, each exactly as
/// often as it occurs.
pub proof fn lemma_sorted_keys_are_an_ordered_permutation(ks: Seq<Seq<char>>)
    ensures
        is_sorted(sort_texts(ks)),
        sort_texts(ks).to_multiset() == ks.to_multiset(),
        sort_texts(ks).len() == ks.len(),
    decreases ks.len(),
{
    broadcast use vstd::seq_lib::group_to_multiset_ensures;
    broadcast use vstd::multiset::group_multiset_axioms;
    if ks.len() == 0 {
        assert(ks.to_multiset().len() == 0);
        assert(Seq::<Seq<char>>::empty().to_multiset().len() == 0);
        assert(ks.to_multiset() =~= Seq::<Seq<char>>::empty().to_multiset());
    } else {
        let t = ks.drop_last();
        lemma_sorted_keys_are_an_ordered_permutation(t);
        lemma_insert_sorted_keeps_order(sort_texts(t), ks.last());
        assert(ks =~= t.push(ks.last()));
    }
}

// ── Regular expressions ──────────────────────────────────────────────────────

/// The message `regex::Regex::new` rejects `pattern` with (its error's
/// `Display`), or `None` when the pattern compiles.
pub uninterp spec fn regex_compile_error(pattern: Seq<char>) -> Option<Seq<char>>;

/// What `regex::Regex::is_match` answers on `text` for the regex compiled
/// from `pattern`.
pub uninterp spec fn regex_finds(pattern: Seq<char>, text: Seq<char>) -> bool;

/// Compiles `pattern` with `regex::Regex::new` and, when that succeeds,
/// asks `Regex::is_match` whether it matches anywhere in `text`. The
/// contract names both results, which depend on the pattern and the text
/// alone; a rejected pattern gives its error's message.
#[verifier::external_body]
fn regex_search(pattern: &str, text: &str) -> (r: Result<bool, String>)
    ensures
        match regex_compile_error(pattern@) {
            None => r == Ok::<bool, String>(regex_finds(pattern@, text@)),
            Some(m) => r matches Err(e) && e@ == m,
        },
{
    match regex::Regex::new(pattern) {
        Ok(re) => Ok(re.is_match(text)),
        Err(e) => Err(e.to_string()),
    }
}

/// The answer of `regex_match` given what the pattern search gave.
pub open spec fn regex_answer(search: Result<bool, Seq<char>>) -> Result<ValueModel, Seq<char>> {
    match search {
        Ok(b) => Ok(ValueModel::Bool(b)),
        Err(m) => Err("regex_match: invalid pattern: "@ + m),
    }
}

/// Turns the outcome of a pattern search into `regex_match`'s answer: the
/// match as a boolean, or the invalid-pattern error.
pub fn regex_match_outcome(search: Result<bool, String>) -> (r: Result<Value, Signal>)
    ensures
        match regex_answer(match search {
            Ok(b) => Ok(b),
            Err(m) => Err(m@),
        }) {
            Ok(v) => r matches Ok(x) && x.model() == v,
            Err(e) => r matches Err(Signal::Error(t)) && t@ == e,
        },
{
    match search {
        Ok(b) => Ok(Value::Bool(b)),
        Err(m) => {
            let mut t = String::from_str("regex_match: invalid pattern: ");
            t.append(m.as_str());
            Err(Signal::Error(t))
        },
    }
}

/// What `regex_match(pattern, text)` returns: an error unless both
/// arguments are strings, the invalid-pattern error when the pattern does
/// not compile, and otherwise whether it matches in the text.
pub open spec fn regex_match_result(args: Seq<ValueModel>) -> Result<ValueModel, Seq<char>> {
    match (arg_or_null(args, 0), arg_or_null(args, 1)) {
        (ValueModel::Str(p), ValueModel::Str(t)) => regex_answer(
            match regex_compile_error(p) {
                None => Ok(regex_finds(p, t)),
                Some(m) => Err(m),
            },
        ),
        (ValueModel::Str(_), _) => Err("regex_match: expected text string"@),
        _ => Err("regex_match: expected pattern string"@),
    }
}

fn regex_match_builtin(args: &[Value]) -> (r: Result<Value, Signal>)
    ensures
        match regex_match_result(values_model(args@)) {
            Ok(v) => r matches Ok(x) && x.model() == v,
            Err(e) => r matches Err(Signal::Error(t)) && t@ == e,
        },
{
    let ghost am = values_model(args@);
    if args.len() > 0 {
        assert(am[0] == args@[0].model());
    }
    if args.len() > 1 {
        assert(am[1] == args@[1].model());
    }
    let pattern = if args.len() > 0 {
        match &args[0] {
            Value::Str(p) => p,
            _ => {
                return error("regex_match: expected pattern string");
            },
        }
    } else {
        return error("regex_match: expected pattern string");
    };
    let text = if args.len() > 1 {
        match &args[1] {
            Value::Str(t) => t,
            _ => {
                return error("regex_match: expected text string");
            },
        }
    } else {
        return error("regex_match: expected text string");
    };
    regex_match_outcome(regex_search(pattern.as_str(), text.as_str()))
}

// ── Dispatch ─────────────────────────────────────────────────────────────────

/// What the value-shaping builtin `name` returns for `args`: `None` when
/// `name` is not one of them, otherwise its value or the message of the
/// error it raises.
pub open spec fn value_builtin(name: Seq<char>, args: Seq<ValueModel>) -> Option<
    Result<ValueModel, Seq<char>>,
> {
    let a0 = arg_or_null(args, 0);
    if name == "is_null"@ {
        Some(Ok(ValueModel::Bool(args.len() == 0 || args[0] is Null)))
    } else if name == "is_number"@ {
        Some(Ok(ValueModel::Bool(args.len() > 0 && args[0] is Number)))
    } else if name == "is_string"@ {
        Some(Ok(ValueModel::Bool(args.len() > 0 && args[0] is Str)))
    } else if name == "is_array"@ {
        Some(Ok(ValueModel::Bool(args.len() > 0 && args[0] is Array)))
    } else if name == "is_object"@ {
        Some(Ok(ValueModel::Bool(args.len() > 0 && args[0] is Object)))
    } else if name == "is_bool"@ {
        Some(Ok(ValueModel::Bool(args.len() > 0 && args[0] is Bool)))
    } else if name == "type_of"@ || name == "typeof"@ {
        Some(Ok(ValueModel::Str(crate::value::kind_name_of(a0))))
    } else if name == "values"@ {
        Some(Ok(ValueModel::Array(match a0 {
            ValueModel::Object(es) => es.map_values(|e: (Seq<char>, ValueModel)| e.1),
            _ => Seq::empty(),
        })))
    } else if name == "entries"@ {
        Some(Ok(ValueModel::Array(match a0 {
            ValueModel::Object(es) => es.map_values(
                |e: (Seq<char>, ValueModel)| ValueModel::Array(seq![ValueModel::Str(e.0), e.1]),
            ),
            _ => Seq::empty(),
        })))
    } else if name == "zip"@ {
        Some(Ok(ValueModel::Array(match (a0, arg_or_null(args, 1)) {
            (ValueModel::Array(a), ValueModel::Array(b)) => Seq::new(
                if a.len() <= b.len() { a.len() } else { b.len() },
                |i: int| ValueModel::Array(seq![a[i], b[i]]),
            ),
            _ => Seq::empty(),
        })))
    } else if name == "flatten"@ || name == "flat"@ {
        Some(Ok(ValueModel::Array(match a0 {
            ValueModel::Array(items) => flatten_one(items),
            _ => Seq::empty(),
        })))
    } else {
        text_builtin(name, args)
    }
}

/// The type tests look at their first argument and say exactly whether it
/// is of their kind, so at most one of them holds of any value; with no
/// argument only `is_null` holds. `type_of` names the kind.
pub proof fn lemma_type_tests(v: ValueModel)
    ensures
        value_builtin("is_null"@, seq![v]) == Some(Ok::<ValueModel, Seq<char>>(ValueModel::Bool(v is Null))),
        value_builtin("is_number"@, seq![v]) == Some(Ok::<ValueModel, Seq<char>>(ValueModel::Bool(v is Number))),
        value_builtin("is_string"@, seq![v]) == Some(Ok::<ValueModel, Seq<char>>(ValueModel::Bool(v is Str))),
        value_builtin("is_array"@, seq![v]) == Some(Ok::<ValueModel, Seq<char>>(ValueModel::Bool(v is Array))),
        value_builtin("is_object"@, seq![v]) == Some(Ok::<ValueModel, Seq<char>>(ValueModel::Bool(v is Object))),
        value_builtin("is_bool"@, seq![v]) == Some(Ok::<ValueModel, Seq<char>>(ValueModel::Bool(v is Bool))),
        value_builtin("is_null"@, Seq::<ValueModel>::empty()) == Some(Ok::<ValueModel, Seq<char>>(ValueModel::Bool(true))),
        value_builtin("is_array"@, Seq::<ValueModel>::empty()) == Some(Ok::<ValueModel, Seq<char>>(ValueModel::Bool(false))),
        value_builtin("is_object"@, Seq::<ValueModel>::empty()) == Some(Ok::<ValueModel, Seq<char>>(ValueModel::Bool(false))),
        v is Array ==> value_builtin("type_of"@, seq![v]) == Some(Ok::<ValueModel, Seq<char>>(ValueModel::Str("array"@))),
        v is Object ==> value_builtin("type_of"@, seq![v]) == Some(Ok::<ValueModel, Seq<char>>(ValueModel::Str("object"@))),
        v is Str ==> value_builtin("typeof"@, seq![v]) == Some(Ok::<ValueModel, Seq<char>>(ValueModel::Str("string"@))),
{
    reveal_strlit("is_null");
    reveal_strlit("is_number");
    reveal_strlit("is_string");
    reveal_strlit("is_array");
    reveal_strlit("is_object");
    reveal_strlit("is_bool");
    reveal_strlit("type_of");
    reveal_strlit("typeof");
    assert("is_null"@.len() == 7 && "is_null"@[0] == 'i' && "is_null"@[3] == 'n');
    assert("is_number"@.len() == 9 && "is_number"@[0] == 'i' && "is_number"@[3] == 'n');
    assert("is_string"@.len() == 9 && "is_string"@[0] == 'i' && "is_string"@[3] == 's');
    assert("is_array"@.len() == 8 && "is_array"@[0] == 'i' && "is_array"@[3] == 'a');
    assert("is_object"@.len() == 9 && "is_object"@[0] == 'i' && "is_object"@[3] == 'o');
    assert("is_bool"@.len() == 7 && "is_bool"@[0] == 'i' && "is_bool"@[3] == 'b');
    assert("type_of"@.len() == 7 && "type_of"@[0] == 't' && "type_of"@[3] == 'e');
    assert("typeof"@.len() == 6 && "typeof"@[0] == 't' && "typeof"@[3] == 'e');
}

/// The string builtins of `value_builtin`.
pub open spec fn text_builtin(name: Seq<char>, args: Seq<ValueModel>) -> Option<
    Result<ValueModel, Seq<char>>,
> {
    let s0 = str_arg(args, 0);
    let s1 = str_arg(args, 1);
    if name == "trim"@ {
        Some(Ok(ValueModel::Str(trim_end_where(trim_start_where(s0, ws_pred()), ws_pred()))))
    } else if name == "trim_start"@ || name == "ltrim"@ {
        Some(Ok(ValueModel::Str(trim_start_where(s0, ws_pred()))))
    } else if name == "trim_end"@ || name == "rtrim"@ {
        Some(Ok(ValueModel::Str(trim_end_where(s0, ws_pred()))))
    } else if name == "to_upper"@ || name == "upper"@ || name == "uppercase"@ {
        Some(Ok(ValueModel::Str(spec_to_uppercase(s0))))
    } else if name == "to_lower"@ || name == "lower"@ || name == "lowercase"@ {
        Some(Ok(ValueModel::Str(spec_to_lowercase(s0))))
    } else if name == "starts_with"@ {
        Some(Ok(ValueModel::Bool(has_prefix(s0, s1))))
    } else if name == "ends_with"@ {
        Some(Ok(ValueModel::Bool(has_suffix(s0, s1))))
    } else if name == "replace"@ {
        Some(Ok(ValueModel::Str(replace_str(s0, s1, str_arg(args, 2)))))
    } else if name == "split"@ {
        let delim = match arg_or_null(args, 1) {
            ValueModel::Str(d) => d,
            _ => " "@,
        };
        Some(Ok(ValueModel::Array(str_values(split_str(s0, delim)))))
    } else {
        edit_builtin(name, args)
    }
}

/// The remaining builtins of `value_builtin`: object and array edits,
/// character tests, encodings, `unwrap` and `merge`.
pub open spec fn edit_builtin(name: Seq<char>, args: Seq<ValueModel>) -> Option<
    Result<ValueModel, Seq<char>>,
> {
    let a0 = arg_or_null(args, 0);
    let s0 = str_arg(args, 0);
    let s1 = str_arg(args, 1);
    if name == "set_key"@ || name == "set_field"@ {
        match a0 {
            ValueModel::Object(es) => Some(Ok(ValueModel::Object(assoc_set(es, s1, arg_or_null(args, 2))))),
            _ => Some(Err("set_key requires an object as first argument"@)),
        }
    } else if name == "delete_key"@ || name == "remove_key"@ {
        match a0 {
            ValueModel::Object(es) => Some(Ok(ValueModel::Object(assoc_remove(es, s1)))),
            _ => Some(Err("delete_key requires an object as first argument"@)),
        }
    } else if name == "push"@ {
        match a0 {
            ValueModel::Array(items) => Some(Ok(ValueModel::Array(
                if args.len() > 1 { items.push(args[1]) } else { items },
            ))),
            _ => Some(Err("push() requires an array as first argument"@)),
        }
    } else if name == "pop"@ {
        Some(Ok(ValueModel::Array(match a0 {
            ValueModel::Array(items) => if items.len() > 0 { items.drop_last() } else { items },
            _ => Seq::empty(),
        })))
    } else if name == "first"@ {
        Some(Ok(match a0 {
            ValueModel::Array(items) => if items.len() > 0 { items[0] } else { ValueModel::Null },
            other => other,
        }))
    } else if name == "last"@ {
        Some(Ok(match a0 {
            ValueModel::Array(items) => if items.len() > 0 { items.last() } else { ValueModel::Null },
            other => other,
        }))
    } else if name == "is_empty"@ {
        Some(Ok(ValueModel::Bool(match a0 {
            ValueModel::Str(s) => s.len() == 0,
            ValueModel::Array(items) => items.len() == 0,
            ValueModel::Object(es) => es.len() == 0,
            ValueModel::Null => true,
            _ => false,
        })))
    } else if name == "strip_prefix"@ || name == "remove_prefix"@ {
        Some(Ok(ValueModel::Str(if has_prefix(s0, s1) { s0.skip(s1.len() as int) } else { s0 })))
    } else if name == "strip_suffix"@ || name == "remove_suffix"@ {
        Some(Ok(ValueModel::Str(
            if has_suffix(s0, s1) { s0.take(s0.len() - s1.len()) } else { s0 },
        )))
    } else if name == "is_digit"@ {
        Some(Ok(ValueModel::Bool(s0.len() > 0 && '0' <= s0[0] <= '9')))
    } else if name == "is_alpha"@ {
        Some(Ok(ValueModel::Bool(s0.len() > 0 && is_ascii_alpha(s0[0]))))
    } else if name == "is_alnum"@ {
        Some(Ok(ValueModel::Bool(s0.len() > 0 && (is_ascii_alpha(s0[0]) || '0' <= s0[0] <= '9'))))
    } else if name == "is_whitespace"@ {
        Some(Ok(ValueModel::Bool(s0.len() > 0 && is_ws(s0[0]))))
    } else if name == "url_encode"@ {
        Some(Ok(ValueModel::Str(url_encode_text(s0))))
    } else if name == "html_escape"@ {
        Some(Ok(ValueModel::Str(html_escape_text(s0))))
    } else if name == "html_unescape"@ {
        Some(Ok(ValueModel::Str(html_unescape_text(s0))))
    } else if name == "unwrap"@ {
        match a0 {
            ValueModel::Object(es) => if is_ok_false(a0) {
                Some(Err(unwrap_message(es)))
            } else {
                Some(Ok(a0))
            },
            _ => Some(Ok(a0)),
        }
    } else if name == "merge"@ {
        Some(Ok(ValueModel::Object(merge_objects(args))))
    } else if name == "regex_match"@ {
        Some(regex_match_result(args))
    } else if name == "keys"@ {
        Some(Ok(ValueModel::Array(match a0 {
            ValueModel::Object(es) => str_values(sort_texts(entry_keys(es))),
            _ => Seq::empty(),
        })))
    } else {
        None
    }
}

/// Whether `r` is the answer `m` describes.
pub open spec fn answers(r: Option<Result<Value, Signal>>, m: Option<Result<ValueModel, Seq<char>>>) -> bool {
    match m {
        None => r is None,
        Some(Ok(v)) => r matches Some(Ok(x)) && x.model() == v,
        Some(Err(e)) => r matches Some(Err(Signal::Error(t))) && t@ == e,
    }
}

fn array_value(v: Vec<Value>) -> (r: Value)
    ensures
        r.model() == ValueModel::Array(values_model(v@)),
{
    let r = Value::Array(v);
    assert(r.model()->Array_0 =~= values_model(v@));
    r
}

fn empty_array() -> (r: Value)
    ensures
        r.model() == ValueModel::Array(Seq::empty()),
{
    let v: Vec<Value> = Vec::new();
    assert(values_model(v@) =~= Seq::<ValueModel>::empty());
    array_value(v)
}

fn error(msg: &str) -> (r: Result<Value, Signal>)
    ensures
        r matches Err(Signal::Error(t)) && t@ == msg@,
{
    Err(Signal::Error(String::from_str(msg)))
}

fn object_values(m: &ObjectMap) -> (r: Vec<Value>)
    ensures
        values_model(r@) == m.model().map_values(|e: (Seq<char>, ValueModel)| e.1),
{
    let mut out: Vec<Value> = Vec::new();
    let mut i: usize = 0;
    while i < m.len()
        invariant
            i <= m.model().len(),
            values_model(out@) == m.model().subrange(0, i as int).map_values(
                |e: (Seq<char>, ValueModel)| e.1,
            ),
        decreases m.model().len() - i,
    {
        let (_, v) = m.entry(i);
        let c = v.deep_copy();
        let ghost mid = out@;
        out.push(c);
        assert(values_model(out@) =~= values_model(mid).push(c.model()));
        i = i + 1;
        assert(values_model(out@) =~= m.model().subrange(0, i as int).map_values(
            |e: (Seq<char>, ValueModel)| e.1,
        ));
    }
    assert(m.model().subrange(0, m.model().len() as int) =~= m.model());
    out
}

fn object_entries(m: &ObjectMap) -> (r: Vec<Value>)
    ensures
        values_model(r@) == m.model().map_values(
            |e: (Seq<char>, ValueModel)| ValueModel::Array(seq![ValueModel::Str(e.0), e.1]),
        ),
{
    let mut out: Vec<Value> = Vec::new();
    let mut i: usize = 0;
    while i < m.len()
        invariant
            i <= m.model().len(),
            values_model(out@) == m.model().subrange(0, i as int).map_values(
                |e: (Seq<char>, ValueModel)| ValueModel::Array(seq![ValueModel::Str(e.0), e.1]),
            ),
        decreases m.model().len() - i,
    {
        let (k, v) = m.entry(i);
        let mut pair: Vec<Value> = Vec::new();
        pair.push(Value::Str(k.clone()));
        pair.push(v.deep_copy());
        let p = array_value(pair);
        assert(values_model(pair@) =~= seq![ValueModel::Str(k@), v.model()]);
        let ghost mid = out@;
        out.push(p);
        assert(values_model(out@) =~= values_model(mid).push(p.model()));
        i = i + 1;
        assert(values_model(out@) =~= m.model().subrange(0, i as int).map_values(
            |e: (Seq<char>, ValueModel)| ValueModel::Array(seq![ValueModel::Str(e.0), e.1]),
        ));
    }
    assert(m.model().subrange(0, m.model().len() as int) =~= m.model());
    out
}

fn zip_values(a: &Vec<Value>, b: &Vec<Value>) -> (r: Vec<Value>)
    ensures
        values_model(r@) == Seq::new(
            if a@.len() <= b@.len() { a@.len() } else { b@.len() },
            |i: int| ValueModel::Array(seq![values_model(a@)[i], values_model(b@)[i]]),
        ),
{
    let n = if a.len() <= b.len() { a.len() } else { b.len() };
    let mut out: Vec<Value> = Vec::new();
    let mut i: usize = 0;
    while i < n
        invariant
            n <= a@.len(),
            n <= b@.len(),
            i <= n,
            values_model(out@) == Seq::new(
                i as nat,
                |j: int| ValueModel::Array(seq![values_model(a@)[j], values_model(b@)[j]]),
            ),
        decreases n - i,
    {
        let mut pair: Vec<Value> = Vec::new();
        pair.push(a[i].deep_copy());
        pair.push(b[i].deep_copy());
        let p = array_value(pair);
        assert(values_model(pair@) =~= seq![values_model(a@)[i as int], values_model(b@)[i as int]]);
        let ghost mid = out@;
        out.push(p);
        assert(values_model(out@) =~= values_model(mid).push(p.model()));
        i = i + 1;
        assert(values_model(out@) =~= Seq::new(
            i as nat,
            |j: int| ValueModel::Array(seq![values_model(a@)[j], values_model(b@)[j]]),
        ));
    }
    out
}

/// Runs the value-shaping builtin `name` on `args`: `None` when `name` is
/// not one of them.
pub fn eval_value_builtin(name: &str, args: &[Value]) -> (r: Option<Result<Value, Signal>>)
    ensures
        answers(r, value_builtin(name@, values_model(args@))),
{
    let ghost am = values_model(args@);
    if args.len() > 0 {
        assert(am[0] == args@[0].model());
    }
    if str_eq(name, "is_null") {
        Some(Ok(Value::Bool(args.len() == 0 || matches!(args[0], Value::Null))))
    } else if str_eq(name, "is_number") {
        Some(Ok(Value::Bool(args.len() > 0 && matches!(args[0], Value::Number(_)))))
    } else if str_eq(name, "is_string") {
        Some(Ok(Value::Bool(args.len() > 0 && matches!(args[0], Value::Str(_)))))
    } else if str_eq(name, "is_array") {
        Some(Ok(Value::Bool(args.len() > 0 && matches!(args[0], Value::Array(_)))))
    } else if str_eq(name, "is_object") {
        Some(Ok(Value::Bool(args.len() > 0 && matches!(args[0], Value::Object(_)))))
    } else if str_eq(name, "is_bool") {
        Some(Ok(Value::Bool(args.len() > 0 && matches!(args[0], Value::Bool(_)))))
    } else if str_eq(name, "type_of") || str_eq(name, "typeof") {
        let k = if args.len() > 0 {
            args[0].kind_name()
        } else {
            proof {
                reveal_strlit("null");
            }
            "null"
        };
        Some(Ok(Value::Str(String::from_str(k))))
    } else if str_eq(name, "values") {
        if args.len() > 0 {
            if let Value::Object(m) = &args[0] {
                return Some(Ok(array_value(object_values(m))));
            }
        }
        Some(Ok(empty_array()))
    } else if str_eq(name, "entries") {
        if args.len() > 0 {
            if let Value::Object(m) = &args[0] {
                return Some(Ok(array_value(object_entries(m))));
            }
        }
        Some(Ok(empty_array()))
    } else if str_eq(name, "zip") {
        if args.len() > 1 {
            if let (Value::Array(a), Value::Array(b)) = (&args[0], &args[1]) {
                assert(am[1] == args@[1].model());
                assert(am[0]->Array_0 =~= values_model(a@));
                assert(am[1]->Array_0 =~= values_model(b@));
                return Some(Ok(array_value(zip_values(a, b))));
            }
        }
        Some(Ok(empty_array()))
    } else if str_eq(name, "flatten") || str_eq(name, "flat") {
        if args.len() > 0 {
            if let Value::Array(items) = &args[0] {
                assert(am[0]->Array_0 =~= values_model(items@));
                return Some(Ok(array_value(flatten_values(items))));
            }
        }
        Some(Ok(empty_array()))
    } else {
        eval_text_builtin(name, args)
    }
}

fn lit_chars(s: &str) -> (r: Vec<char>)
    ensures
        r@ == s@,
{
    chars_of(s)
}

fn arg_str_ref(args: &[Value], i: usize) -> (r: &str)
    ensures
        r@ == str_arg(values_model(args@), i as int),
{
    proof {
        reveal_strlit("");
    }
    if i < args.len() {
        match &args[i] {
            Value::Str(s) => s.as_str(),
            _ => "",
        }
    } else {
        ""
    }
}

fn eval_text_builtin(name: &str, args: &[Value]) -> (r: Option<Result<Value, Signal>>)
    ensures
        answers(r, text_builtin(name@, values_model(args@))),
{
    let ghost am = values_model(args@);
    if str_eq(name, "trim") {
        let s0 = text_arg(args, 0);
        let a = trim_start_chars(&s0);
        Some(Ok(str_value(&trim_end_chars(&a))))
    } else if str_eq(name, "trim_start") || str_eq(name, "ltrim") {
        let s0 = text_arg(args, 0);
        Some(Ok(str_value(&trim_start_chars(&s0))))
    } else if str_eq(name, "trim_end") || str_eq(name, "rtrim") {
        let s0 = text_arg(args, 0);
        Some(Ok(str_value(&trim_end_chars(&s0))))
    } else if str_eq(name, "to_upper") || str_eq(name, "upper") || str_eq(name, "uppercase") {
        Some(Ok(Value::Str(str_to_uppercase(arg_str_ref(args, 0)))))
    } else if str_eq(name, "to_lower") || str_eq(name, "lower") || str_eq(name, "lowercase") {
        Some(Ok(Value::Str(str_to_lowercase(arg_str_ref(args, 0)))))
    } else if str_eq(name, "starts_with") {
        let s0 = text_arg(args, 0);
        let s1 = text_arg(args, 1);
        Some(Ok(Value::Bool(prefix_of(&s0, &s1))))
    } else if str_eq(name, "ends_with") {
        let s0 = text_arg(args, 0);
        let s1 = text_arg(args, 1);
        Some(Ok(Value::Bool(suffix_of(&s0, &s1))))
    } else if str_eq(name, "replace") {
        let s0 = text_arg(args, 0);
        let s1 = text_arg(args, 1);
        let s2 = text_arg(args, 2);
        Some(Ok(str_value(&replace_chars(&s0, &s1, &s2))))
    } else if str_eq(name, "split") {
        let s0 = text_arg(args, 0);
        let delim = if args.len() > 1 && matches!(args[1], Value::Str(_)) {
            assert(am[1] == args@[1].model());
            text_arg(args, 1)
        } else {
            if args.len() > 1 {
                assert(am[1] == args@[1].model());
            }
            lit_chars(" ")
        };
        Some(Ok(array_value(split_values(&s0, &delim))))
    } else {
        eval_edit_builtin(name, args)
    }
}

fn eval_edit_builtin(name: &str, args: &[Value]) -> (r: Option<Result<Value, Signal>>)
    ensures
        answers(r, edit_builtin(name@, values_model(args@))),
{
    let ghost am = values_model(args@);
    if args.len() > 0 {
        assert(am[0] == args@[0].model());
    }
    if str_eq(name, "set_key") || str_eq(name, "set_field") {
        if args.len() > 0 {
            if let Value::Object(m) = &args[0] {
                let mut c = m.deep_copy();
                let key = string_from_chars(&text_arg(args, 1));
                c.insert(key, arg_copy(args, 2));
                return Some(Ok(Value::Object(c)));
            }
        }
        Some(error("set_key requires an object as first argument"))
    } else if str_eq(name, "delete_key") || str_eq(name, "remove_key") {
        if args.len() > 0 {
            if let Value::Object(m) = &args[0] {
                let mut c = m.deep_copy();
                let key = string_from_chars(&text_arg(args, 1));
                c.remove(key.as_str());
                return Some(Ok(Value::Object(c)));
            }
        }
        Some(error("delete_key requires an object as first argument"))
    } else if str_eq(name, "push") {
        if args.len() > 0 {
            if let Value::Array(items) = &args[0] {
                assert(am[0]->Array_0 =~= values_model(items@));
                let mut c = copy_all(items);
                if args.len() > 1 {
                    assert(am[1] == args@[1].model());
                    let v = args[1].deep_copy();
                    let ghost mid = c@;
                    c.push(v);
                    assert(values_model(c@) =~= values_model(mid).push(v.model()));
                }
                return Some(Ok(array_value(c)));
            }
        }
        Some(error("push() requires an array as first argument"))
    } else if str_eq(name, "pop") {
        if args.len() > 0 {
            if let Value::Array(items) = &args[0] {
                assert(am[0]->Array_0 =~= values_model(items@));
                let mut c = copy_all(items);
                if c.len() > 0 {
                    let ghost mid = c@;
                    let _ = c.pop();
                    assert(values_model(c@) =~= values_model(mid).drop_last());
                }
                return Some(Ok(array_value(c)));
            }
        }
        Some(Ok(empty_array()))
    } else if str_eq(name, "first") || str_eq(name, "last") {
        let is_first = str_eq(name, "first");
        if args.len() > 0 {
            if let Value::Array(items) = &args[0] {
                assert(am[0]->Array_0 =~= values_model(items@));
                if items.len() == 0 {
                    return Some(Ok(Value::Null));
                }
                let k = if is_first { 0 } else { items.len() - 1 };
                return Some(Ok(items[k].deep_copy()));
            }
        }
        Some(Ok(arg_copy(args, 0)))
    } else if str_eq(name, "is_empty") {
        let b = if args.len() > 0 {
            match &args[0] {
                Value::Str(s) => chars_of(s.as_str()).len() == 0,
                Value::Array(items) => items.len() == 0,
                Value::Object(m) => m.len() == 0,
                Value::Null => true,
                _ => false,
            }
        } else {
            true
        };
        Some(Ok(Value::Bool(b)))
    } else if str_eq(name, "strip_prefix") || str_eq(name, "remove_prefix") {
        let s0 = text_arg(args, 0);
        let s1 = text_arg(args, 1);
        if prefix_of(&s0, &s1) {
            assert(s0@.subrange(s1@.len() as int, s0@.len() as int) =~= s0@.skip(s1@.len() as int));
            Some(Ok(Value::Str(string_from_range(&s0, s1.len(), s0.len()))))
        } else {
            Some(Ok(str_value(&s0)))
        }
    } else if str_eq(name, "strip_suffix") || str_eq(name, "remove_suffix") {
        let s0 = text_arg(args, 0);
        let s1 = text_arg(args, 1);
        if suffix_of(&s0, &s1) {
            assert(s0@.subrange(0, s0@.len() - s1@.len()) =~= s0@.take(s0@.len() - s1@.len()));
            Some(Ok(Value::Str(string_from_range(&s0, 0, s0.len() - s1.len()))))
        } else {
            Some(Ok(str_value(&s0)))
        }
    } else if str_eq(name, "is_digit") || str_eq(name, "is_alpha") || str_eq(name, "is_alnum")
        || str_eq(name, "is_whitespace") {
        let s0 = text_arg(args, 0);
        if s0.len() == 0 {
            return Some(Ok(Value::Bool(false)));
        }
        let c = s0[0];
        let digit = '0' <= c && c <= '9';
        let alpha = ('a' <= c && c <= 'z') || ('A' <= c && c <= 'Z');
        let b = if str_eq(name, "is_digit") {
            digit
        } else if str_eq(name, "is_alpha") {
            alpha
        } else if str_eq(name, "is_alnum") {
            alpha || digit
        } else {
            char_is_whitespace(c)
        };
        Some(Ok(Value::Bool(b)))
    } else if str_eq(name, "url_encode") {
        let s0 = text_arg(args, 0);
        Some(Ok(str_value(&url_encode_chars(&s0))))
    } else if str_eq(name, "html_escape") {
        let s0 = text_arg(args, 0);
        Some(Ok(str_value(&html_escape_chars(&s0))))
    } else if str_eq(name, "html_unescape") {
        let s0 = text_arg(args, 0);
        Some(Ok(str_value(&html_unescape_chars(&s0))))
    } else if str_eq(name, "unwrap") {
        let v = arg_copy(args, 0);
        if crate::interpreter::value_is_ok_false(&v) {
            if let Value::Object(m) = &v {
                return Some(Err(Signal::Error(unwrap_error_text(m))));
            }
        }
        Some(Ok(v))
    } else if str_eq(name, "merge") {
        Some(Ok(Value::Object(merge_values(args))))
    } else if str_eq(name, "regex_match") {
        Some(regex_match_builtin(args))
    } else if str_eq(name, "keys") {
        if args.len() > 0 {
            if let Value::Object(m) = &args[0] {
                return Some(Ok(array_value(sorted_key_values(m))));
            }
        }
        Some(Ok(empty_array()))
    } else {
        None
    }
}

fn unwrap_error_text(m: &ObjectMap) -> (r: String)
    ensures
        r@ == unwrap_message(m.model()),
{
    proof {
        reveal_strlit("operation failed");
    }
    let mut msg = match m.get("error") {
        Some(Value::Str(e)) => e.clone(),
        _ => String::from_str("operation failed"),
    };
    match m.get("error_kind") {
        Some(Value::Str(k)) => {
            msg.append(" (");
            msg.append(k.as_str());
            msg.append(")");
        },
        _ => {},
    }
    msg
}

// ── Methods ──────────────────────────────────────────────────────────────────

/// `items` with the arguments of `concat` appended: an array argument's
/// items, any other argument itself.
pub open spec fn concat_args(items: Seq<ValueModel>, args: Seq<ValueModel>) -> Seq<ValueModel>
    decreases args.len(),
{
    if args.len() == 0 {
        items
    } else {
        concat_args(items, args.drop_last()) + match args.last() {
            ValueModel::Array(b) => b,
            other => seq![other],
        }
    }
}

/// `s` with the first occurrence of `pat` replaced by `rep` (what
/// `str::replacen(pat, rep, 1)` gives; an empty pattern occurs at the
/// start).
pub open spec fn replace_first(s: Seq<char>, pat: Seq<char>, rep: Seq<char>) -> Seq<char>
    decreases s.len(),
{
    if occurs_at(s, pat, 0) {
        rep + s.skip(pat.len() as int)
    } else if s.len() == 0 {
        s
    } else {
        seq![s[0]] + replace_first(s.drop_first(), pat, rep)
    }
}

/// Each character of `s` as a one-character string.
pub open spec fn char_strings(s: Seq<char>) -> Seq<ValueModel> {
    Seq::new(s.len(), |i: int| ValueModel::Str(seq![s[i]]))
}

/// What the method `method` of the value-shaping kind returns when called
/// on `recv` with `args`: `None` when the receiver has no such method here
/// (`sort` is here for arrays of strings alone, which it orders by text;
/// an array holding numbers is sorted by the caller).
pub open spec fn value_method(recv: ValueModel, method: Seq<char>, args: Seq<ValueModel>) -> Option<
    ValueModel,
> {
    let s0 = str_arg(args, 0);
    match recv {
        ValueModel::Array(items) => if method == "push"@ || method == "append"@ {
            Some(ValueModel::Array(items + args))
        } else if method == "pop"@ {
            Some(if items.len() > 0 { items.last() } else { ValueModel::Null })
        } else if method == "shift"@ {
            Some(if items.len() > 0 { items[0] } else { ValueModel::Null })
        } else if method == "unshift"@ {
            Some(ValueModel::Array(if args.len() > 0 { seq![args[0]] + items } else { items }))
        } else if method == "first"@ {
            Some(if items.len() > 0 { items[0] } else { ValueModel::Null })
        } else if method == "last"@ {
            Some(if items.len() > 0 { items.last() } else { ValueModel::Null })
        } else if method == "reverse"@ {
            Some(ValueModel::Array(items.reverse()))
        } else if method == "concat"@ {
            Some(ValueModel::Array(concat_args(items, args)))
        } else if method == "flat"@ || method == "flatten"@ {
            Some(ValueModel::Array(flatten_one(items)))
        } else if method == "sort"@ && crate::interpreter::all_strings(items) {
            Some(
                ValueModel::Array(
                    str_values(sort_texts(crate::interpreter::value_texts(items))),
                ),
            )
        } else {
            None
        },
        ValueModel::Str(s) => if method == "to_upper"@ || method == "upper"@ {
            Some(ValueModel::Str(spec_to_uppercase(s)))
        } else if method == "to_lower"@ || method == "lower"@ {
            Some(ValueModel::Str(spec_to_lowercase(s)))
        } else if method == "trim"@ {
            Some(ValueModel::Str(trim_end_where(trim_start_where(s, ws_pred()), ws_pred())))
        } else if method == "trim_start"@ || method == "ltrim"@ {
            Some(ValueModel::Str(trim_start_where(s, ws_pred())))
        } else if method == "trim_end"@ || method == "rtrim"@ {
            Some(ValueModel::Str(trim_end_where(s, ws_pred())))
        } else if method == "split"@ {
            let sep = match arg_or_null(args, 0) {
                ValueModel::Str(d) => d,
                _ => " "@,
            };
            Some(ValueModel::Array(str_values(split_str(s, sep))))
        } else if method == "split_lines"@ || method == "lines"@ {
            Some(ValueModel::Array(str_values(text_lines(s))))
        } else if method == "contains"@ || method == "includes"@ {
            Some(ValueModel::Bool(contains_seq(s, s0)))
        } else if method == "starts_with"@ {
            Some(ValueModel::Bool(has_prefix(s, s0)))
        } else if method == "ends_with"@ {
            Some(ValueModel::Bool(has_suffix(s, s0)))
        } else if method == "replace"@ {
            Some(ValueModel::Str(replace_str(s, s0, str_arg(args, 1))))
        } else if method == "replace_first"@ {
            Some(ValueModel::Str(replace_first(s, s0, str_arg(args, 1))))
        } else if method == "reverse"@ {
            Some(ValueModel::Str(s.reverse()))
        } else if method == "to_array"@ {
            Some(ValueModel::Array(char_strings(s)))
        } else if method == "is_empty"@ {
            Some(ValueModel::Bool(s.len() == 0))
        } else if method == "to_upper_first"@ {
            Some(ValueModel::Str(
                if s.len() == 0 { s } else { spec_char_to_uppercase(s[0]) + s.drop_first() },
            ))
        } else {
            None
        },
        ValueModel::Object(es) => if method == "has"@ || method == "has_key"@ {
            Some(ValueModel::Bool(assoc_get(es, s0) is Some))
        } else if method == "values"@ {
            Some(ValueModel::Array(es.map_values(|e: (Seq<char>, ValueModel)| e.1)))
        } else if method == "entries"@ {
            Some(ValueModel::Array(es.map_values(
                |e: (Seq<char>, ValueModel)| ValueModel::Array(seq![ValueModel::Str(e.0), e.1]),
            )))
        } else if method == "get"@ {
            Some(match assoc_get(es, s0) {
                Some(v) => v,
                None => arg_or_null(args, 1),
            })
        } else if method == "merge"@ {
            Some(ValueModel::Object(match arg_or_null(args, 0) {
                ValueModel::Object(other) => set_all(es, other),
                _ => es,
            }))
        } else if method == "delete"@ || method == "remove"@ {
            Some(ValueModel::Object(assoc_remove(es, s0)))
        } else if method == "is_empty"@ {
            Some(ValueModel::Bool(es.len() == 0))
        } else if method == "keys"@ {
            Some(ValueModel::Array(str_values(sort_texts(entry_keys(es)))))
        } else {
            None
        },
        _ => None,
    }
}

/// Whether `r` is the answer `m` describes.
pub open spec fn method_answers(r: Option<Value>, m: Option<ValueModel>) -> bool {
    match m {
        None => r is None,
        Some(v) => r matches Some(x) && x.model() == v,
    }
}

fn concat_values(items: &Vec<Value>, args: &[Value]) -> (r: Vec<Value>)
    ensures
        values_model(r@) == concat_args(values_model(items@), values_model(args@)),
{
    let mut out = copy_all(items);
    let mut i: usize = 0;
    while i < args.len()
        invariant
            i <= args@.len(),
            values_model(out@) == concat_args(values_model(items@), values_model(args@.subrange(0, i as int))),
        decreases args@.len() - i,
    {
        let ghost before = values_model(out@);
        assert(values_model(args@.subrange(0, i + 1)).drop_last() =~= values_model(
            args@.subrange(0, i as int),
        ));
        assert(values_model(args@.subrange(0, i + 1)).last() == args@[i as int].model());
        match &args[i] {
            Value::Array(b) => {
                let c = copy_all(b);
                let mut k: usize = 0;
                while k < c.len()
                    invariant
                        k <= c@.len(),
                        values_model(out@) == before + values_model(c@).subrange(0, k as int),
                    decreases c@.len() - k,
                {
                    let v = c[k].deep_copy();
                    let ghost mid = out@;
                    out.push(v);
                    assert(values_model(out@) =~= values_model(mid).push(v.model()));
                    assert(values_model(c@).subrange(0, k + 1) =~= values_model(c@).subrange(0, k as int).push(c@[k as int].model()));
                    k = k + 1;
                }
                assert(values_model(c@).subrange(0, c@.len() as int) =~= values_model(c@));
                assert(args@[i as int].model()->Array_0 =~= values_model(b@));
            },
            other => {
                let v = other.deep_copy();
                let ghost mid = out@;
                out.push(v);
                assert(values_model(out@) =~= values_model(mid).push(v.model()));
                assert(values_model(out@) =~= before + seq![v.model()]);
            },
        }
        i = i + 1;
    }
    assert(args@.subrange(0, args@.len() as int) =~= args@);
    out
}

fn replace_first_chars(s: &Vec<char>, pat: &Vec<char>, rep: &Vec<char>) -> (r: Vec<char>)
    ensures
        r@ == replace_first(s@, pat@, rep@),
{
    let mut out: Vec<char> = Vec::new();
    let mut i: usize = 0;
    let slen = s.len();
    assert(s@.skip(0) =~= s@);
    loop
        invariant
            slen == s@.len(),
            i <= s@.len(),
            out@ + replace_first(s@.skip(i as int), pat@, rep@) == replace_first(s@, pat@, rep@),
        decreases s@.len() - i,
    {
        let ghost t = s@.skip(i as int);
        if occurs_at_exec(s, pat, i) {
            assert(t.subrange(0, pat@.len() as int) =~= s@.subrange(i as int, i + pat@.len()));
            assert(occurs_at(t, pat@, 0));
            push_all(&mut out, rep);
            let mut k = i + pat.len();
            let ghost mid = out@;
            while k < s.len()
                invariant
                    i + pat@.len() <= k <= s@.len(),
                    out@ == mid + s@.subrange(i + pat@.len(), k as int),
                decreases s@.len() - k,
            {
                out.push(s[k]);
                k = k + 1;
                assert(out@ =~= mid + s@.subrange(i + pat@.len(), k as int));
            }
            assert(t.skip(pat@.len() as int) =~= s@.subrange(i + pat@.len(), s@.len() as int));
            assert(out@ =~= out@ + Seq::<char>::empty());
            return out;
        }
        if pat.len() <= s.len() - i {
            assert(t.subrange(0, pat@.len() as int) =~= s@.subrange(i as int, i + pat@.len()));
        }
        assert(!occurs_at(t, pat@, 0));
        if i == s.len() {
            assert(t =~= Seq::<char>::empty());
            assert(out@ + t =~= out@);
            return out;
        }
        let ghost before = out@;
        out.push(s[i]);
        assert(t.drop_first() =~= s@.skip(i + 1));
        assert(out@ + replace_first(s@.skip(i + 1), pat@, rep@) =~= before + (seq![t[0]]
            + replace_first(t.drop_first(), pat@, rep@)));
        i = i + 1;
    }
}

/// Runs the value-shaping method `method` of `recv` with `args`: `None`
/// when the receiver has no such method here.
pub fn eval_value_method(recv: &Value, method: &str, args: &[Value]) -> (r: Option<Value>)
    ensures
        method_answers(r, value_method(recv.model(), method@, values_model(args@))),
{
    match recv {
        Value::Array(items) => {
            assert(recv.model()->Array_0 =~= values_model(items@));
            array_method(items, method, args)
        },
        Value::Str(s) => string_method(s, method, args),
        Value::Object(m) => object_method(m, method, args),
        _ => None,
    }
}

fn array_method(items: &Vec<Value>, method: &str, args: &[Value]) -> (r: Option<Value>)
    ensures
        method_answers(r, value_method(ValueModel::Array(values_model(items@)), method@, values_model(args@))),
{
    let ghost im = values_model(items@);
    let ghost am = values_model(args@);
    let n = items.len();
    if str_eq(method, "push") || str_eq(method, "append") {
        let mut out = copy_all(items);
        let extra = copy_all_slice(args);
        let mut e = extra;
        out.append(&mut e);
        assert(values_model(out@) =~= im + am);
        Some(array_value(out))
    } else if str_eq(method, "pop") {
        if n > 0 { Some(items[n - 1].deep_copy()) } else { Some(Value::Null) }
    } else if str_eq(method, "shift") {
        if n > 0 { Some(items[0].deep_copy()) } else { Some(Value::Null) }
    } else if str_eq(method, "unshift") {
        let mut out: Vec<Value> = Vec::new();
        if args.len() > 0 {
            out.push(args[0].deep_copy());
        }
        let mut rest = copy_all(items);
        let ghost front = values_model(out@);
        out.append(&mut rest);
        assert(values_model(out@) =~= front + im);
        if args.len() > 0 {
            assert(front =~= seq![am[0]]);
        } else {
            assert(front =~= Seq::<ValueModel>::empty());
        }
        Some(array_value(out))
    } else if str_eq(method, "first") {
        if n > 0 { Some(items[0].deep_copy()) } else { Some(Value::Null) }
    } else if str_eq(method, "last") {
        if n > 0 { Some(items[n - 1].deep_copy()) } else { Some(Value::Null) }
    } else if str_eq(method, "reverse") {
        let mut out: Vec<Value> = Vec::new();
        let mut k: usize = n;
        while k > 0
            invariant
                k <= n == items@.len(),
                im == values_model(items@),
                values_model(out@) == im.reverse().subrange(0, (n - k) as int),
            decreases k,
        {
            let v = items[k - 1].deep_copy();
            let ghost mid = out@;
            out.push(v);
            assert(values_model(out@) =~= values_model(mid).push(v.model()));
            assert(im.reverse().subrange(0, (n - k + 1) as int) =~= im.reverse().subrange(0, (n - k) as int).push(im[k - 1]));
            k = k - 1;
        }
        assert(im.reverse().subrange(0, n as int) =~= im.reverse());
        Some(array_value(out))
    } else if str_eq(method, "concat") {
        Some(array_value(concat_values(items, args)))
    } else if str_eq(method, "flat") || str_eq(method, "flatten") {
        Some(array_value(flatten_values(items)))
    } else if str_eq(method, "sort") {
        let mut out = copy_all(items);
        if crate::interpreter::sort_strings_in_place(&mut out) {
            Some(array_value(out))
        } else {
            None
        }
    } else {
        None
    }
}

fn copy_all_slice(items: &[Value]) -> (r: Vec<Value>)
    ensures
        values_model(r@) == values_model(items@),
{
    let mut out: Vec<Value> = Vec::new();
    let mut i: usize = 0;
    while i < items.len()
        invariant
            i <= items@.len(),
            values_model(out@) == values_model(items@).subrange(0, i as int),
        decreases items@.len() - i,
    {
        let c = items[i].deep_copy();
        let ghost mid = out@;
        out.push(c);
        assert(values_model(out@) =~= values_model(mid).push(c.model()));
        assert(values_model(items@).subrange(0, i + 1) =~= values_model(items@).subrange(0, i as int).push(items@[i as int].model()));
        i = i + 1;
    }
    assert(values_model(items@).subrange(0, items@.len() as int) =~= values_model(items@));
    out
}

pub(crate) fn char_string_values(s: &Vec<char>) -> (r: Vec<Value>)
    ensures
        values_model(r@) == char_strings(s@),
{
    let mut out: Vec<Value> = Vec::new();
    let mut i: usize = 0;
    while i < s.len()
        invariant
            i <= s@.len(),
            values_model(out@) == char_strings(s@).subrange(0, i as int),
        decreases s@.len() - i,
    {
        let mut one = String::new();
        string_push(&mut one, s[i]);
        let v = Value::Str(one);
        let ghost mid = out@;
        out.push(v);
        assert(values_model(out@) =~= values_model(mid).push(v.model()));
        i = i + 1;
        assert(values_model(out@) =~= char_strings(s@).subrange(0, i as int));
    }
    assert(char_strings(s@).subrange(0, s@.len() as int) =~= char_strings(s@));
    out
}

fn line_values(s: &Vec<char>) -> (r: Vec<Value>)
    ensures
        values_model(r@) == str_values(text_lines(s@)),
{
    let ls = split_lines(s);
    let mut out: Vec<Value> = Vec::new();
    let mut i: usize = 0;
    while i < ls.len()
        invariant
            i <= ls@.len(),
            lines_view(ls@) == text_lines(s@),
            values_model(out@) == str_values(lines_view(ls@)).subrange(0, i as int),
        decreases ls@.len() - i,
    {
        let v = str_value(&ls[i]);
        let ghost mid = out@;
        out.push(v);
        assert(values_model(out@) =~= values_model(mid).push(v.model()));
        i = i + 1;
        assert(values_model(out@) =~= str_values(lines_view(ls@)).subrange(0, i as int));
    }
    assert(str_values(lines_view(ls@)).subrange(0, ls@.len() as int) =~= str_values(lines_view(ls@)));
    out
}

fn string_method(s: &String, method: &str, args: &[Value]) -> (r: Option<Value>)
    ensures
        method_answers(r, value_method(ValueModel::Str(s@), method@, values_model(args@))),
{
    let ghost am = values_model(args@);
    if str_eq(method, "to_upper") || str_eq(method, "upper") {
        Some(Value::Str(str_to_uppercase(s.as_str())))
    } else if str_eq(method, "to_lower") || str_eq(method, "lower") {
        Some(Value::Str(str_to_lowercase(s.as_str())))
    } else if str_eq(method, "trim") {
        let c = chars_of(s.as_str());
        let a = trim_start_chars(&c);
        Some(str_value(&trim_end_chars(&a)))
    } else if str_eq(method, "trim_start") || str_eq(method, "ltrim") {
        let c = chars_of(s.as_str());
        Some(str_value(&trim_start_chars(&c)))
    } else if str_eq(method, "trim_end") || str_eq(method, "rtrim") {
        let c = chars_of(s.as_str());
        Some(str_value(&trim_end_chars(&c)))
    } else if str_eq(method, "split") {
        let c = chars_of(s.as_str());
        let sep = if args.len() > 0 && matches!(args[0], Value::Str(_)) {
            assert(am[0] == args@[0].model());
            text_arg(args, 0)
        } else {
            if args.len() > 0 {
                assert(am[0] == args@[0].model());
            }
            lit_chars(" ")
        };
        Some(array_value(split_values(&c, &sep)))
    } else if str_eq(method, "split_lines") || str_eq(method, "lines") {
        let c = chars_of(s.as_str());
        Some(array_value(line_values(&c)))
    } else if str_eq(method, "contains") || str_eq(method, "includes") {
        let c = chars_of(s.as_str());
        Some(Value::Bool(crate::interpreter::util::contains_exec(&c, arg_str_ref(args, 0))))
    } else if str_eq(method, "starts_with") {
        let c = chars_of(s.as_str());
        let p = text_arg(args, 0);
        Some(Value::Bool(prefix_of(&c, &p)))
    } else if str_eq(method, "ends_with") {
        let c = chars_of(s.as_str());
        let p = text_arg(args, 0);
        Some(Value::Bool(suffix_of(&c, &p)))
    } else if str_eq(method, "replace") {
        let c = chars_of(s.as_str());
        let p = text_arg(args, 0);
        let q = text_arg(args, 1);
        Some(str_value(&replace_chars(&c, &p, &q)))
    } else if str_eq(method, "replace_first") {
        let c = chars_of(s.as_str());
        let p = text_arg(args, 0);
        let q = text_arg(args, 1);
        Some(str_value(&replace_first_chars(&c, &p, &q)))
    } else if str_eq(method, "reverse") {
        let c = chars_of(s.as_str());
        let mut out: Vec<char> = Vec::new();
        let mut k: usize = c.len();
        while k > 0
            invariant
                k <= c@.len(),
                out@ == c@.reverse().subrange(0, (c@.len() - k) as int),
            decreases k,
        {
            out.push(c[k - 1]);
            assert(c@.reverse().subrange(0, (c@.len() - k + 1) as int) =~= c@.reverse().subrange(0, (c@.len() - k) as int).push(c@[k - 1]));
            k = k - 1;
        }
        assert(c@.reverse().subrange(0, c@.len() as int) =~= c@.reverse());
        Some(str_value(&out))
    } else if str_eq(method, "to_array") {
        let c = chars_of(s.as_str());
        Some(array_value(char_string_values(&c)))
    } else if str_eq(method, "is_empty") {
        let c = chars_of(s.as_str());
        Some(Value::Bool(c.len() == 0))
    } else if str_eq(method, "to_upper_first") {
        let c = chars_of(s.as_str());
        if c.len() == 0 {
            return Some(str_value(&c));
        }
        let mut out = char_to_uppercase(c[0]);
        let rest = string_from_range(&c, 1, c.len());
        out.append(rest.as_str());
        assert(c@.subrange(1, c@.len() as int) =~= c@.drop_first());
        Some(Value::Str(out))
    } else {
        None
    }
}

fn object_method(m: &ObjectMap, method: &str, args: &[Value]) -> (r: Option<Value>)
    ensures
        method_answers(r, value_method(ValueModel::Object(m.model()), method@, values_model(args@))),
{
    let ghost am = values_model(args@);
    if str_eq(method, "has") || str_eq(method, "has_key") {
        Some(Value::Bool(m.contains_key(arg_str_ref(args, 0))))
    } else if str_eq(method, "values") {
        Some(array_value(object_values(m)))
    } else if str_eq(method, "entries") {
        Some(array_value(object_entries(m)))
    } else if str_eq(method, "get") {
        match m.get(arg_str_ref(args, 0)) {
            Some(v) => Some(v.deep_copy()),
            None => Some(arg_copy(args, 1)),
        }
    } else if str_eq(method, "merge") {
        let mut out = m.deep_copy();
        if args.len() > 0 {
            assert(am[0] == args@[0].model());
            if let Value::Object(other) = &args[0] {
                let ghost acc = out.model();
                let mut k: usize = 0;
                while k < other.len()
                    invariant
                        k <= other.model().len(),
                        out.model() == set_all(acc, other.model().subrange(0, k as int)),
                    decreases other.model().len() - k,
                {
                    let (key, val) = other.entry(k);
                    let kc = key.clone();
                    let vc = val.deep_copy();
                    out.insert(kc, vc);
                    assert(other.model().subrange(0, k + 1).drop_last() =~= other.model().subrange(0, k as int));
                    k = k + 1;
                }
                assert(other.model().subrange(0, other.model().len() as int) =~= other.model());
            }
        }
        Some(Value::Object(out))
    } else if str_eq(method, "delete") || str_eq(method, "remove") {
        let mut out = m.deep_copy();
        out.remove(arg_str_ref(args, 0));
        Some(Value::Object(out))
    } else if str_eq(method, "is_empty") {
        Some(Value::Bool(m.len() == 0))
    } else if str_eq(method, "keys") {
        Some(array_value(sorted_key_values(m)))
    } else {
        None
    }
}

// ── Helpers on text ──────────────────────────────────────────────────────────

/// The first position at or after `i` where `p` occurs in `s`, or the
/// length of `s` when it does not occur there.
pub open spec fn find_from(s: Seq<char>, p: Seq<char>, i: int) -> int
    decreases s.len() - i,
{
    if i < 0 || i >= s.len() {
        s.len() as int
    } else if occurs_at(s, p, i) {
        i
    } else {
        find_from(s, p, i + 1)
    }
}

/// The last position of `c` in `s`, or -1.
pub open spec fn last_index_of(s: Seq<char>, c: char) -> int
    decreases s.len(),
{
    if s.len() == 0 {
        -1
    } else if s.last() == c {
        s.len() - 1
    } else {
        last_index_of(s.drop_last(), c)
    }
}

fn find_exec(s: &Vec<char>, p: &Vec<char>, from: usize) -> (r: usize)
    requires
        from <= s@.len(),
    ensures
        r as int == find_from(s@, p@, from as int),
        r <= s@.len(),
{
    let n = s.len();
    let mut i = from;
    while i < n
        invariant
            from <= i <= n == s@.len(),
            find_from(s@, p@, i as int) == find_from(s@, p@, from as int),
        decreases n - i,
    {
        if occurs_at_exec(s, p, i) {
            return i;
        }
        i = i + 1;
    }
    n
}

fn last_index_exec(s: &Vec<char>, c: char) -> (r: Option<usize>)
    ensures
        match r {
            Some(i) => i as int == last_index_of(s@, c) && i < s@.len(),
            None => last_index_of(s@, c) == -1,
        },
{
    let mut k: usize = s.len();
    assert(s@.subrange(0, k as int) =~= s@);
    while k > 0
        invariant
            k <= s@.len(),
            last_index_of(s@.subrange(0, k as int), c) == last_index_of(s@, c),
        decreases k,
    {
        if s[k - 1] == c {
            return Some(k - 1);
        }
        assert(s@.subrange(0, k as int).drop_last() =~= s@.subrange(0, k - 1));
        k = k - 1;
    }
    None
}

/// `s` cut at the first occurrence of `p`: the text before it, the text
/// after it, and whether it occurs at all (when it does not, all of `s` is
/// "before").
pub open spec fn cut_first(s: Seq<char>, p: Seq<char>) -> (Seq<char>, Seq<char>, bool) {
    let f = find_from(s, p, 0);
    if f < s.len() {
        (s.take(f), s.skip(f + p.len()), true)
    } else {
        (s, Seq::empty(), false)
    }
}

/// The parts `url_parse` splits a URL into: scheme, host, port, path,
/// query and fragment. The fragment follows the first `#`, the scheme
/// comes before the first `://`, the query follows the first `?`, the path
/// starts at the first `/`, and the port follows the last `:` of what is
/// left before the path.
pub open spec fn url_parts(u: Seq<char>) -> (Seq<char>, Seq<char>, Seq<char>, Seq<char>, Seq<char>, Seq<char>) {
    let (r1, fragment, _) = cut_first(u, seq!['#']);
    let (a, b, has_scheme) = cut_first(r1, seq![':', '/', '/']);
    let scheme = if has_scheme { a } else { Seq::<char>::empty() };
    let r2 = if has_scheme { b } else { r1 };
    let (r3, query, _) = cut_first(r2, seq!['?']);
    let sl = find_from(r3, seq!['/'], 0);
    let authority = if sl < r3.len() { r3.take(sl) } else { r3 };
    let path = if sl < r3.len() { r3.skip(sl) } else { Seq::<char>::empty() };
    let c = last_index_of(authority, ':');
    let host = if c >= 0 { authority.take(c) } else { authority };
    let port = if c >= 0 { authority.skip(c + 1) } else { Seq::<char>::empty() };
    (scheme, host, port, path, query, fragment)
}

fn cut_first_exec(s: &Vec<char>, p: &Vec<char>) -> (r: (Vec<char>, Vec<char>, bool))
    ensures
        (r.0@, r.1@, r.2) == cut_first(s@, p@),
{
    let f = find_exec(s, p, 0);
    if f < s.len() {
        proof {
            lemma_find_from_occurs(s@, p@, 0);
        }
        let a = slice_chars(s, 0, f);
        let b = slice_chars(s, f + p.len(), s.len());
        assert(a@ =~= s@.take(f as int));
        assert(b@ =~= s@.skip(f + p@.len()));
        (a, b, true)
    } else {
        let a = slice_chars(s, 0, s.len());
        assert(a@ =~= s@);
        (a, Vec::new(), false)
    }
}

fn url_split(u: &Vec<char>) -> (r: (Vec<char>, Vec<char>, Vec<char>, Vec<char>, Vec<char>, Vec<char>))
    ensures
        (r.0@, r.1@, r.2@, r.3@, r.4@, r.5@) == url_parts(u@),
{
    let hash = lit_chars("#");
    let sep = lit_chars("://");
    let qm = lit_chars("?");
    let slash = lit_chars("/");
    proof {
        reveal_strlit("#");
        reveal_strlit("://");
        reveal_strlit("?");
        reveal_strlit("/");
        assert(hash@ =~= seq!['#']);
        assert(sep@ =~= seq![':', '/', '/']);
        assert(qm@ =~= seq!['?']);
        assert(slash@ =~= seq!['/']);
    }
    let (r1, fragment, _) = cut_first_exec(u, &hash);
    let (a, b, has_scheme) = cut_first_exec(&r1, &sep);
    let (scheme, r2) = if has_scheme { (a, b) } else { (Vec::new(), r1) };
    let (r3, query, _) = cut_first_exec(&r2, &qm);
    let sl = find_exec(&r3, &slash, 0);
    let (authority, path) = if sl < r3.len() {
        (slice_chars(&r3, 0, sl), slice_chars(&r3, sl, r3.len()))
    } else {
        (slice_chars(&r3, 0, r3.len()), Vec::new())
    };
    assert(authority@ =~= (if (sl as int) < r3@.len() { r3@.take(sl as int) } else { r3@ }));
    assert(path@ =~= (if (sl as int) < r3@.len() { r3@.skip(sl as int) } else { Seq::<char>::empty() }));
    let (host, port) = match last_index_exec(&authority, ':') {
        Some(c) => (slice_chars(&authority, 0, c), slice_chars(&authority, c + 1, authority.len())),
        None => (slice_chars(&authority, 0, authority.len()), Vec::new()),
    };
    proof {
        let c = last_index_of(authority@, ':');
        assert(host@ =~= (if c >= 0 { authority@.take(c) } else { authority@ }));
        assert(port@ =~= (if c >= 0 { authority@.skip(c + 1) } else { Seq::<char>::empty() }));
    }
    (scheme, host, port, path, query, fragment)
}

/// The object `url_parse` returns: the parts by name, with a `null` port
/// when the URL gives none.
pub open spec fn url_object(u: Seq<char>) -> Seq<(Seq<char>, ValueModel)> {
    let (scheme, host, port, path, query, fragment) = url_parts(u);
    seq![
        ("scheme"@, ValueModel::Str(scheme)),
        ("host"@, ValueModel::Str(host)),
        ("port"@, if port.len() == 0 { ValueModel::Null } else { ValueModel::Str(port) }),
        ("path"@, ValueModel::Str(path)),
        ("query"@, ValueModel::Str(query)),
        ("fragment"@, ValueModel::Str(fragment)),
    ]
}

fn slice_chars(v: &Vec<char>, from: usize, to: usize) -> (r: Vec<char>)
    requires
        from <= to <= v@.len(),
    ensures
        r@ == v@.subrange(from as int, to as int),
{
    let mut out: Vec<char> = Vec::new();
    let mut i = from;
    while i < to
        invariant
            from <= i <= to <= v@.len(),
            out@ == v@.subrange(from as int, i as int),
        decreases to - i,
    {
        out.push(v[i]);
        i = i + 1;
        assert(out@ =~= v@.subrange(from as int, i as int));
    }
    out
}

/// Splits a URL into its parts (the text of `url_parse`'s argument).
pub fn url_parse(url: &str) -> (r: Value)
    ensures
        r.model() == ValueModel::Object(url_object(url@)),
{
    let u = chars_of(url);
    let (scheme, host, port, path, query, fragment) = url_split(&u);
    proof {
        reveal_strlit("scheme");
        reveal_strlit("host");
        reveal_strlit("port");
        reveal_strlit("path");
        reveal_strlit("query");
        reveal_strlit("fragment");
        assert("scheme"@.len() == 6 && "host"@.len() == 4 && "port"@.len() == 4);
        assert("path"@.len() == 4 && "query"@.len() == 5 && "fragment"@.len() == 8);
        assert("host"@[0] == 'h' && "port"@[0] == 'p' && "path"@[0] == 'p');
        assert("port"@[1] == 'o' && "path"@[1] == 'a');
    }
    let mut obj = ObjectMap::new();
    let ghost e0 = obj.model();
    obj.insert(String::from_str("scheme"), str_value(&scheme));
    proof { crate::value::lemma_assoc_set_fresh(e0, "scheme"@, ValueModel::Str(scheme@)); }
    let ghost e1 = obj.model();
    obj.insert(String::from_str("host"), str_value(&host));
    proof { crate::value::lemma_assoc_set_fresh(e1, "host"@, ValueModel::Str(host@)); }
    let port_value = if port.len() == 0 { Value::Null } else { str_value(&port) };
    let ghost e2 = obj.model();
    let ghost pv = port_value.model();
    obj.insert(String::from_str("port"), port_value);
    proof { crate::value::lemma_assoc_set_fresh(e2, "port"@, pv); }
    let ghost e3 = obj.model();
    obj.insert(String::from_str("path"), str_value(&path));
    proof { crate::value::lemma_assoc_set_fresh(e3, "path"@, ValueModel::Str(path@)); }
    let ghost e4 = obj.model();
    obj.insert(String::from_str("query"), str_value(&query));
    proof { crate::value::lemma_assoc_set_fresh(e4, "query"@, ValueModel::Str(query@)); }
    let ghost e5 = obj.model();
    obj.insert(String::from_str("fragment"), str_value(&fragment));
    proof { crate::value::lemma_assoc_set_fresh(e5, "fragment"@, ValueModel::Str(fragment@)); }
    assert(obj.model() =~= url_object(url@));
    Value::Object(obj)
}

proof fn lemma_find_from_occurs(s: Seq<char>, p: Seq<char>, i: int)
    requires
        0 <= i <= s.len(),
        find_from(s, p, i) < s.len(),
    ensures
        occurs_at(s, p, find_from(s, p, i)),
        i <= find_from(s, p, i),
    decreases s.len() - i,
{
    if i < s.len() && !occurs_at(s, p, i) {
        lemma_find_from_occurs(s, p, i + 1);
    }
}

/// What `truncate(text, max, ellipsis)` gives: the text itself when it has
/// at most `max` characters, nothing when `max` is zero, and otherwise its
/// first `max - |ellipsis|` characters (none if the ellipsis is longer)
/// followed by the ellipsis.
pub open spec fn truncated(s: Seq<char>, max: nat, ellipsis: Seq<char>) -> Seq<char> {
    if s.len() <= max {
        s
    } else if max == 0 {
        Seq::empty()
    } else {
        let keep = if ellipsis.len() <= max { max - ellipsis.len() } else { 0 };
        s.take(keep) + ellipsis
    }
}

/// Clips `text` to at most `max` characters (counting the ellipsis), as
/// `truncate` does.
pub fn truncate_text(text: &str, max: usize, ellipsis: &str) -> (r: String)
    ensures
        r@ == truncated(text@, max as nat, ellipsis@),
{
    let c = chars_of(text);
    if c.len() <= max {
        return string_from_chars(&c);
    }
    if max == 0 {
        return String::new();
    }
    let e = chars_of(ellipsis);
    let keep = if e.len() <= max { max - e.len() } else { 0 };
    let mut out = string_from_range(&c, 0, keep);
    out.append(ellipsis);
    assert(c@.subrange(0, keep as int) =~= c@.take(keep as int));
    out
}

/// The placeholder `{i}` of `format`.
pub open spec fn placeholder(i: nat) -> Seq<char> {
    seq!['{'] + crate::text::decimal(i) + seq!['}']
}

/// `template` with `{0}`, `{1}`, ... replaced in turn by the texts of the
/// arguments.
pub open spec fn format_text(template: Seq<char>, texts: Seq<Seq<char>>) -> Seq<char>
    decreases texts.len(),
{
    if texts.len() == 0 {
        template
    } else {
        replace_all(
            format_text(template, texts.drop_last()),
            placeholder((texts.len() - 1) as nat),
            texts.last(),
        )
    }
}

/// `format(template, args...)` on the texts of the arguments: each `{i}`
/// is replaced by the text of argument `i`, in order.
pub fn format_template(template: &str, texts: &[String]) -> (r: String)
    ensures
        r@ == format_text(template@, texts@.map_values(|t: String| t@)),
{
    let ghost tv = texts@.map_values(|t: String| t@);
    let mut out = chars_of(template);
    let mut i: usize = 0;
    while i < texts.len()
        invariant
            i <= texts@.len(),
            tv == texts@.map_values(|t: String| t@),
            out@ == format_text(template@, tv.subrange(0, i as int)),
        decreases texts@.len() - i,
    {
        let mut ph = String::from_str("{");
        crate::text::push_decimal(&mut ph, i);
        ph.append("}");
        proof {
            reveal_strlit("{");
            reveal_strlit("}");
        }
        assert(ph@ =~= placeholder(i as nat));
        let p = chars_of(ph.as_str());
        let t = chars_of(texts[i].as_str());
        out = replace_chars(&out, &p, &t);
        assert(tv.subrange(0, i + 1).drop_last() =~= tv.subrange(0, i as int));
        i = i + 1;
    }
    assert(tv.subrange(0, texts@.len() as int) =~= tv);
    string_from_chars(&out)
}

// ── Laws ─────────────────────────────────────────────────────────────────────

/// After `set_key(obj, k, v)`, the object's `.get(k)` gives `v`, and
/// `.get` of any other key gives what it gave before.
pub proof fn lemma_get_after_set_key(
    es: Seq<(Seq<char>, ValueModel)>,
    k: Seq<char>,
    v: ValueModel,
    other: Seq<char>,
)
    ensures
        edit_builtin("set_key"@, seq![ValueModel::Object(es), ValueModel::Str(k), v]) == Some(
            Ok::<ValueModel, Seq<char>>(ValueModel::Object(assoc_set(es, k, v))),
        ),
        value_method(ValueModel::Object(assoc_set(es, k, v)), "get"@, seq![ValueModel::Str(k)])
            == Some(v),
        other != k ==> value_method(
            ValueModel::Object(assoc_set(es, k, v)),
            "get"@,
            seq![ValueModel::Str(other)],
        ) == value_method(ValueModel::Object(es), "get"@, seq![ValueModel::Str(other)]),
{
    reveal_strlit("get");
    assert("get"@.len() == 3);
    reveal_strlit("has");
    assert("has"@[0] == 'h' && "get"@[0] == 'g');
    reveal_strlit("has_key");
    assert("has_key"@.len() == 7);
    reveal_strlit("values");
    assert("values"@.len() == 6);
    reveal_strlit("entries");
    assert("entries"@.len() == 7);
    reveal_strlit("set_key");
    assert("set_key"@.len() == 7);
    crate::value::lemma_assoc_get_set_same(es, k, v);
    if other != k {
        crate::value::lemma_assoc_get_set_other(es, k, v, other);
    }
}

/// After `delete_key(obj, k)` on an object with distinct keys, `.has(k)`
/// is false.
pub proof fn lemma_has_after_delete_key(es: Seq<(Seq<char>, ValueModel)>, k: Seq<char>)
    requires
        crate::value::keys_distinct(es),
    ensures
        value_method(ValueModel::Object(assoc_remove(es, k)), "has"@, seq![ValueModel::Str(k)])
            == Some(ValueModel::Bool(false)),
{
    reveal_strlit("has");
    crate::value::lemma_key_index(es, k);
    let r = assoc_remove(es, k);
    crate::value::lemma_key_index(r, k);
    if crate::value::key_index(r, k) < r.len() {
        let j = crate::value::key_index(r, k);
        let i = crate::value::key_index(es, k);
        assert(r[j].0 == k);
        if j < i {
            assert(es[j].0 == k);
        } else {
            assert(es[j + 1].0 == k);
            assert(es[i].0 == k);
        }
    }
}

/// `.pop()` after `.push(x)` gives `x`, and `.shift()` after
/// `.unshift(x)` gives `x`.
pub proof fn lemma_pop_after_push(items: Seq<ValueModel>, x: ValueModel)
    ensures
        value_method(
            ValueModel::Array(items),
            "push"@,
            seq![x],
        ) == Some(ValueModel::Array(items.push(x))),
        value_method(ValueModel::Array(items.push(x)), "pop"@, Seq::empty()) == Some(x),
        value_method(ValueModel::Array(items), "unshift"@, seq![x]) == Some(
            ValueModel::Array(seq![x] + items),
        ),
        value_method(ValueModel::Array(seq![x] + items), "shift"@, Seq::empty()) == Some(x),
{
    reveal_strlit("pop");
    assert("pop"@.len() == 3);
    reveal_strlit("push");
    assert("push"@.len() == 4);
    reveal_strlit("append");
    assert("append"@.len() == 6);
    reveal_strlit("unshift");
    assert("unshift"@.len() == 7);
    reveal_strlit("push");
    assert("push"@.len() == 4);
    reveal_strlit("append");
    assert("append"@.len() == 6);
    reveal_strlit("pop");
    assert("pop"@.len() == 3);
    reveal_strlit("shift");
    assert("shift"@.len() == 5);
    reveal_strlit("shift");
    assert("shift"@.len() == 5);
    reveal_strlit("push");
    assert("push"@.len() == 4);
    reveal_strlit("append");
    assert("append"@.len() == 6);
    reveal_strlit("pop");
    assert("pop"@.len() == 3);
    assert(items + seq![x] =~= items.push(x));
    assert(items.push(x).last() == x);
    assert((seq![x] + items)[0] == x);
}

/// Reversing a string twice gives it back.
pub proof fn lemma_string_reverse_twice(s: Seq<char>)
    ensures
        value_method(ValueModel::Str(s), "reverse"@, Seq::empty()) == Some(ValueModel::Str(s.reverse())),
        value_method(ValueModel::Str(s.reverse()), "reverse"@, Seq::empty()) == Some(ValueModel::Str(s)),
{
    reveal_strlit("reverse");
    assert("reverse"@.len() == 7);
    reveal_strlit("to_upper");
    assert("to_upper"@.len() == 8);
    reveal_strlit("upper");
    assert("upper"@.len() == 5);
    reveal_strlit("to_lower");
    assert("to_lower"@.len() == 8);
    reveal_strlit("lower");
    assert("lower"@.len() == 5);
    reveal_strlit("trim");
    assert("trim"@.len() == 4);
    reveal_strlit("trim_start");
    assert("trim_start"@.len() == 10);
    reveal_strlit("ltrim");
    assert("ltrim"@.len() == 5);
    reveal_strlit("trim_end");
    assert("trim_end"@.len() == 8);
    reveal_strlit("rtrim");
    assert("rtrim"@.len() == 5);
    reveal_strlit("split");
    assert("split"@.len() == 5);
    reveal_strlit("split_lines");
    assert("split_lines"@.len() == 11);
    reveal_strlit("lines");
    assert("lines"@.len() == 5);
    reveal_strlit("contains");
    assert("contains"@.len() == 8);
    reveal_strlit("includes");
    assert("includes"@.len() == 8);
    reveal_strlit("starts_with");
    assert("starts_with"@.len() == 11);
    reveal_strlit("ends_with");
    assert("ends_with"@.len() == 9);
    reveal_strlit("replace");
    assert("replace"@[2] == 'p' && "reverse"@[2] == 'v');
    reveal_strlit("replace_first");
    assert("replace_first"@.len() == 13);
    assert(s.reverse().reverse() =~= s);
}

// ── Character codes ──────────────────────────────────────────────────────────

/// Whether `n` is the code of a character: a Unicode scalar value.
pub open spec fn is_char_code(n: u32) -> bool {
    n < 0xD800 || (0xE000 <= n && n <= 0x10FFFF)
}

/// `char::from_u32`: the character whose code is `n`, or `None` when `n`
/// is a surrogate or above U+10FFFF.
#[verifier::external_body]
fn char_from_code(n: u32) -> (r: Option<char>)
    ensures
        match r {
            Some(c) => is_char_code(n) && c as u32 == n,
            None => !is_char_code(n),
        },
{
    char::from_u32(n)
}

/// The builtin `chr(code)`, its argument already a whole number: the
/// one-character string with that code, or null when no character has it.
pub fn chr(code: u32) -> (r: Value)
    ensures
        is_char_code(code) ==> (r matches Value::Str(t) && t@.len() == 1 && t@[0] as u32 == code),
        !is_char_code(code) ==> r is Null,
{
    match char_from_code(code) {
        Some(c) => {
            let mut t = String::new();
            string_push(&mut t, c);
            Value::Str(t)
        },
        None => Value::Null,
    }
}

/// The code `ord(text)` answers: that of the first character, or 0 for
/// the empty text.
pub open spec fn ord_code(s: Seq<char>) -> u32 {
    if s.len() > 0 {
        s[0] as u32
    } else {
        0
    }
}

/// The builtin `ord(text)`.
pub fn ord(s: &str) -> (r: u32)
    ensures
        r == ord_code(s@),
{
    let cs = chars_of(s);
    if cs.len() > 0 {
        cs[0] as u32
    } else {
        0
    }
}

} // verus!
