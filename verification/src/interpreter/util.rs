//! Miscellaneous helpers used across the interpreter.
use vstd::prelude::*;
use crate::text::{
    all_digits, char_pred, chars_of, index_of_from, is_alphanumeric, is_ws, is_ws_exec,
    parse_u64, parse_u64_range, spec_is_alphanumeric, spec_is_ascii_digit, spec_to_lowercase,
    split_lines, str_to_lowercase, string_from_chars, string_from_range, text_lines, trim_bounds,
    trim_where, ws_pred,
};

verus! {

/// Whether an import target names a package (resolved through `gx.lock`)
/// rather than a file: no `.gx` suffix, no path separator, no leading `.`.
pub open spec fn spec_is_package_import(p: Seq<char>) -> bool {
    &&& !(p.len() >= 3 && p.subrange(p.len() - 3, p.len() as int) == seq!['.', 'g', 'x'])
    &&& !p.contains('/')
    &&& !p.contains('\\')
    &&& !(p.len() > 0 && p[0] == '.')
}

pub fn is_package_import(path: &str) -> (r: bool)
    ensures
        r == spec_is_package_import(path@),
{
    let n = path.unicode_len();
    let mut i: usize = 0;
    while i < n
        invariant
            n == path@.len(),
            i <= n,
            forall|j: int| 0 <= j < i ==> path@[j] != '/' && path@[j] != '\\',
        decreases n - i,
    {
        let c = path.get_char(i);
        if c == '/' || c == '\\' {
            return false;
        }
        i = i + 1;
    }
    if n > 0 && path.get_char(0) == '.' {
        return false;
    }
    if n >= 3 && path.get_char(n - 3) == '.' && path.get_char(n - 2) == 'g' && path.get_char(n - 1) == 'x' {
        assert(path@.subrange(n - 3, n as int) =~= seq!['.', 'g', 'x']);
        return false;
    }
    if n >= 3 {
        assert(path@.subrange(n - 3, n as int)[0] == path@[n - 3]);
        assert(path@.subrange(n - 3, n as int)[1] == path@[n - 2]);
        assert(path@.subrange(n - 3, n as int)[2] == path@[n - 1]);
    }
    true
}


// ── Text search and replacement ─────────────────────────────────────────────

/// Whether `p` occurs in `s` at position `i`.
pub open spec fn occurs_at(s: Seq<char>, p: Seq<char>, i: int) -> bool {
    0 <= i && i + p.len() <= s.len() && s.subrange(i, i + p.len()) == p
}

/// Whether `p` occurs somewhere in `s`.
pub open spec fn contains_seq(s: Seq<char>, p: Seq<char>) -> bool {
    exists|i: int| occurs_at(s, p, i)
}

pub(crate) fn occurs_at_exec(s: &Vec<char>, p: &Vec<char>, i: usize) -> (r: bool)
    ensures
        r == occurs_at(s@, p@, i as int),
{
    if i > s.len() || p.len() > s.len() - i {
        return false;
    }
    let end = i + p.len();
    let mut k: usize = 0;
    while k < p.len()
        invariant
            end == i + p.len(),
            end <= s.len(),
            k <= p.len(),
            forall|j: int| 0 <= j < k ==> s@[i + j] == p@[j],
        decreases p@.len() - k,
    {
        if s[i + k] != p[k] {
            assert(s@.subrange(i as int, i + p@.len())[k as int] != p@[k as int]);
            return false;
        }
        k = k + 1;
    }
    assert(s@.subrange(i as int, i + p@.len()) =~= p@);
    true
}

pub(crate) fn contains_exec(s: &Vec<char>, pat: &str) -> (r: bool)
    ensures
        r == contains_seq(s@, pat@),
{
    let p = chars_of(pat);
    if p.len() > s.len() {
        assert forall|j: int| !occurs_at(s@, p@, j) by {}
        return false;
    }
    let last = s.len() - p.len();
    let mut i: usize = 0;
    while i < last
        invariant
            p@ == pat@,
            last == s@.len() - p@.len(),
            i <= last,
            forall|j: int| 0 <= j < i ==> !occurs_at(s@, p@, j),
        decreases last - i,
    {
        if occurs_at_exec(s, &p, i) {
            return true;
        }
        i = i + 1;
    }
    if occurs_at_exec(s, &p, last) {
        return true;
    }
    assert forall|j: int| !occurs_at(s@, p@, j) by {
        if 0 <= j && j + p@.len() <= s@.len() {
            assert(j <= last);
        }
    }
    false
}

/// `s` with every occurrence of `pat` replaced by `rep`, scanning left to
/// right over non-overlapping occurrences (what `str::replace` does).
pub open spec fn replace_all(s: Seq<char>, pat: Seq<char>, rep: Seq<char>) -> Seq<char>
    decreases s.len(),
{
    if s.len() == 0 {
        Seq::empty()
    } else if pat.len() > 0 && occurs_at(s, pat, 0) {
        rep + replace_all(s.skip(pat.len() as int), pat, rep)
    } else {
        seq![s[0]] + replace_all(s.drop_first(), pat, rep)
    }
}

fn replace_exec(s: &Vec<char>, pat: &str, rep: &str) -> (r: Vec<char>)
    ensures
        r@ == replace_all(s@, pat@, rep@),
{
    let p = chars_of(pat);
    let rv = chars_of(rep);
    let mut out: Vec<char> = Vec::new();
    let mut i: usize = 0;
    assert(s@.skip(0) =~= s@);
    while i < s.len()
        invariant
            p@ == pat@,
            rv@ == rep@,
            i <= s@.len(),
            out@ + replace_all(s@.skip(i as int), p@, rv@) == replace_all(s@, p@, rv@),
        decreases s@.len() - i,
    {
        let ghost t = s@.skip(i as int);
        let ghost before = out@;
        if p.len() > 0 && occurs_at_exec(s, &p, i) {
            assert(t.subrange(0, p@.len() as int) =~= s@.subrange(i as int, i + p@.len()));
            assert(t.skip(p@.len() as int) =~= s@.skip(i + p@.len()));
            let mut k: usize = 0;
            while k < rv.len()
                invariant
                    k <= rv@.len(),
                    out@ == before + rv@.subrange(0, k as int),
                decreases rv@.len() - k,
            {
                out.push(rv[k]);
                k = k + 1;
                assert(out@ =~= before + rv@.subrange(0, k as int));
            }
            assert(rv@.subrange(0, rv@.len() as int) =~= rv@);
            assert(out@ + replace_all(s@.skip(i + p@.len()), p@, rv@) =~= before + (rv@ + replace_all(
                t.skip(p@.len() as int),
                p@,
                rv@,
            )));
            i = i + p.len();
        } else {
            if p.len() > 0 && p.len() <= s.len() - i {
                assert(t.subrange(0, p@.len() as int) =~= s@.subrange(i as int, i + p@.len()));
            }
            out.push(s[i]);
            assert(t.drop_first() =~= s@.skip(i + 1));
            assert(out@ + replace_all(s@.skip(i + 1), p@, rv@) =~= before + (seq![t[0]] + replace_all(
                t.drop_first(),
                p@,
                rv@,
            )));
            i = i + 1;
        }
    }
    assert(s@.skip(i as int) =~= Seq::<char>::empty());
    assert(out@ + Seq::<char>::empty() =~= out@);
    out
}

// ── HTML to text ─────────────────────────────────────────────────────────────

/// The characters kept from `s[..n]` when tags are dropped (each closing
/// `>` leaves a space), and whether position `n` is inside a tag.
pub open spec fn untag_prefix(s: Seq<char>, n: int) -> (Seq<char>, bool)
    decreases n,
{
    if n <= 0 {
        (Seq::empty(), false)
    } else {
        let (o, t) = untag_prefix(s, n - 1);
        let c = s[n - 1];
        if c == '<' {
            (o, true)
        } else if c == '>' {
            (o.push(' '), false)
        } else if !t {
            (o.push(c), t)
        } else {
            (o, t)
        }
    }
}

/// The six entities decoded, in this order.
pub open spec fn decode_entities(s: Seq<char>) -> Seq<char> {
    let a = replace_all(s, "&amp;"@, "&"@);
    let b = replace_all(a, "&lt;"@, "<"@);
    let c = replace_all(b, "&gt;"@, ">"@);
    let d = replace_all(c, "&quot;"@, "\""@);
    let e = replace_all(d, "&#39;"@, "'"@);
    replace_all(e, "&nbsp;"@, " "@)
}

/// `s[..n]` with each run of whitespace made a single space, and whether
/// `s[..n]` ends in whitespace.
pub open spec fn collapse_prefix(s: Seq<char>, n: int) -> (Seq<char>, bool)
    decreases n,
{
    if n <= 0 {
        (Seq::empty(), false)
    } else {
        let (o, p) = collapse_prefix(s, n - 1);
        let c = s[n - 1];
        if is_ws(c) {
            (if p { o } else { o.push(' ') }, true)
        } else {
            (o.push(c), false)
        }
    }
}

pub open spec fn trim_start_spaces(s: Seq<char>) -> Seq<char>
    decreases s.len(),
{
    if s.len() > 0 && s[0] == ' ' {
        trim_start_spaces(s.drop_first())
    } else {
        s
    }
}

pub open spec fn trim_end_spaces(s: Seq<char>) -> Seq<char>
    decreases s.len(),
{
    if s.len() > 0 && s.last() == ' ' {
        trim_end_spaces(s.drop_last())
    } else {
        s
    }
}

/// Text of an HTML fragment: tags dropped, common entities decoded,
/// whitespace runs collapsed to one space, spaces trimmed at both ends.
pub open spec fn html_text(html: Seq<char>) -> Seq<char> {
    let untagged = untag_prefix(html, html.len() as int).0;
    let decoded = decode_entities(untagged);
    let collapsed = collapse_prefix(decoded, decoded.len() as int).0;
    trim_end_spaces(trim_start_spaces(collapsed))
}

fn untag_exec(s: &Vec<char>) -> (r: Vec<char>)
    ensures
        r@ == untag_prefix(s@, s@.len() as int).0,
{
    let mut out: Vec<char> = Vec::new();
    let mut in_tag = false;
    let mut i: usize = 0;
    while i < s.len()
        invariant
            i <= s@.len(),
            (out@, in_tag) == untag_prefix(s@, i as int),
        decreases s@.len() - i,
    {
        let c = s[i];
        if c == '<' {
            in_tag = true;
        } else if c == '>' {
            in_tag = false;
            out.push(' ');
        } else if !in_tag {
            out.push(c);
        }
        i = i + 1;
    }
    out
}

fn collapse_exec(s: &Vec<char>) -> (r: Vec<char>)
    ensures
        r@ == collapse_prefix(s@, s@.len() as int).0,
{
    let mut out: Vec<char> = Vec::new();
    let mut prev_ws = false;
    let mut i: usize = 0;
    while i < s.len()
        invariant
            i <= s@.len(),
            (out@, prev_ws) == collapse_prefix(s@, i as int),
        decreases s@.len() - i,
    {
        let c = s[i];
        if is_ws_exec(c) {
            if !prev_ws {
                out.push(' ');
            }
            prev_ws = true;
        } else {
            out.push(c);
            prev_ws = false;
        }
        i = i + 1;
    }
    out
}

fn trim_spaces_exec(s: &Vec<char>) -> (r: Vec<char>)
    ensures
        r@ == trim_end_spaces(trim_start_spaces(s@)),
{
    let n = s.len();
    let mut a: usize = 0;
    assert(s@.subrange(0, n as int) =~= s@);
    while a < n && s[a] == ' '
        invariant
            a <= n,
            n == s@.len(),
            trim_start_spaces(s@.subrange(a as int, n as int)) == trim_start_spaces(s@),
        decreases n - a,
    {
        assert(s@.subrange(a as int, n as int).drop_first() =~= s@.subrange(a + 1, n as int));
        a = a + 1;
    }
    let mut b: usize = n;
    while b > a && s[b - 1] == ' '
        invariant
            a <= b <= n,
            n == s@.len(),
            trim_start_spaces(s@) == s@.subrange(a as int, n as int),
            trim_end_spaces(s@.subrange(a as int, b as int)) == trim_end_spaces(trim_start_spaces(s@)),
        decreases b - a,
    {
        assert(s@.subrange(a as int, b as int).drop_last() =~= s@.subrange(a as int, b - 1));
        b = b - 1;
    }
    let mut out: Vec<char> = Vec::new();
    let mut k: usize = a;
    while k < b
        invariant
            a <= k <= b <= n,
            n == s@.len(),
            out@ == s@.subrange(a as int, k as int),
        decreases b - k,
    {
        out.push(s[k]);
        k = k + 1;
        assert(out@ =~= s@.subrange(a as int, k as int));
    }
    out
}

/// Strip HTML tags, decode common entities, collapse whitespace.
pub fn strip_html_tags(html: &str) -> (r: String)
    ensures
        r@ == html_text(html@),
{
    let chars = chars_of(html);
    let untagged = untag_exec(&chars);
    let a = replace_exec(&untagged, "&amp;", "&");
    let b = replace_exec(&a, "&lt;", "<");
    let c = replace_exec(&b, "&gt;", ">");
    let d = replace_exec(&c, "&quot;", "\"");
    let e = replace_exec(&d, "&#39;", "'");
    let f = replace_exec(&e, "&nbsp;", " ");
    let collapsed = collapse_exec(&f);
    let trimmed = trim_spaces_exec(&collapsed);
    string_from_chars(&trimmed)
}

/// Every whitespace character of `s` is a space and no two spaces are
/// adjacent.
pub open spec fn single_spaced(s: Seq<char>) -> bool {
    &&& forall|i: int| 0 <= i < s.len() && is_ws(#[trigger] s[i]) ==> s[i] == ' '
    &&& forall|i: int| 0 <= i < s.len() - 1 ==> !(#[trigger] s[i] == ' ' && s[i + 1] == ' ')
}

proof fn lemma_collapse_single_spaced(s: Seq<char>, n: int)
    requires
        0 <= n <= s.len(),
    ensures
        single_spaced(collapse_prefix(s, n).0),
        collapse_prefix(s, n).1 <==> (collapse_prefix(s, n).0.len() > 0 && collapse_prefix(s, n).0.last() == ' '),
    decreases n,
{
    if n > 0 {
        lemma_collapse_single_spaced(s, n - 1);
        let (o, p) = collapse_prefix(s, n - 1);
        let o2 = collapse_prefix(s, n).0;
        assert forall|i: int| 0 <= i < o2.len() && is_ws(#[trigger] o2[i]) implies o2[i] == ' ' by {
            if i < o.len() {
                assert(o2[i] == o[i]);
            }
        }
        assert forall|i: int| 0 <= i < o2.len() - 1 implies !(#[trigger] o2[i] == ' ' && o2[i + 1] == ' ') by {
            if i + 1 < o.len() {
                assert(o2[i] == o[i] && o2[i + 1] == o[i + 1]);
            }
        }
    }
}

proof fn lemma_trim_start(s: Seq<char>)
    requires
        single_spaced(s),
    ensures
        single_spaced(trim_start_spaces(s)),
        trim_start_spaces(s).len() > 0 ==> trim_start_spaces(s)[0] != ' ',
        trim_start_spaces(s).len() > 0 && s.len() > 0 && s.last() != ' ' ==> trim_start_spaces(s).last() != ' ',
    decreases s.len(),
{
    if s.len() > 0 && s[0] == ' ' {
        let t = s.drop_first();
        assert(single_spaced(t)) by {
            assert forall|i: int| 0 <= i < t.len() && is_ws(#[trigger] t[i]) implies t[i] == ' ' by {
                assert(t[i] == s[i + 1]);
            }
            assert forall|i: int| 0 <= i < t.len() - 1 implies !(#[trigger] t[i] == ' ' && t[i + 1] == ' ') by {
                assert(t[i] == s[i + 1] && t[i + 1] == s[i + 2]);
            }
        }
        lemma_trim_start(t);
    }
}

proof fn lemma_trim_end(s: Seq<char>)
    requires
        single_spaced(s),
        s.len() > 0 ==> s[0] != ' ',
    ensures
        single_spaced(trim_end_spaces(s)),
        trim_end_spaces(s).len() > 0 ==> trim_end_spaces(s)[0] != ' ' && trim_end_spaces(s).last() != ' ',
    decreases s.len(),
{
    if s.len() > 0 && s.last() == ' ' {
        let t = s.drop_last();
        assert(single_spaced(t)) by {
            assert forall|i: int| 0 <= i < t.len() && is_ws(#[trigger] t[i]) implies t[i] == ' ' by {
                assert(t[i] == s[i]);
            }
            assert forall|i: int| 0 <= i < t.len() - 1 implies !(#[trigger] t[i] == ' ' && t[i + 1] == ' ') by {
                assert(t[i] == s[i] && t[i + 1] == s[i + 1]);
            }
        }
        if t.len() > 0 {
            assert(t[0] == s[0]);
        }
        lemma_trim_end(t);
    }
}

/// The text of any HTML fragment has no whitespace at either end, and no
/// two adjacent whitespace characters: each run became one space.
pub proof fn lemma_html_text_whitespace(html: Seq<char>)
    ensures
        ({
            let t = html_text(html);
            &&& t.len() > 0 ==> !is_ws(t[0]) && !is_ws(t.last())
            &&& forall|i: int| 0 <= i < t.len() - 1 ==> !(is_ws(#[trigger] t[i]) && is_ws(t[i + 1]))
        }),
{
    let untagged = untag_prefix(html, html.len() as int).0;
    let decoded = decode_entities(untagged);
    let collapsed = collapse_prefix(decoded, decoded.len() as int).0;
    lemma_collapse_single_spaced(decoded, decoded.len() as int);
    lemma_trim_start(collapsed);
    lemma_trim_end(trim_start_spaces(collapsed));
    let t = html_text(html);
    if t.len() > 0 {
        assert(is_ws(t[0]) ==> t[0] == ' ');
        assert(is_ws(t.last()) ==> t[t.len() - 1] == ' ');
    }
    assert forall|i: int| 0 <= i < t.len() - 1 implies !(is_ws(#[trigger] t[i]) && is_ws(t[i + 1])) by {
        if is_ws(t[i]) && is_ws(t[i + 1]) {
            assert(t[i] == ' ');
            assert(t[i + 1] == ' ');
        }
    }
}

// ── Error kinds ──────────────────────────────────────────────────────────────

/// The typed error kind for an error message, given its lowercased text.
pub open spec fn error_kind_of(lower: Seq<char>) -> Seq<char> {
    if contains_seq(lower, "json"@) || contains_seq(lower, "parse"@) || contains_seq(lower, "invalid"@) {
        "JsonParseError"@
    } else if contains_seq(lower, "network"@) || contains_seq(lower, "connection"@) || contains_seq(
        lower,
        "timeout"@,
    ) || contains_seq(lower, "http"@) {
        "NetworkError"@
    } else if contains_seq(lower, "permission"@) || contains_seq(lower, "access denied"@) {
        "PermissionError"@
    } else if contains_seq(lower, "not found"@) || contains_seq(lower, "no such file"@) {
        "NotFoundError"@
    } else if contains_seq(lower, "assert"@) {
        "AssertionError"@
    } else {
        "RuntimeError"@
    }
}

/// How an error message (lowercased) is classified, by the words in it, in
/// order of precedence: "json", "parse" or "invalid" make a
/// `JsonParseError`; otherwise "network", "connection", "timeout" or
/// "http" a `NetworkError`; otherwise "permission" or "access denied" a
/// `PermissionError`; otherwise "not found" or "no such file" a
/// `NotFoundError`; otherwise "assert" an `AssertionError`; and a message
/// with none of them is a `RuntimeError`.
pub proof fn lemma_error_kind_keywords(lower: Seq<char>)
    ensures
        ({
            let json = contains_seq(lower, "json"@) || contains_seq(lower, "parse"@) || contains_seq(
                lower,
                "invalid"@,
            );
            let network = contains_seq(lower, "network"@) || contains_seq(lower, "connection"@)
                || contains_seq(lower, "timeout"@) || contains_seq(lower, "http"@);
            let permission = contains_seq(lower, "permission"@) || contains_seq(lower, "access denied"@);
            let missing = contains_seq(lower, "not found"@) || contains_seq(lower, "no such file"@);
            let assertion = contains_seq(lower, "assert"@);
            &&& json ==> error_kind_of(lower) == "JsonParseError"@
            &&& !json && network ==> error_kind_of(lower) == "NetworkError"@
            &&& !json && !network && permission ==> error_kind_of(lower) == "PermissionError"@
            &&& !json && !network && !permission && missing ==> error_kind_of(lower) == "NotFoundError"@
            &&& !json && !network && !permission && !missing && assertion ==> error_kind_of(lower)
                == "AssertionError"@
            &&& !json && !network && !permission && !missing && !assertion ==> error_kind_of(lower)
                == "RuntimeError"@
        }),
{
}

/// A message that mentions a timeout, and nothing that marks a parse
/// error, is a network error.
pub proof fn lemma_timeouts_are_network_errors(lower: Seq<char>)
    requires
        contains_seq(lower, "timeout"@),
        !contains_seq(lower, "json"@),
        !contains_seq(lower, "parse"@),
        !contains_seq(lower, "invalid"@),
    ensures
        error_kind_of(lower) == "NetworkError"@,
{
}

/// Classify an error message string into a typed error kind name.
pub fn infer_error_kind(msg: &str) -> (r: &'static str)
    ensures
        r@ == error_kind_of(spec_to_lowercase(msg@)),
{
    let lower_s = str_to_lowercase(msg);
    let lower = chars_of(lower_s.as_str());
    if contains_exec(&lower, "json") || contains_exec(&lower, "parse") || contains_exec(&lower, "invalid") {
        "JsonParseError"
    } else if contains_exec(&lower, "network") || contains_exec(&lower, "connection") || contains_exec(
        &lower,
        "timeout",
    ) || contains_exec(&lower, "http") {
        "NetworkError"
    } else if contains_exec(&lower, "permission") || contains_exec(&lower, "access denied") {
        "PermissionError"
    } else if contains_exec(&lower, "not found") || contains_exec(&lower, "no such file") {
        "NotFoundError"
    } else if contains_exec(&lower, "assert") {
        "AssertionError"
    } else {
        "RuntimeError"
    }
}

// ── Paths ────────────────────────────────────────────────────────────────────

/// One component of a path, as `std::path::Component` splits it.
#[derive(Debug, Clone, PartialEq, Eq)]
pub enum PathPart {
    /// A Windows prefix such as `C:`, with its text.
    Prefix(String),
    RootDir,
    CurDir,
    ParentDir,
    Normal(String),
}

/// `parts[..n]` with `.` dropped and each `..` cancelling the name before
/// it (a `..` with no name before it, such as one right after the root, is
/// dropped).
pub open spec fn normalize_prefix(parts: Seq<PathPart>, n: int) -> Seq<PathPart>
    decreases n,
{
    if n <= 0 {
        Seq::empty()
    } else {
        let out = normalize_prefix(parts, n - 1);
        match parts[n - 1] {
            PathPart::CurDir => out,
            PathPart::ParentDir => if out.len() > 0 && out.last() is Normal {
                out.drop_last()
            } else {
                out
            },
            other => out.push(other),
        }
    }
}

pub open spec fn normalize_parts(parts: Seq<PathPart>) -> Seq<PathPart> {
    normalize_prefix(parts, parts.len() as int)
}

/// Resolve `..` and `.` without touching the filesystem (no symlink
/// resolution), on the components of a path.
pub fn normalize_components(parts: Vec<PathPart>) -> (r: Vec<PathPart>)
    ensures
        r@ == normalize_parts(parts@),
{
    let ghost ps = parts@;
    let mut out: Vec<PathPart> = Vec::new();
    let mut i: usize = 0;
    let n = parts.len();
    // The components are moved out front to back: reversed once, then
    // popped.
    let mut rest = parts;
    let mut rev: Vec<PathPart> = Vec::new();
    while rest.len() > 0
        invariant
            rest@.len() + rev@.len() == n,
            n == ps.len(),
            forall|j: int| 0 <= j < rest@.len() ==> rest@[j] == ps[j],
            forall|j: int| 0 <= j < rev@.len() ==> rev@[j] == ps[n - 1 - j],
        decreases rest@.len(),
    {
        let x = rest.pop().unwrap();
        rev.push(x);
    }
    while i < n
        invariant
            i <= n,
            n == ps.len(),
            rev@.len() == n - i,
            forall|j: int| 0 <= j < rev@.len() ==> rev@[j] == ps[n - 1 - j],
            out@ == normalize_prefix(ps, i as int),
        decreases n - i,
    {
        let c = rev.pop().unwrap();
        assert(c == ps[i as int]);
        match c {
            PathPart::CurDir => {},
            PathPart::ParentDir => {
                let cancels = out.len() > 0 && match &out[out.len() - 1] {
                    PathPart::Normal(_) => true,
                    _ => false,
                };
                if cancels {
                    out.pop();
                }
            },
            other => {
                out.push(other);
            },
        }
        i = i + 1;
    }
    out
}

/// No `.` and no `..` remains.
pub open spec fn is_normalized(ps: Seq<PathPart>) -> bool {
    forall|i: int| 0 <= i < ps.len() ==> !(#[trigger] ps[i] is CurDir) && !(ps[i] is ParentDir)
}

proof fn lemma_normalize_prefix_normalized(ps: Seq<PathPart>, n: int)
    requires
        0 <= n <= ps.len(),
    ensures
        is_normalized(normalize_prefix(ps, n)),
    decreases n,
{
    if n > 0 {
        lemma_normalize_prefix_normalized(ps, n - 1);
        let out = normalize_prefix(ps, n - 1);
        let o2 = normalize_prefix(ps, n);
        assert forall|i: int| 0 <= i < o2.len() implies !(#[trigger] o2[i] is CurDir) && !(o2[i] is ParentDir) by {
            if i < out.len() {
                assert(o2[i] == out[i]);
            }
        }
    }
}

proof fn lemma_normalize_prefix_of_normalized(ps: Seq<PathPart>, n: int)
    requires
        is_normalized(ps),
        0 <= n <= ps.len(),
    ensures
        normalize_prefix(ps, n) == ps.take(n),
    decreases n,
{
    if n > 0 {
        lemma_normalize_prefix_of_normalized(ps, n - 1);
        let out = normalize_prefix(ps, n - 1);
        assert(!(ps[n - 1] is CurDir) && !(ps[n - 1] is ParentDir));
        assert(ps.take(n) =~= ps.take(n - 1).push(ps[n - 1]));
    }
}

/// Normalizing leaves no `.` and no `..`, and normalizing again changes
/// nothing.
pub proof fn lemma_normalize_idempotent(ps: Seq<PathPart>)
    ensures
        is_normalized(normalize_parts(ps)),
        normalize_parts(normalize_parts(ps)) == normalize_parts(ps),
{
    lemma_normalize_prefix_normalized(ps, ps.len() as int);
    let q = normalize_parts(ps);
    lemma_normalize_prefix_of_normalized(q, q.len() as int);
    assert(q.take(q.len() as int) =~= q);
}

/// What a path component is, as a tag and its text.
pub open spec fn part_key(p: PathPart) -> (nat, Seq<char>) {
    match p {
        PathPart::Prefix(s) => (0, s@),
        PathPart::RootDir => (1, Seq::empty()),
        PathPart::CurDir => (2, Seq::empty()),
        PathPart::ParentDir => (3, Seq::empty()),
        PathPart::Normal(s) => (4, s@),
    }
}

/// Whether the components `base` begin the components `path` (what
/// `Path::starts_with` tests: whole components only).
pub open spec fn starts_with_parts(path: Seq<PathPart>, base: Seq<PathPart>) -> bool {
    &&& base.len() <= path.len()
    &&& forall|i: int| 0 <= i < base.len() ==> part_key(#[trigger] path[i]) == part_key(base[i])
}

fn same_part(a: &PathPart, b: &PathPart) -> (r: bool)
    ensures
        r == (part_key(*a) == part_key(*b)),
{
    match (a, b) {
        (PathPart::Prefix(x), PathPart::Prefix(y)) => crate::text::str_eq(x.as_str(), y.as_str()),
        (PathPart::RootDir, PathPart::RootDir) => true,
        (PathPart::CurDir, PathPart::CurDir) => true,
        (PathPart::ParentDir, PathPart::ParentDir) => true,
        (PathPart::Normal(x), PathPart::Normal(y)) => crate::text::str_eq(x.as_str(), y.as_str()),
        _ => false,
    }
}

/// Whether `path`, with `.` and `..` resolved, lies inside `base`, also
/// resolved: the check that keeps a package's declared entry file inside
/// the package's own directory.
#[verifier::loop_isolation(false)]
pub fn path_is_within(path: Vec<PathPart>, base: Vec<PathPart>) -> (r: bool)
    ensures
        r == starts_with_parts(normalize_parts(path@), normalize_parts(base@)),
{
    let ghost pv = path@;
    let ghost bv = base@;
    let p = normalize_components(path);
    let b = normalize_components(base);
    if b.len() > p.len() {
        return false;
    }
    let mut i: usize = 0;
    while i < b.len()
        invariant
            p@ == normalize_parts(pv),
            b@ == normalize_parts(bv),
            b@.len() <= p@.len(),
            i <= b@.len(),
            forall|j: int| 0 <= j < i ==> part_key(#[trigger] p@[j]) == part_key(b@[j]),
        decreases b@.len() - i,
    {
        if !same_part(&p[i], &b[i]) {
            assert(part_key(p@[i as int]) != part_key(b@[i as int]));
            assert(!starts_with_parts(p@, b@));
            return false;
        }
        i = i + 1;
    }
    true
}

/// Where an installed package comes from, by its `resolved` entry in
/// `gx.lock`.
#[derive(Debug, Clone, PartialEq, Eq)]
pub enum PackageSource {
    /// A local directory, relative to the project root; always read as it
    /// is on disk.
    Path(String),
    /// A git checkout in the package cache.
    Git,
    /// A registry download in the package cache.
    Registry,
}

/// Whether `s` begins with `p`.
pub open spec fn has_prefix(s: Seq<char>, p: Seq<char>) -> bool {
    p.len() <= s.len() && s.take(p.len() as int) == p
}

fn starts_with_str(s: &Vec<char>, p: &str) -> (r: bool)
    ensures
        r == has_prefix(s@, p@),
{
    let pc = chars_of(p);
    if pc.len() > s.len() {
        return false;
    }
    let mut i: usize = 0;
    while i < pc.len()
        invariant
            pc@ == p@,
            pc@.len() <= s@.len(),
            i <= pc@.len(),
            forall|j: int| 0 <= j < i ==> s@[j] == pc@[j],
        decreases pc@.len() - i,
    {
        if s[i] != pc[i] {
            assert(s@.take(pc@.len() as int)[i as int] != p@[i as int]);
            return false;
        }
        i = i + 1;
    }
    assert(s@.take(pc@.len() as int) =~= p@);
    true
}

/// Where a package comes from, by its `resolved` entry in `gx.lock`:
/// `path+<dir>` names a local directory, `git+...` a git source, anything
/// else the registry.
pub fn package_source(resolved: &str) -> (r: PackageSource)
    ensures
        match r {
            PackageSource::Path(dir) => has_prefix(resolved@, "path+"@) && dir@ == resolved@.skip(5),
            PackageSource::Git => !has_prefix(resolved@, "path+"@) && has_prefix(resolved@, "git+"@),
            PackageSource::Registry => !has_prefix(resolved@, "path+"@) && !has_prefix(
                resolved@,
                "git+"@,
            ),
        },
{
    proof {
        reveal_strlit("path+");
    }
    let c = chars_of(resolved);
    if starts_with_str(&c, "path+") {
        let dir = string_from_range(&c, 5, c.len());
        assert(c@.subrange(5, c@.len() as int) =~= resolved@.skip(5));
        PackageSource::Path(dir)
    } else if starts_with_str(&c, "git+") {
        PackageSource::Git
    } else {
        PackageSource::Registry
    }
}

/// Only packages fetched into the cache (from git or the registry) are
/// checked against the integrity hash in `gx.lock`; a local path
/// dependency is read as it currently is.
pub fn needs_integrity_check(source: &PackageSource) -> (r: bool)
    ensures
        r == !(source is Path),
{
    match source {
        PackageSource::Path(_) => false,
        _ => true,
    }
}

// ── Cron expressions ─────────────────────────────────────────────────────────

/// Whether a cron field matches `value`: `*` always, `*/n` every multiple
/// of `n` (an unreadable `n` counts as 1), `a-b` the range from `a` to `b`
/// (an unreadable end is `min` or `max`), and `n` exactly `n`.
pub open spec fn cron_field_ok(f: Seq<char>, value: u64, min: u64, max: u64) -> bool {
    let dash = index_of_from(f, '-', 0);
    if f == seq!['*'] {
        true
    } else if f.len() >= 2 && f[0] == '*' && f[1] == '/' {
        let step = match parse_u64(f.skip(2)) {
            Some(n) => n,
            None => 1,
        };
        step > 0 && value % step == 0
    } else if dash < f.len() {
        let lo = match parse_u64(f.take(dash)) {
            Some(n) => n,
            None => min,
        };
        let hi = match parse_u64(f.skip(dash + 1)) {
            Some(n) => n,
            None => max,
        };
        lo <= value && value <= hi
    } else {
        parse_u64(f) == Some(value)
    }
}

fn field_matches_chars(f: &Vec<char>, value: u64, min: u64, max: u64) -> (r: bool)
    ensures
        r == cron_field_ok(f@, value, min, max),
{
    let n = f.len();
    if n == 1 && f[0] == '*' {
        assert(f@ =~= seq!['*']);
        return true;
    }
    if n >= 2 && f[0] == '*' && f[1] == '/' {
        if n == 1 {
            assert(false);
        }
        assert(f@.skip(2) =~= f@.subrange(2, n as int));
        let step = match parse_u64_range(f, 2, n) {
            Some(k) => k,
            None => 1,
        };
        return step > 0 && value % step == 0;
    }
    if n == 1 {
        assert(f@ != seq!['*']) by {
            if f@ == seq!['*'] {
                assert(f@[0] == '*');
            }
        }
    }
    let mut dash: usize = 0;
    while dash < n && f[dash] != '-'
        invariant
            n == f@.len(),
            dash <= n,
            index_of_from(f@, '-', dash as int) == index_of_from(f@, '-', 0),
        decreases n - dash,
    {
        dash = dash + 1;
    }
    if dash < n {
        assert(f@.take(dash as int) =~= f@.subrange(0, dash as int));
        assert(f@.skip(dash + 1) =~= f@.subrange(dash + 1, n as int));
        let lo = match parse_u64_range(f, 0, dash) {
            Some(k) => k,
            None => min,
        };
        let hi = match parse_u64_range(f, dash + 1, n) {
            Some(k) => k,
            None => max,
        };
        return lo <= value && value <= hi;
    }
    assert(f@.subrange(0, n as int) =~= f@);
    match parse_u64_range(f, 0, n) {
        Some(k) => k == value,
        None => false,
    }
}

/// Cron expression field matcher. Supports: *, n, */n, n-m
pub fn cron_field_matches(field: &str, value: u64, min: u64, max: u64) -> (r: bool)
    ensures
        r == cron_field_ok(field@, value, min, max),
{
    let f = chars_of(field);
    field_matches_chars(&f, value, min, max)
}

/// The words of `s[..n]` (maximal runs of non-whitespace, what
/// `str::split_whitespace` yields), and whether `s[..n]` ends inside a word.
pub open spec fn words_prefix(s: Seq<char>, n: int) -> (Seq<Seq<char>>, bool)
    decreases n,
{
    if n <= 0 {
        (Seq::empty(), false)
    } else {
        let (w, inside) = words_prefix(s, n - 1);
        let c = s[n - 1];
        if is_ws(c) {
            (w, false)
        } else if inside && w.len() > 0 {
            (w.update(w.len() - 1, w.last().push(c)), true)
        } else {
            (w.push(seq![c]), true)
        }
    }
}

pub open spec fn words(s: Seq<char>) -> Seq<Seq<char>> {
    words_prefix(s, s.len() as int).0
}

pub open spec fn words_view(ws: Seq<Vec<char>>) -> Seq<Seq<char>> {
    ws.map_values(|w: Vec<char>| w@)
}

fn split_words(s: &Vec<char>) -> (r: Vec<Vec<char>>)
    ensures
        words_view(r@) == words(s@),
{
    let mut out: Vec<Vec<char>> = Vec::new();
    let mut inside = false;
    let mut i: usize = 0;
    while i < s.len()
        invariant
            i <= s@.len(),
            (words_view(out@), inside) == words_prefix(s@, i as int),
            inside ==> out@.len() > 0,
        decreases s@.len() - i,
    {
        let c = s[i];
        let ghost before = words_view(out@);
        if is_ws_exec(c) {
            inside = false;
        } else if inside {
            let mut last = out.pop().unwrap();
            last.push(c);
            out.push(last);
            assert(words_view(out@) =~= before.update(before.len() - 1, before.last().push(c)));
        } else {
            let mut w: Vec<char> = Vec::new();
            w.push(c);
            out.push(w);
            assert(words_view(out@) =~= before.push(seq![c]));
            inside = true;
        }
        i = i + 1;
    }
    out
}

/// The calendar fields a cron expression is matched against, from a Unix
/// time: minute, hour, day of month and month on a 31-day-month,
/// 365-day-year calendar, and day of week (0 = Sunday).
pub open spec fn cron_fields(t: u64) -> (u64, u64, u64, u64, u64) {
    let total_minutes = t / 60;
    let minute = total_minutes % 60;
    let total_hours = total_minutes / 60;
    let hour = total_hours % 24;
    let total_days = total_hours / 24;
    let dow = ((total_days + 4) % 7) as u64;
    let day_of_year = total_days % 365;
    let dom = (day_of_year % 31 + 1) as u64;
    let month = (day_of_year / 31 + 1) as u64;
    (minute as u64, hour as u64, dom, month, dow)
}

/// Whether a 5-field cron expression matches the Unix time `t`; an
/// expression of fewer than five words matches nothing.
pub open spec fn cron_ok(expr: Seq<char>, t: u64) -> bool {
    let f = words(expr);
    let (minute, hour, dom, month, dow) = cron_fields(t);
    &&& f.len() >= 5
    &&& cron_field_ok(f[0], minute, 0, 59)
    &&& cron_field_ok(f[1], hour, 0, 23)
    &&& cron_field_ok(f[2], dom, 1, 31)
    &&& cron_field_ok(f[3], month, 1, 12)
    &&& cron_field_ok(f[4], dow, 0, 6)
}

/// A number reads back as itself.
proof fn lemma_parse_decimal(n: u64)
    ensures
        parse_u64(crate::text::decimal(n as nat)) == Some(n),
{
    let d = crate::text::decimal(n as nat);
    crate::text::lemma_decimal_digits(n as nat);
    assert(spec_is_ascii_digit(d[0]));
}

/// A range field `a-b` matches exactly the values from `a` to `b`.
pub proof fn lemma_range_field(a: u64, b: u64, value: u64, min: u64, max: u64)
    ensures
        cron_field_ok(
            crate::text::decimal(a as nat) + seq!['-'] + crate::text::decimal(b as nat),
            value,
            min,
            max,
        ) <==> a <= value <= b,
{
    let da = crate::text::decimal(a as nat);
    let db = crate::text::decimal(b as nat);
    let f = da + seq!['-'] + db;
    crate::text::lemma_decimal_digits(a as nat);
    crate::text::lemma_decimal_digits(b as nat);
    lemma_parse_decimal(a);
    lemma_parse_decimal(b);
    assert(spec_is_ascii_digit(f[0]));
    assert(f != seq!['*']) by {
        if f == seq!['*'] {
            assert(f[0] == '*');
        }
    }
    assert(f[da.len() as int] == '-');
    assert forall|m: int| 0 <= m < da.len() implies #[trigger] f[m] != '-' by {
        assert(f[m] == da[m]);
        assert(spec_is_ascii_digit(da[m]));
    }
    crate::lsp::lemma_index_of_from_skips(f, '-', 0, da.len() as int);
    assert(f.take(da.len() as int) =~= da);
    assert(f.skip(da.len() as int + 1) =~= db);
}

/// A step field `*/n` (with `n` positive) matches exactly the multiples of
/// `n`.
pub proof fn lemma_step_field(n: u64, value: u64, min: u64, max: u64)
    requires
        n > 0,
    ensures
        cron_field_ok(seq!['*', '/'] + crate::text::decimal(n as nat), value, min, max) <==> value % n
            == 0,
{
    let f = seq!['*', '/'] + crate::text::decimal(n as nat);
    crate::text::lemma_decimal_digits(n as nat);
    lemma_parse_decimal(n);
    assert(f.len() >= 3);
    assert(f != seq!['*']);
    assert(f.skip(2) =~= crate::text::decimal(n as nat));
}

/// The five fields of a cron expression are, in order, the minute, the
/// hour, the day of the month, the month and the day of the week of the
/// time (on the calendar of `cron_fields`: 31-day months, 365-day years,
/// day 0 a Thursday), each counted from the Unix time itself.
pub proof fn lemma_cron_fields_in_order(e: Seq<char>, t: u64)
    ensures
        cron_ok(e, t) <==> ({
            let w = words(e);
            let days = t / 60 / 60 / 24;
            &&& w.len() >= 5
            &&& cron_field_ok(w[0], (t / 60 % 60) as u64, 0, 59)
            &&& cron_field_ok(w[1], (t / 60 / 60 % 24) as u64, 0, 23)
            &&& cron_field_ok(w[2], (days % 365 % 31 + 1) as u64, 1, 31)
            &&& cron_field_ok(w[3], (days % 365 / 31 + 1) as u64, 1, 12)
            &&& cron_field_ok(w[4], ((days + 4) % 7) as u64, 0, 6)
        }),
{
}

/// Match a 5-field cron expression against a Unix timestamp.
pub fn cron_matches(expr: &str, unix_secs: u64) -> (r: bool)
    ensures
        r == cron_ok(expr@, unix_secs),
{
    let chars = chars_of(expr);
    let fields = split_words(&chars);
    if fields.len() < 5 {
        return false;
    }
    let total_minutes = unix_secs / 60;
    let minute = total_minutes % 60;
    let total_hours = total_minutes / 60;
    let hour = total_hours % 24;
    let total_days = total_hours / 24;
    let dow = (total_days + 4) % 7;
    let day_of_year = total_days % 365;
    let dom = day_of_year % 31 + 1;
    let month = day_of_year / 31 + 1;
    assert(words_view(fields@)[0] == fields@[0]@);
    assert(words_view(fields@)[1] == fields@[1]@);
    assert(words_view(fields@)[2] == fields@[2]@);
    assert(words_view(fields@)[3] == fields@[3]@);
    assert(words_view(fields@)[4] == fields@[4]@);
    field_matches_chars(&fields[0], minute, 0, 59) && field_matches_chars(&fields[1], hour, 0, 23)
        && field_matches_chars(&fields[2], dom, 1, 31) && field_matches_chars(&fields[3], month, 1, 12)
        && field_matches_chars(&fields[4], dow, 0, 6)
}

/// A `*` field matches every value.
pub proof fn lemma_star_matches_everything(value: u64, min: u64, max: u64)
    ensures
        cron_field_ok(seq!['*'], value, min, max),
{
}

/// A plain number field matches exactly that number.
pub proof fn lemma_number_field_matches_only_itself(f: Seq<char>, value: u64, min: u64, max: u64)
    requires
        f.len() > 0,
        all_digits(f),
    ensures
        cron_field_ok(f, value, min, max) <==> parse_u64(f) == Some(value),
{
    assert(f != seq!['*']) by {
        if f == seq!['*'] {
            assert(spec_is_ascii_digit(f[0]));
        }
    }
    if f.len() >= 2 {
        assert(spec_is_ascii_digit(f[0]));
    }
    lemma_index_of_from_absent(f, '-', 0);
}

proof fn lemma_index_of_from_absent(f: Seq<char>, c: char, i: int)
    requires
        0 <= i <= f.len(),
        !spec_is_ascii_digit(c),
        all_digits(f),
    ensures
        index_of_from(f, c, i) == f.len(),
    decreases f.len() - i,
{
    if i < f.len() {
        assert(spec_is_ascii_digit(f[i]));
        lemma_index_of_from_absent(f, c, i + 1);
    }
}

/// How long the cron daemon sleeps after checking its schedules at the
/// Unix time `now`: until the start of the next minute.
pub fn seconds_until_next_minute(now: u64) -> (r: u64)
    ensures
        r == 60 - now % 60,
        1 <= r <= 60,
        (now + r) % 60 == 0,
{
    60 - now % 60
}

/// The schedules (cron expressions) that fire at the Unix time `now`, by
/// index, in order.
pub fn due_schedules(exprs: &[String], now: u64) -> (r: Vec<usize>)
    ensures
        forall|k: int| 0 <= k < r@.len() ==> (#[trigger] r@[k]) < exprs@.len() && cron_ok(
            exprs@[r@[k] as int]@,
            now,
        ),
        forall|k: int, l: int| 0 <= k < l < r@.len() ==> r@[k] < r@[l],
        forall|i: int| 0 <= i < exprs@.len() && cron_ok(exprs@[i]@, now) ==> r@.contains(i as usize),
{
    let mut out: Vec<usize> = Vec::new();
    let mut i: usize = 0;
    while i < exprs.len()
        invariant
            i <= exprs@.len(),
            forall|k: int| 0 <= k < out@.len() ==> (#[trigger] out@[k]) < i && cron_ok(
                exprs@[out@[k] as int]@,
                now,
            ),
            forall|k: int, l: int| 0 <= k < l < out@.len() ==> out@[k] < out@[l],
            forall|j: int| 0 <= j < i && cron_ok(exprs@[j]@, now) ==> out@.contains(j as usize),
        decreases exprs@.len() - i,
    {
        if cron_matches(exprs[i].as_str(), now) {
            let ghost before = out@;
            out.push(i);
            assert forall|j: int| 0 <= j < i + 1 && cron_ok(exprs@[j]@, now) implies out@.contains(j as usize) by {
                if j < i {
                    let k = choose|k: int| 0 <= k < before.len() && before[k] == j as usize;
                    assert(out@[k] == j as usize);
                } else {
                    assert(out@[before.len() as int] == i);
                }
            }
        }
        i = i + 1;
    }
    out
}

// ── Data file formats ────────────────────────────────────────────────────────

/// The formats `data_import`/`data_export` read and write, by file
/// extension.
#[derive(Debug, Clone, Copy, PartialEq, Eq)]
pub enum DataFormat {
    Json,
    Yaml,
    Toml,
    Csv,
    Xml,
    JsonLines,
}

/// The format an extension names, or the error for an unknown one.
pub open spec fn data_format_of(ext: Seq<char>) -> Result<DataFormat, Seq<char>> {
    if ext == "json"@ {
        Ok(DataFormat::Json)
    } else if ext == "yaml"@ || ext == "yml"@ {
        Ok(DataFormat::Yaml)
    } else if ext == "toml"@ {
        Ok(DataFormat::Toml)
    } else if ext == "csv"@ {
        Ok(DataFormat::Csv)
    } else if ext == "xml"@ {
        Ok(DataFormat::Xml)
    } else if ext == "jsonl"@ || ext == "ndjson"@ {
        Ok(DataFormat::JsonLines)
    } else {
        Err("unrecognized data file extension '."@ + ext
            + "' (expected .json, .yaml, .yml, .toml, .csv, .xml, or .jsonl)"@)
    }
}

/// Picks the data format for a file extension (without its dot).
pub fn data_format(ext: &str) -> (r: Result<DataFormat, String>)
    ensures
        match data_format_of(ext@) {
            Ok(f) => r == Ok::<DataFormat, String>(f),
            Err(m) => r matches Err(e) && e@ == m,
        },
{
    if crate::text::str_eq(ext, "json") {
        Ok(DataFormat::Json)
    } else if crate::text::str_eq(ext, "yaml") || crate::text::str_eq(ext, "yml") {
        Ok(DataFormat::Yaml)
    } else if crate::text::str_eq(ext, "toml") {
        Ok(DataFormat::Toml)
    } else if crate::text::str_eq(ext, "csv") {
        Ok(DataFormat::Csv)
    } else if crate::text::str_eq(ext, "xml") {
        Ok(DataFormat::Xml)
    } else if crate::text::str_eq(ext, "jsonl") || crate::text::str_eq(ext, "ndjson") {
        Ok(DataFormat::JsonLines)
    } else {
        let mut m = String::from_str("unrecognized data file extension '.");
        m.append(ext);
        m.append("' (expected .json, .yaml, .yml, .toml, .csv, .xml, or .jsonl)");
        Err(m)
    }
}

// ── .env files ───────────────────────────────────────────────────────────────

/// The `KEY=VALUE` entry a line of a `.env` file holds: the line is
/// trimmed; an empty line or one starting with `#` holds none, nor one
/// without `=`; the key is the trimmed text before the first `=`, the
/// value the trimmed text after it with surrounding double and then single
/// quotes removed.
pub open spec fn env_line_entry(line: Seq<char>) -> Option<(Seq<char>, Seq<char>)> {
    let t = trim_where(line, ws_pred());
    let eq = index_of_from(t, '=', 0);
    if t.len() == 0 || t[0] == '#' || eq >= t.len() {
        None
    } else {
        let key = trim_where(t.take(eq), ws_pred());
        let raw = trim_where(t.skip(eq + 1), ws_pred());
        Some((key, trim_where(trim_where(raw, char_pred('"')), char_pred('\''))))
    }
}

/// The entries of the lines `ls`, in order.
pub open spec fn env_entries(ls: Seq<Seq<char>>) -> Seq<(Seq<char>, Seq<char>)>
    decreases ls.len(),
{
    if ls.len() == 0 {
        Seq::empty()
    } else {
        let rest = env_entries(ls.drop_last());
        match env_line_entry(ls.last()) {
            Some(e) => rest.push(e),
            None => rest,
        }
    }
}

pub open spec fn pairs_view(ps: Seq<(String, String)>) -> Seq<(Seq<char>, Seq<char>)> {
    ps.map_values(|p: (String, String)| (p.0@, p.1@))
}

#[verifier::spinoff_prover]
fn env_entry_of_line(line: &Vec<char>) -> (r: Option<(String, String)>)
    ensures
        match env_line_entry(line@) {
            Some(e) => r matches Some(x) && x.0@ == e.0 && x.1@ == e.1,
            None => r is None,
        },
{
    let (a, b) = trim_bounds(line, 0, line.len(), true, ' ');
    assert(line@.subrange(0, line@.len() as int) =~= line@);
    let ghost t = line@.subrange(a as int, b as int);
    if a == b || line[a] == '#' {
        return None;
    }
    let mut eq = a;
    while eq < b && line[eq] != '='
        invariant
            a <= eq <= b <= line@.len(),
            t == line@.subrange(a as int, b as int),
            index_of_from(t, '=', (eq - a) as int) == index_of_from(t, '=', 0),
        decreases b - eq,
    {
        eq = eq + 1;
    }
    if eq == b {
        return None;
    }
    assert(t.take((eq - a) as int) =~= line@.subrange(a as int, eq as int));
    assert(t.skip((eq - a) + 1) =~= line@.subrange(eq + 1, b as int));
    let (ka, kb) = trim_bounds(line, a, eq, true, ' ');
    let (va, vb) = trim_bounds(line, eq + 1, b, true, ' ');
    let (qa, qb) = trim_bounds(line, va, vb, false, '"');
    let (sa, sb) = trim_bounds(line, qa, qb, false, '\'');
    Some((string_from_range(line, ka, kb), string_from_range(line, sa, sb)))
}

/// The `KEY=VALUE` entries of a `.env` file's text, in order. Lines of the
/// form `KEY=VALUE` or `KEY="VALUE"` are supported; lines starting with `#`
/// are comments.
pub fn parse_env_file(content: &str) -> (r: Vec<(String, String)>)
    ensures
        pairs_view(r@) == env_entries(text_lines(content@)),
{
    let text = chars_of(content);
    let lines = split_lines(&text);
    let ghost ls = crate::text::lines_view(lines@);
    let mut out: Vec<(String, String)> = Vec::new();
    let mut i: usize = 0;
    assert(ls.take(0) =~= Seq::<Seq<char>>::empty());
    while i < lines.len()
        invariant
            i <= lines@.len(),
            ls == crate::text::lines_view(lines@),
            pairs_view(out@) == env_entries(ls.take(i as int)),
        decreases lines@.len() - i,
    {
        assert(ls.take(i + 1).drop_last() =~= ls.take(i as int));
        assert(ls.take(i + 1).last() == lines@[i as int]@);
        let ghost before = pairs_view(out@);
        match env_entry_of_line(&lines[i]) {
            Some(e) => {
                out.push(e);
                assert(pairs_view(out@) =~= before.push((out@.last().0@, out@.last().1@)));
            },
            None => {},
        }
        i = i + 1;
    }
    assert(ls.take(lines@.len() as int) =~= ls);
    out
}

// ── Persistent state ─────────────────────────────────────────────────────────

/// An agent name made safe for a file name: letters, digits, `_` and `-`
/// are kept, every other character becomes `_`.
pub open spec fn safe_file_name(name: Seq<char>) -> Seq<char> {
    Seq::new(
        name.len(),
        |i: int|
            if spec_is_alphanumeric(name[i]) || name[i] == '_' || name[i] == '-' {
                name[i]
            } else {
                '_'
            },
    )
}

/// The path of the SQLite file that holds an agent's persistent memory,
/// under the state directory `base`: `{base}/{safe name}.db`.
pub fn state_db_path(base: &str, agent_name: &str) -> (r: String)
    ensures
        r@ == base@ + "/"@ + safe_file_name(agent_name@) + ".db"@,
{
    let name = chars_of(agent_name);
    let mut safe: Vec<char> = Vec::new();
    let mut i: usize = 0;
    while i < name.len()
        invariant
            i <= name@.len(),
            safe@ == safe_file_name(name@).take(i as int),
        decreases name@.len() - i,
    {
        let c = name[i];
        if is_alphanumeric(c) || c == '_' || c == '-' {
            safe.push(c);
        } else {
            safe.push('_');
        }
        i = i + 1;
        assert(safe@ =~= safe_file_name(name@).take(i as int));
    }
    assert(safe_file_name(name@).take(name@.len() as int) =~= safe_file_name(name@));
    let mut r = String::from_str(base);
    r.append("/");
    let s = string_from_chars(&safe);
    r.append(s.as_str());
    r.append(".db");
    r
}

/// A safe file name has the length of the name and uses only letters,
/// digits, `_` and `-`.
pub proof fn lemma_safe_file_name_is_safe(name: Seq<char>)
    ensures
        safe_file_name(name).len() == name.len(),
        forall|i: int|
            0 <= i < name.len() ==> spec_is_alphanumeric(#[trigger] safe_file_name(name)[i]) || safe_file_name(
                name,
            )[i] == '_' || safe_file_name(name)[i] == '-',
{
}

} // verus!
