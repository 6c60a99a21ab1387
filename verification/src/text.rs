//! Character classes and string building shared by the lexer, the
//! interpreter helpers and the language server.
use vstd::prelude::*;

verus! {

/// What `char::is_alphabetic` answers for `c` (Unicode `Alphabetic`).
pub uninterp spec fn spec_is_alphabetic(c: char) -> bool;

/// What `char::is_numeric` answers for `c` (Unicode general categories
/// `Nd`, `Nl`, `No`).
pub uninterp spec fn spec_is_numeric(c: char) -> bool;

/// Unicode `White_Space`, which `char::is_whitespace` answers: U+0009 to
/// U+000D, the space, U+0085, U+00A0, U+1680, U+2000 to U+200A, U+2028,
/// U+2029, U+202F, U+205F and U+3000.
pub open spec fn spec_is_whitespace(c: char) -> bool {
    ||| ('\t' <= c <= '\r')
    ||| c == ' '
    ||| c == '\u{85}'
    ||| c == '\u{a0}'
    ||| c == '\u{1680}'
    ||| ('\u{2000}' <= c <= '\u{200a}')
    ||| c == '\u{2028}'
    ||| c == '\u{2029}'
    ||| c == '\u{202f}'
    ||| c == '\u{205f}'
    ||| c == '\u{3000}'
}

/// What `str::to_lowercase` returns for a string with the given characters.
pub uninterp spec fn spec_to_lowercase(s: Seq<char>) -> Seq<char>;

/// What `str::to_uppercase` returns for a string with the given characters.
pub uninterp spec fn spec_to_uppercase(s: Seq<char>) -> Seq<char>;

/// The characters `char::to_uppercase` yields for `c`.
pub uninterp spec fn spec_char_to_uppercase(c: char) -> Seq<char>;

/// The ASCII letters `a`-`z` and `A`-`Z`.
pub open spec fn is_ascii_letter(c: char) -> bool {
    ('a' <= c <= 'z') || ('A' <= c <= 'Z')
}

/// `char::is_alphabetic`: on ASCII exactly the letters, elsewhere what std
/// answers.
pub open spec fn is_alphabetic_char(c: char) -> bool {
    if c <= '\u{7f}' {
        is_ascii_letter(c)
    } else {
        spec_is_alphabetic(c)
    }
}

/// `char::is_numeric`: on ASCII exactly the digits, elsewhere what std
/// answers.
pub open spec fn is_numeric_char(c: char) -> bool {
    if c <= '\u{7f}' {
        '0' <= c <= '9'
    } else {
        spec_is_numeric(c)
    }
}

/// `char::is_alphanumeric`, which std documents as
/// `is_alphabetic() || is_numeric()`.
pub open spec fn spec_is_alphanumeric(c: char) -> bool {
    is_alphabetic_char(c) || is_numeric_char(c)
}

/// `char::is_ascii_digit`: `'0'..='9'`.
pub open spec fn spec_is_ascii_digit(c: char) -> bool {
    '0' <= c <= '9'
}

/// Calls `char::is_alphabetic`, which std documents as the Unicode
/// `Alphabetic` property. Beyond naming its answer, the contract states that
/// property on ASCII: exactly the letters `a`-`z` and `A`-`Z`.
#[verifier::external_body]
pub(crate) fn char_is_alphabetic(c: char) -> (r: bool)
    ensures
        r == spec_is_alphabetic(c),
        c <= '\u{7f}' ==> (r <==> is_ascii_letter(c)),
{
    c.is_alphabetic()
}

/// Calls `char::is_numeric`, which std documents as the general categories
/// `Nd`, `Nl` and `No`. Beyond naming its answer, the contract states that
/// on ASCII: exactly the digits `0`-`9`.
#[verifier::external_body]
pub(crate) fn char_is_numeric(c: char) -> (r: bool)
    ensures
        r == spec_is_numeric(c),
        c <= '\u{7f}' ==> (r <==> ('0' <= c <= '9')),
{
    c.is_numeric()
}

/// The ASCII characters with the Unicode `White_Space` property: tab, line
/// feed, vertical tab, form feed, carriage return (U+0009 to U+000D) and
/// space.
pub open spec fn is_ascii_whitespace_char(c: char) -> bool {
    c == ' ' || ('\t' <= c <= '\r')
}

/// Whether `c` has the Unicode `White_Space` property, which is what
/// `char::is_whitespace` answers.
pub(crate) fn char_is_whitespace(c: char) -> (r: bool)
    ensures
        r == spec_is_whitespace(c),
{
    ('\t' <= c && c <= '\r') || c == ' ' || c == '\u{85}' || c == '\u{a0}' || c == '\u{1680}' || (
    '\u{2000}' <= c && c <= '\u{200a}') || c == '\u{2028}' || c == '\u{2029}' || c == '\u{202f}'
        || c == '\u{205f}' || c == '\u{3000}'
}

/// Calls `str::to_lowercase`; the contract names its result, which depends
/// on the characters of `s` alone.
#[verifier::external_body]
pub(crate) fn str_to_lowercase(s: &str) -> (r: String)
    ensures
        r@ == spec_to_lowercase(s@),
{
    s.to_lowercase()
}

/// Calls `str::to_uppercase`; the contract names its result, which depends
/// on the characters of `s` alone.
#[verifier::external_body]
pub(crate) fn str_to_uppercase(s: &str) -> (r: String)
    ensures
        r@ == spec_to_uppercase(s@),
{
    s.to_uppercase()
}

/// Calls `char::to_uppercase` and collects what it yields; the contract
/// names the result, which depends on `c` alone.
#[verifier::external_body]
pub(crate) fn char_to_uppercase(c: char) -> (r: String)
    ensures
        r@ == spec_char_to_uppercase(c),
{
    c.to_uppercase().collect()
}

/// Calls `String::push`, which appends one character.
#[verifier::external_body]
pub(crate) fn string_push(s: &mut String, c: char)
    ensures
        final(s)@ == old(s)@.push(c),
{
    s.push(c)
}

/// Calls `str::chars` and collects: the characters of `s` in order. std
/// documents that no allocation exceeds `isize::MAX` bytes, so the vector
/// holds at most `isize::MAX` characters.
#[verifier::external_body]
pub(crate) fn chars_of(s: &str) -> (v: Vec<char>)
    ensures
        v@ == s@,
        v@.len() <= isize::MAX,
{
    s.chars().collect()
}

pub fn is_ascii_digit(c: char) -> (r: bool)
    ensures
        r == spec_is_ascii_digit(c),
{
    '0' <= c && c <= '9'
}

pub fn is_alphanumeric(c: char) -> (r: bool)
    ensures
        r == spec_is_alphanumeric(c),
{
    char_is_alphabetic(c) || char_is_numeric(c)
}

/// A `String` holding exactly the characters of `v`.
pub fn string_from_chars(v: &Vec<char>) -> (r: String)
    ensures
        r@ == v@,
{
    let mut s = String::new();
    let mut i: usize = 0;
    while i < v.len()
        invariant
            i <= v.len(),
            s@ == v@.subrange(0, i as int),
        decreases v.len() - i,
    {
        string_push(&mut s, v[i]);
        i = i + 1;
        assert(s@ =~= v@.subrange(0, i as int));
    }
    assert(v@.subrange(0, v.len() as int) =~= v@);
    s
}

/// A `String` holding the characters `v[from..to]`.
pub fn string_from_range(v: &Vec<char>, from: usize, to: usize) -> (r: String)
    requires
        from <= to <= v.len(),
    ensures
        r@ == v@.subrange(from as int, to as int),
{
    let mut s = String::new();
    let mut i: usize = from;
    while i < to
        invariant
            from <= i <= to <= v.len(),
            s@ == v@.subrange(from as int, i as int),
        decreases to - i,
    {
        string_push(&mut s, v[i]);
        i = i + 1;
        assert(s@ =~= v@.subrange(from as int, i as int));
    }
    s
}

/// Whether the characters `v` spell exactly the string `lit`.
pub fn chars_eq_str(v: &Vec<char>, lit: &str) -> (r: bool)
    ensures
        r == (v@ == lit@),
{
    let n = lit.unicode_len();
    if n != v.len() {
        return false;
    }
    let mut i: usize = 0;
    while i < n
        invariant
            n == lit@.len(),
            n == v.len(),
            i <= n,
            forall|j: int| 0 <= j < i ==> v@[j] == lit@[j],
        decreases n - i,
    {
        if v[i] != lit.get_char(i) {
            return false;
        }
        i = i + 1;
    }
    assert(v@ =~= lit@);
    true
}

/// Whether two strings hold the same characters.
pub fn str_eq(a: &str, b: &str) -> (r: bool)
    ensures
        r == (a@ == b@),
{
    let n = a.unicode_len();
    if n != b.unicode_len() {
        return false;
    }
    let mut i: usize = 0;
    while i < n
        invariant
            n == a@.len(),
            n == b@.len(),
            i <= n,
            forall|j: int| 0 <= j < i ==> a@[j] == b@[j],
        decreases n - i,
    {
        if a.get_char(i) != b.get_char(i) {
            return false;
        }
        i = i + 1;
    }
    assert(a@ =~= b@);
    true
}

/// The decimal digit character for `d < 10`.
pub open spec fn digit_char(d: nat) -> char {
    if d == 0 { '0' }
    else if d == 1 { '1' }
    else if d == 2 { '2' }
    else if d == 3 { '3' }
    else if d == 4 { '4' }
    else if d == 5 { '5' }
    else if d == 6 { '6' }
    else if d == 7 { '7' }
    else if d == 8 { '8' }
    else { '9' }
}

/// The decimal rendering of `n` (what `Display` writes for an unsigned
/// integer): no sign, no leading zeros, `"0"` for zero.
pub open spec fn decimal(n: nat) -> Seq<char>
    decreases n,
{
    if n < 10 {
        seq![digit_char(n)]
    } else {
        decimal(n / 10).push(digit_char(n % 10))
    }
}

fn digit_to_char(d: usize) -> (c: char)
    requires
        d < 10,
    ensures
        c == digit_char(d as nat),
{
    if d == 0 { '0' }
    else if d == 1 { '1' }
    else if d == 2 { '2' }
    else if d == 3 { '3' }
    else if d == 4 { '4' }
    else if d == 5 { '5' }
    else if d == 6 { '6' }
    else if d == 7 { '7' }
    else if d == 8 { '8' }
    else { '9' }
}

/// Appends the decimal rendering of `n` to `s`.
pub fn push_decimal(s: &mut String, n: usize)
    ensures
        final(s)@ == old(s)@ + decimal(n as nat),
    decreases n,
{
    if n >= 10 {
        push_decimal(s, n / 10);
    }
    string_push(s, digit_to_char(n % 10));
    assert(s@ =~= old(s)@ + decimal(n as nat));
}

proof fn lemma_digit_char_value(k: nat)
    requires
        k < 10,
    ensures
        spec_is_ascii_digit(digit_char(k)),
        (digit_char(k) as nat - '0' as nat) as nat == k,
{
}

/// The decimal rendering is a nonempty run of digits that reads back as
/// the number.
pub proof fn lemma_decimal_digits(n: nat)
    ensures
        decimal(n).len() > 0,
        all_digits(decimal(n)),
        digits_value(decimal(n)) == n,
    decreases n,
{
    lemma_digit_char_value(n % 10);
    if n >= 10 {
        lemma_decimal_digits(n / 10);
        let d = decimal(n);
        assert(d.drop_last() =~= decimal(n / 10));
        assert(d.last() == digit_char(n % 10));
        assert(n == (n / 10) * 10 + n % 10);
        assert(digits_value(d) == digits_value(d.drop_last()) * 10 + (d.last() as nat - '0' as nat) as nat);
        assert forall|i: int| 0 <= i < d.len() implies spec_is_ascii_digit(#[trigger] d[i]) by {
            if i < d.len() - 1 {
                assert(d[i] == decimal(n / 10)[i]);
            }
        }
    } else {
        let d = decimal(n);
        assert(d.drop_last() =~= Seq::<char>::empty());
        assert(digits_value(d.drop_last()) == 0);
        assert(d.last() == digit_char(n));
        assert(digits_value(d) == digits_value(d.drop_last()) * 10 + (d.last() as nat - '0' as nat) as nat);
    }
}

/// Distinct numbers have distinct decimal renderings.
pub proof fn lemma_decimal_injective(a: nat, b: nat)
    ensures
        decimal(a) == decimal(b) ==> a == b,
{
    lemma_decimal_digits(a);
    lemma_decimal_digits(b);
}

// ── Lines ──────────────────────────────────────────────────────────────────

/// `l` without a carriage return at its end.
pub open spec fn strip_cr(l: Seq<char>) -> Seq<char> {
    if l.len() > 0 && l.last() == '\r' {
        l.drop_last()
    } else {
        l
    }
}

/// The lines of `s[..n]` ended so far (each without its line feed, and
/// without a carriage return right before it), and the line in progress.
pub open spec fn lines_prefix(s: Seq<char>, n: int) -> (Seq<Seq<char>>, Seq<char>)
    decreases n,
{
    if n <= 0 {
        (Seq::empty(), Seq::empty())
    } else {
        let (done, cur) = lines_prefix(s, n - 1);
        if s[n - 1] == '\n' {
            (done.push(strip_cr(cur)), Seq::empty())
        } else {
            (done, cur.push(s[n - 1]))
        }
    }
}

/// The lines of a text, as `str::lines` gives them: split at line feeds,
/// a carriage return before a line feed dropped, and no empty last line
/// after a final line feed.
pub open spec fn text_lines(s: Seq<char>) -> Seq<Seq<char>> {
    let (done, cur) = lines_prefix(s, s.len() as int);
    if cur.len() > 0 {
        done.push(cur)
    } else {
        done
    }
}

pub open spec fn lines_view(ls: Seq<Vec<char>>) -> Seq<Seq<char>> {
    ls.map_values(|l: Vec<char>| l@)
}

pub fn strip_cr_exec(l: Vec<char>) -> (r: Vec<char>)
    ensures
        r@ == strip_cr(l@),
{
    let mut l = l;
    if l.len() > 0 && l[l.len() - 1] == '\r' {
        l.pop();
    }
    l
}

pub fn split_lines(s: &Vec<char>) -> (r: Vec<Vec<char>>)
    ensures
        lines_view(r@) == text_lines(s@),
{
    let mut done: Vec<Vec<char>> = Vec::new();
    let mut cur: Vec<char> = Vec::new();
    let mut i: usize = 0;
    while i < s.len()
        invariant
            i <= s@.len(),
            (lines_view(done@), cur@) == lines_prefix(s@, i as int),
        decreases s@.len() - i,
    {
        let c = s[i];
        let ghost before = lines_view(done@);
        if c == '\n' {
            let mut line: Vec<char> = Vec::new();
            std::mem::swap(&mut line, &mut cur);
            let line = strip_cr_exec(line);
            done.push(line);
            assert(lines_view(done@) =~= before.push(strip_cr(lines_prefix(s@, i as int).1)));
        } else {
            cur.push(c);
        }
        i = i + 1;
    }
    if cur.len() > 0 {
        let ghost before = lines_view(done@);
        let ghost last = cur@;
        done.push(cur);
        assert(lines_view(done@) =~= before.push(last));
    }
    done
}

// ── Whitespace, trimming and numbers ───────────────────────────────────────

/// Whitespace as `char::is_whitespace` defines it, split into its ASCII
/// part (the six `White_Space` characters there) and the rest.
pub open spec fn is_ws(c: char) -> bool {
    if c <= '\u{7f}' {
        is_ascii_whitespace_char(c)
    } else {
        spec_is_whitespace(c)
    }
}

pub fn is_ws_exec(c: char) -> (r: bool)
    ensures
        r == is_ws(c),
{
    char_is_whitespace(c)
}

/// The value of a run of decimal digits.
pub open spec fn digits_value(d: Seq<char>) -> nat
    decreases d.len(),
{
    if d.len() == 0 {
        0
    } else {
        digits_value(d.drop_last()) * 10 + (d.last() as nat - '0' as nat) as nat
    }
}

pub open spec fn all_digits(d: Seq<char>) -> bool {
    forall|i: int| 0 <= i < d.len() ==> spec_is_ascii_digit(#[trigger] d[i])
}

/// What `str::parse::<u64>` gives: an optional `+`, then one or more ASCII
/// digits whose value fits in 64 bits.
pub open spec fn parse_u64(s: Seq<char>) -> Option<u64> {
    let d = if s.len() > 0 && s[0] == '+' { s.drop_first() } else { s };
    if d.len() > 0 && all_digits(d) && digits_value(d) <= u64::MAX {
        Some(digits_value(d) as u64)
    } else {
        None
    }
}

pub proof fn lemma_digits_value_grows(d: Seq<char>, k: int)
    requires
        0 <= k <= d.len(),
        forall|i: int| 0 <= i < d.len() ==> spec_is_ascii_digit(#[trigger] d[i]),
    ensures
        digits_value(d.take(k)) <= digits_value(d),
    decreases d.len() - k,
{
    if k < d.len() {
        lemma_digits_value_grows(d, k + 1);
        assert(d.take(k + 1).drop_last() =~= d.take(k));
    } else {
        assert(d.take(k) =~= d);
    }
}

pub proof fn lemma_parse_overflow(d: Seq<char>, k: int)
    requires
        0 < k <= d.len(),
        digits_value(d.take(k)) > u64::MAX,
    ensures
        !(all_digits(d) && digits_value(d) <= u64::MAX),
{
    if all_digits(d) {
        lemma_digits_value_grows(d, k);
    }
}

/// Parses `s[from..to]` as `str::parse::<u64>` does.
pub fn parse_u64_range(s: &Vec<char>, from: usize, to: usize) -> (r: Option<u64>)
    requires
        from <= to <= s@.len(),
    ensures
        r == parse_u64(s@.subrange(from as int, to as int)),
{
    let ghost t = s@.subrange(from as int, to as int);
    let mut start = from;
    if from < to && s[from] == '+' {
        start = from + 1;
    }
    let ghost d = s@.subrange(start as int, to as int);
    assert(d =~= if t.len() > 0 && t[0] == '+' { t.drop_first() } else { t });
    if start == to {
        return None;
    }
    let mut v: u64 = 0;
    let mut i: usize = start;
    assert(s@.subrange(start as int, start as int) =~= Seq::<char>::empty());
    while i < to
        invariant
            start < to <= s@.len(),
            start <= i <= to,
            d == s@.subrange(start as int, to as int),
            d == if t.len() > 0 && t[0] == '+' { t.drop_first() } else { t },
            t == s@.subrange(from as int, to as int),
            forall|j: int| start <= j < i ==> spec_is_ascii_digit(#[trigger] s@[j]),
            v as nat == digits_value(s@.subrange(start as int, i as int)),
        decreases to - i,
    {
        let c = s[i];
        let ghost k = (i + 1 - start) as int;
        assert(d.take(k) =~= s@.subrange(start as int, i + 1));
        assert(s@.subrange(start as int, i + 1).drop_last() =~= s@.subrange(start as int, i as int));
        if !is_ascii_digit(c) {
            assert(d[i - start] == c);
            assert(!spec_is_ascii_digit(d[i - start]));
            assert(!all_digits(d));
            assert(parse_u64(t) is None);
            return None;
        }
        let dv = (c as u32 - '0' as u32) as u64;
        let next = match v.checked_mul(10) {
            Some(m) => m.checked_add(dv),
            None => None,
        };
        match next {
            None => {
                proof {
                    lemma_parse_overflow(d, k);
                }
                return None;
            },
            Some(w) => {
                v = w;
            },
        }
        i = i + 1;
    }
    assert(d =~= s@.subrange(start as int, i as int));
    Some(v)
}

/// The first index at or after `i` holding `c`, or the length.
pub open spec fn index_of_from(f: Seq<char>, c: char, i: int) -> int
    decreases f.len() - i,
{
    if i < 0 || i >= f.len() {
        f.len() as int
    } else if f[i] == c {
        i
    } else {
        index_of_from(f, c, i + 1)
    }
}

/// `s` without the leading characters satisfying `p`.
pub open spec fn trim_start_where(s: Seq<char>, p: spec_fn(char) -> bool) -> Seq<char>
    decreases s.len(),
{
    if s.len() > 0 && p(s[0]) {
        trim_start_where(s.drop_first(), p)
    } else {
        s
    }
}

/// `s` without the trailing characters satisfying `p`.
pub open spec fn trim_end_where(s: Seq<char>, p: spec_fn(char) -> bool) -> Seq<char>
    decreases s.len(),
{
    if s.len() > 0 && p(s.last()) {
        trim_end_where(s.drop_last(), p)
    } else {
        s
    }
}

/// `s` without leading and trailing characters satisfying `p` (what
/// `str::trim` does for whitespace and `str::trim_matches` for a char).
pub open spec fn trim_where(s: Seq<char>, p: spec_fn(char) -> bool) -> Seq<char> {
    trim_end_where(trim_start_where(s, p), p)
}

pub open spec fn ws_pred() -> spec_fn(char) -> bool {
    |c: char| is_ws(c)
}

pub open spec fn char_pred(x: char) -> spec_fn(char) -> bool {
    |c: char| c == x
}

/// Whether `c` is trimmed: whitespace when `ws`, else the character `x`.
pub fn trimmed_char(c: char, ws: bool, x: char) -> (r: bool)
    ensures
        r == (if ws { ws_pred() } else { char_pred(x) })(c),
{
    if ws {
        is_ws_exec(c)
    } else {
        c == x
    }
}

/// The bounds `[a, b)` of `s[from..to]` trimmed of whitespace (`ws`) or of
/// the character `x`.
pub fn trim_bounds(s: &Vec<char>, from: usize, to: usize, ws: bool, x: char) -> (r: (usize, usize))
    requires
        from <= to <= s@.len(),
    ensures
        from <= r.0 <= r.1 <= to,
        s@.subrange(r.0 as int, r.1 as int) == trim_where(
            s@.subrange(from as int, to as int),
            if ws { ws_pred() } else { char_pred(x) },
        ),
{
    let ghost p = if ws { ws_pred() } else { char_pred(x) };
    let mut a = from;
    while a < to && trimmed_char(s[a], ws, x)
        invariant
            from <= a <= to <= s@.len(),
            p == (if ws { ws_pred() } else { char_pred(x) }),
            trim_start_where(s@.subrange(a as int, to as int), p) == trim_start_where(
                s@.subrange(from as int, to as int),
                p,
            ),
        decreases to - a,
    {
        assert(s@.subrange(a as int, to as int).drop_first() =~= s@.subrange(a + 1, to as int));
        a = a + 1;
    }
    let mut b = to;
    while b > a && trimmed_char(s[b - 1], ws, x)
        invariant
            from <= a <= b <= to <= s@.len(),
            p == (if ws { ws_pred() } else { char_pred(x) }),
            trim_start_where(s@.subrange(from as int, to as int), p) == s@.subrange(a as int, to as int),
            trim_end_where(s@.subrange(a as int, b as int), p) == trim_where(s@.subrange(from as int, to as int), p),
        decreases b - a,
    {
        assert(s@.subrange(a as int, b as int).drop_last() =~= s@.subrange(a as int, b - 1));
        b = b - 1;
    }
    (a, b)
}

} // verus!
