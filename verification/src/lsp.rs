//! The language server's pure parts: builtin documentation for hover, and
//! the word under the cursor.
use vstd::prelude::*;
use crate::text::{
    all_digits, chars_eq_str, chars_of, decimal, digit_char, digits_value, index_of_from, is_alphanumeric,
    is_ws, lemma_decimal_digits, parse_u64, parse_u64_range, push_decimal, spec_is_alphanumeric,
    spec_is_ascii_digit, split_lines, str_eq, string_from_range, text_lines, trim_bounds, trim_end_where,
    trim_start_where, trim_where, ws_pred,
};

verus! {

/// A small, hand-maintained subset of the built-in function reference:
/// name, then its hover text in markdown.
pub const BUILTIN_DOCS: [(&'static str, &'static str); 41] = [
    ("log",
     "```gx\nlog(v)\n```\nPrint value to stdout with newline."),
    ("say",
     "```gx\nsay x\n```\nPrint value (statement form)."),
    ("assert",
     "```gx\nassert condition, message?\n```\nThrows `Signal::AssertFail` if `condition` is falsy."),
    ("retry",
     "```gx\nretry(fn, max?, opts?)\n```\nCalls `fn()` until it succeeds — a thrown error *or* a returned `{ ok: false, ... }` both count as a retryable failure. `opts`: `delay` (ms), `backoff` (`\"exponential\"`|`\"linear\"`|`\"fixed\"`)."),
    ("unwrap",
     "```gx\nunwrap(result)\n```\nIf `result` is `{ ok: false, error, error_kind, ... }`, throws (catchable via `try/catch`). Anything else passes through unchanged."),
    ("has_capability",
     "```gx\nhas_capability(resource, name?)\n```\n`true`/`false` — would this resource/name currently be authorized? Never throws, never has a side effect."),
    ("http_get",
     "```gx\nhttp_get(url, opts?)\n```\nReturns `{ ok, status, body, data?, error?, error_kind? }` — never throws on a failed *request* (timeout, non-2xx, blocked)."),
    ("http_post",
     "```gx\nhttp_post(url, body, opts?)\n```\nSame return shape as `http_get`."),
    ("http_request",
     "```gx\nhttp_request({ url, method, headers?, body?, timeout? })\n```\nUnified form of `http_get`/`http_post`/`http_put`/`http_delete`."),
    ("db_query",
     "```gx\ndb_query(path, sql, params?)\n```\nReturns an array of row objects. Throws on failure (catchable via `try/catch`) rather than returning `{ ok: false }`."),
    ("db_exec",
     "```gx\ndb_exec(path, sql, params?)\n```\nRuns a non-SELECT statement. Throws on failure."),
    ("process_run",
     "```gx\nprocess_run({ command, args?, timeout?, cwd?, env? })\n```\nReturns `{ ok, stdout, stderr, exit_code, error?, error_kind? }`. Requires `--allow-process`."),
    ("task_spawn",
     "```gx\ntask_spawn(fn, opts?)\n```\nRuns `fn` concurrently; returns a handle for `task_wait`/`task_cancel`."),
    ("task_wait",
     "```gx\ntask_wait(handle, timeout_ms?)\n```\nReturns `{ ok, value, error?, cancelled? }`."),
    ("read_file",
     "```gx\nread_file(path)\n```\nReturns file contents as a string. Throws if the path doesn't exist or is outside the sandbox."),
    ("write_file",
     "```gx\nwrite_file(path, content)\n```\nThrows on failure."),
    ("json_stringify",
     "```gx\njson_stringify(v)\n```\nAliases: `to_json`, `json`."),
    ("json_parse",
     "```gx\njson_parse(s)\n```\nAlias: `parse_json`."),
    ("len",
     "```gx\nlen(v)\n```\nLength of a string, array, or object (key count)."),
    ("type_of",
     "```gx\ntype_of(v)\n```\nReturns `\"string\"`|`\"number\"`|`\"boolean\"`|`\"array\"`|`\"object\"`|`\"null\"`|`\"function\"`."),
    ("span",
     "```gx\nspan(\"name\") { ... }\n```\nManual diagnostics instrumentation — active under `--trace`. Also valid as `span(\"name\"):` in progressive syntax."),
    ("db_transaction",
     "```gx\ndb_transaction(path) { ... }\n```\nRuns the block atomically; commits on success, rolls back if it throws. Also valid as `db_transaction(path):` in progressive syntax."),
    ("ask",
     "```gx\nask <provider> { prompt: \"...\", model?: \"...\" }\n```\nCalls an AI provider (`openai`/`anthropic`/`ollama`). Every call is auto-logged to `memory.ai_trace`."),
    ("embed",
     "```gx\nembed \"text\"\n```\nReturns an `Array` of floats (OpenAI `text-embedding-3-small`)."),
    ("breakpoint",
     "```gx\nbreakpoint()\n```\nPauses execution and opens an interactive debugger prompt — works in any execution context, no flag required. See also `gx debug`/`--break`."),
    ("test",
     "```gx\ntest(name, fn)\n```\nRegisters a named, isolated test case — run separately (its own fresh assertions) by `gx test` after the top-level script finishes."),
    ("before_each",
     "```gx\nbefore_each(fn)\n```\nRuns before every `test()` case in this file. Share state with the test body via `memory.*` (closures capture by value)."),
    ("after_each",
     "```gx\nafter_each(fn)\n```\nRuns after every `test()` case in this file, even if the test failed — see `before_each`."),
    ("set_random_seed",
     "```gx\nset_random_seed(n)\n```\nMakes `random`/`random_int`/`random_choice`/`shuffle` fully deterministic for the rest of the run."),
    ("test_temp_dir",
     "```gx\ntest_temp_dir()\n```\nReturns a fresh, writable scratch directory — sandbox-respecting, unique on every call."),
    ("assert_golden",
     "```gx\nassert_golden(actual, path)\n```\nByte-for-byte comparison against a saved file. Missing file, or `GX_UPDATE_GOLDEN=1`: writes `actual` and passes."),
    ("config_load",
     "```gx\nconfig_load({ defaults?, file?, env_prefix?, overrides?, schema? })\n```\nLayered config: defaults < file < env overrides (type-coerced) < explicit overrides, with optional fail-fast schema validation."),
    ("jsonl_parse",
     "```gx\njsonl_parse(text)\n```\nOne independent JSON value per line (JSON Lines / NDJSON) — distinct from `json_parse`, which expects the whole text to be one value."),
    ("jsonl_stringify",
     "```gx\njsonl_stringify(arr)\n```\nOne compact JSON value per line."),
    ("versioned_stringify",
     "```gx\nversioned_stringify(value, version)\n```\nWraps `value` with a version tag. Pair with `versioned_parse` for fail-loud-on-drift persisted data."),
    ("versioned_parse",
     "```gx\nversioned_parse(text, expected_version?)\n```\nThrows if the tag doesn't match `expected_version`. Omit it to read the data unconditionally."),
    ("data_import",
     "```gx\ndata_import(path)\n```\nRead + parse, format detected from the extension (`.json`/`.yaml`/`.yml`/`.toml`/`.csv`/`.xml`/`.jsonl`)."),
    ("data_export",
     "```gx\ndata_export(path, value, schema?)\n```\nStringify + write, format detected from the extension. Optional schema validation fails before writing anything."),
    ("render_template",
     "```gx\nrender_template(template, data)\n```\n`{{dotted.path}}` substitution against `data`. Load `template` via `read_file` — a GX string literal's own `\"{expr}\"` interpolation would mangle `{{...}}` first."),
    ("task_emit",
     "```gx\ntask_emit(value)\n```\nCalled from inside a running task to report incremental progress. Drained by the caller via `task_progress(handle)`."),
    ("task_progress",
     "```gx\ntask_progress(handle)\n```\nDrains every value `task_emit`'d since the last drain. Empty array (not an error) when there's nothing new."),
];

/// The index of the first documented builtin named `name` at or after `i`,
/// or the table's length.
pub open spec fn doc_index_from(name: Seq<char>, i: int) -> int
    decreases BUILTIN_DOCS@.len() - i,
{
    if i < 0 || i >= BUILTIN_DOCS@.len() {
        BUILTIN_DOCS@.len() as int
    } else if BUILTIN_DOCS@[i].0@ == name {
        i
    } else {
        doc_index_from(name, i + 1)
    }
}

/// The hover text documented for `name`.
pub open spec fn builtin_doc(name: Seq<char>) -> Option<Seq<char>> {
    let i = doc_index_from(name, 0);
    if i < BUILTIN_DOCS@.len() {
        Some(BUILTIN_DOCS@[i].1@)
    } else {
        None
    }
}

pub fn lookup(name: &str) -> (r: Option<&'static str>)
    ensures
        match builtin_doc(name@) {
            Some(d) => r matches Some(t) && t@ == d,
            None => r is None,
        },
{
    let n = BUILTIN_DOCS.len();
    let mut i: usize = 0;
    while i < n
        invariant
            n == BUILTIN_DOCS@.len(),
            i <= n,
            doc_index_from(name@, i as int) == doc_index_from(name@, 0),
        decreases n - i,
    {
        let entry = BUILTIN_DOCS[i];
        if str_eq(entry.0, name) {
            return Some(entry.1);
        }
        i = i + 1;
    }
    None
}

pub open spec fn is_word_char(c: char) -> bool {
    spec_is_alphanumeric(c) || c == '_'
}

/// Where the word through position `i` starts: after the last non-word
/// character at or before `i`, or at 0.
pub open spec fn word_start(line: Seq<char>, i: int) -> int
    decreases i + 1,
{
    if i < 0 || i >= line.len() {
        0
    } else if !is_word_char(line[i]) {
        i + 1
    } else {
        word_start(line, i - 1)
    }
}

/// Where the word through position `i` ends: at the first non-word
/// character at or after `i`, or at the end of the line.
pub open spec fn word_end(line: Seq<char>, i: int) -> int
    decreases line.len() - i,
{
    if i < 0 || i >= line.len() {
        line.len() as int
    } else if !is_word_char(line[i]) {
        i
    } else {
        word_end(line, i + 1)
    }
}

/// The word a cursor at `char_idx` is inside or immediately after.
pub open spec fn word_at(line: Seq<char>, char_idx: int) -> Option<Seq<char>> {
    let at = if char_idx < line.len() { char_idx } else { line.len() as int };
    let anchor = if at < line.len() && is_word_char(line[at]) {
        at
    } else if at > 0 && is_word_char(line[at - 1]) {
        at - 1
    } else {
        -1
    };
    if anchor < 0 {
        None
    } else {
        let start = word_start(line, anchor);
        let end = word_end(line, anchor);
        if start >= end {
            None
        } else {
            Some(line.subrange(start, end))
        }
    }
}

/// The identifier the cursor at (`line_idx`, `char_idx`) of `source` is
/// inside or immediately after.
pub open spec fn word_at_position_spec(source: Seq<char>, line_idx: int, char_idx: int) -> Option<Seq<char>> {
    let ls = text_lines(source);
    if 0 <= line_idx < ls.len() {
        word_at(ls[line_idx], char_idx)
    } else {
        None
    }
}

fn is_word_char_exec(c: char) -> (r: bool)
    ensures
        r == is_word_char(c),
{
    is_alphanumeric(c) || c == '_'
}

/// The identifier the cursor is inside or immediately after, or `None` if
/// the line is out of range or there is no identifier there (whitespace or
/// punctuation). A cursor at the end of the line counts as inside it.
pub fn word_at_position(source: &str, line_idx: usize, char_idx: usize) -> (r: Option<String>)
    ensures
        match word_at_position_spec(source@, line_idx as int, char_idx as int) {
            Some(w) => r matches Some(t) && t@ == w,
            None => r is None,
        },
{
    let text = chars_of(source);
    let lines = split_lines(&text);
    if line_idx >= lines.len() {
        return None;
    }
    let chars = &lines[line_idx];
    let ghost line = chars@;
    assert(text_lines(source@)[line_idx as int] == line);
    let n = chars.len();
    let at = if char_idx < n { char_idx } else { n };
    let anchor = if at < n && is_word_char_exec(chars[at]) {
        at
    } else if at > 0 && is_word_char_exec(chars[at - 1]) {
        at - 1
    } else {
        return None;
    };
    let mut i: usize = anchor;
    while i > 0 && is_word_char_exec(chars[i])
        invariant
            i <= anchor < n,
            n == line.len(),
            chars@ == line,
            word_start(line, i as int) == word_start(line, anchor as int),
        decreases i,
    {
        i = i - 1;
    }
    let start = if is_word_char_exec(chars[i]) {
        assert(word_start(line, -1) == 0);
        0
    } else {
        i + 1
    };
    let mut end: usize = anchor;
    while end < n && is_word_char_exec(chars[end])
        invariant
            anchor <= end <= n,
            n == line.len(),
            chars@ == line,
            word_end(line, end as int) == word_end(line, anchor as int),
        decreases n - end,
    {
        end = end + 1;
    }
    if start >= end {
        return None;
    }
    Some(string_from_range(chars, start, end))
}

pub proof fn lemma_word_start_bounds(line: Seq<char>, i: int)
    requires
        0 <= i < line.len(),
    ensures
        0 <= word_start(line, i) <= i + 1,
        forall|k: int| word_start(line, i) <= k <= i ==> is_word_char(#[trigger] line[k]),
        word_start(line, i) > 0 ==> !is_word_char(line[word_start(line, i) - 1]),
    decreases i + 1,
{
    if is_word_char(line[i]) {
        if i > 0 {
            lemma_word_start_bounds(line, i - 1);
        } else {
            assert(word_start(line, -1) == 0);
        }
    }
}

pub proof fn lemma_word_end_bounds(line: Seq<char>, i: int)
    requires
        0 <= i <= line.len(),
    ensures
        i <= word_end(line, i) <= line.len(),
        forall|k: int| i <= k < word_end(line, i) ==> is_word_char(#[trigger] line[k]),
        word_end(line, i) < line.len() ==> !is_word_char(line[word_end(line, i)]),
    decreases line.len() - i,
{
    if i < line.len() && is_word_char(line[i]) {
        lemma_word_end_bounds(line, i + 1);
    }
}

/// `w` stands in `line` at `s`, with no identifier character right before
/// or right after it.
pub open spec fn whole_word_at(line: Seq<char>, w: Seq<char>, s: int) -> bool {
    &&& 0 <= s && s + w.len() <= line.len()
    &&& line.subrange(s, s + w.len()) == w
    &&& s == 0 || !is_word_char(line[s - 1])
    &&& s + w.len() == line.len() || !is_word_char(line[s + w.len()])
}

/// The word under the cursor is a whole identifier: nonempty, made of
/// identifier characters only, and not extendable on either side.
#[verifier::spinoff_prover]
pub proof fn lemma_word_at_is_whole_word(line: Seq<char>, char_idx: int)
    requires
        0 <= char_idx,
    ensures
        word_at(line, char_idx) matches Some(w) ==> {
            &&& w.len() > 0
            &&& forall|k: int| 0 <= k < w.len() ==> is_word_char(#[trigger] w[k])
            &&& exists|s: int| #[trigger] whole_word_at(line, w, s)
        },
{
    let at = if char_idx < line.len() { char_idx } else { line.len() as int };
    let anchor = if at < line.len() && is_word_char(line[at]) {
        at
    } else if at > 0 && is_word_char(line[at - 1]) {
        at - 1
    } else {
        -1
    };
    if anchor >= 0 {
        lemma_word_start_bounds(line, anchor);
        lemma_word_end_bounds(line, anchor);
        let s = word_start(line, anchor);
        let e = word_end(line, anchor);
        assert(s <= anchor < e);
        let w = line.subrange(s, e);
        assert(word_at(line, char_idx) == Some(w));
        assert forall|k: int| 0 <= k < w.len() implies is_word_char(#[trigger] w[k]) by {
            assert(w[k] == line[s + k]);
        }
        assert(w.len() == e - s);
        assert(line.subrange(s, s + w.len()) =~= w);
        assert(whole_word_at(line, w, s));
    } else {
        assert(word_at(line, char_idx) is None);
    }
}

// ── JSON-RPC framing ─────────────────────────────────────────────────────────

/// The largest frame body accepted: a client-supplied length is bounded so
/// that a hostile length cannot make a frame allocate unboundedly.
pub const MAX_FRAME_BYTES: usize = 64 * 1024 * 1024;

/// What one header line of a `Content-Length`-framed message says.
#[derive(Debug, Clone, Copy, PartialEq, Eq)]
pub enum HeaderLine {
    /// The blank line that ends the header block.
    End,
    /// A `Content-Length:` header, with its value if it reads as a number.
    ContentLength(Option<usize>),
    /// Any other header, accepted and ignored.
    Other,
}

pub open spec fn crlf_pred() -> spec_fn(char) -> bool {
    |c: char| c == '\r' || c == '\n'
}

/// What `str::parse::<usize>` gives.
pub open spec fn parse_usize(s: Seq<char>) -> Option<usize> {
    match parse_u64(s) {
        Some(v) => if v <= usize::MAX {
            Some(v as usize)
        } else {
            None
        },
        None => None,
    }
}

/// The meaning of a header line as read (line ending included).
pub open spec fn header_line_kind(line: Seq<char>) -> HeaderLine {
    let l = trim_end_where(line, crlf_pred());
    let key = "Content-Length:"@;
    if l.len() == 0 {
        HeaderLine::End
    } else if l.len() >= key.len() && l.take(key.len() as int) == key {
        HeaderLine::ContentLength(parse_usize(trim_where(l.skip(key.len() as int), ws_pred())))
    } else {
        HeaderLine::Other
    }
}

/// Reads one header line of a JSON-RPC frame, as received.
pub fn classify_header_line(line: &str) -> (r: HeaderLine)
    ensures
        r == header_line_kind(line@),
{
    let chars = chars_of(line);
    let n = chars.len();
    let mut b = n;
    assert(chars@.subrange(0, n as int) =~= chars@);
    while b > 0 && (chars[b - 1] == '\r' || chars[b - 1] == '\n')
        invariant
            b <= n,
            n == chars@.len(),
            trim_end_where(chars@.subrange(0, b as int), crlf_pred()) == trim_end_where(chars@, crlf_pred()),
        decreases b,
    {
        assert(chars@.subrange(0, b as int).drop_last() =~= chars@.subrange(0, b - 1));
        b = b - 1;
    }
    let ghost l = chars@.subrange(0, b as int);
    assert(trim_end_where(l, crlf_pred()) == l);
    if b == 0 {
        return HeaderLine::End;
    }
    let key = chars_of("Content-Length:");
    let k = key.len();
    if b < k {
        return HeaderLine::Other;
    }
    let mut head: Vec<char> = Vec::new();
    let mut i: usize = 0;
    while i < k
        invariant
            i <= k <= b <= n,
            n == chars@.len(),
            head@ == chars@.subrange(0, i as int),
        decreases k - i,
    {
        head.push(chars[i]);
        i = i + 1;
        assert(head@ =~= chars@.subrange(0, i as int));
    }
    assert(l.take(k as int) =~= head@);
    if !chars_eq_str(&head, "Content-Length:") {
        return HeaderLine::Other;
    }
    let (va, vb) = trim_bounds(&chars, k, b, true, ' ');
    assert(l.skip(k as int) =~= chars@.subrange(k as int, b as int));
    let v = match parse_u64_range(&chars, va, vb) {
        Some(v) => if v <= usize::MAX as u64 {
            Some(v as usize)
        } else {
            None
        },
        None => None,
    };
    HeaderLine::ContentLength(v)
}

/// The body length to read for a frame whose header block gave
/// `content_length`: none when there was no readable length or it exceeds
/// `MAX_FRAME_BYTES`.
pub fn frame_body_length(content_length: Option<usize>) -> (r: Option<usize>)
    ensures
        r == match content_length {
            Some(n) => if n <= MAX_FRAME_BYTES {
                Some(n)
            } else {
                None::<usize>
            },
            None => None,
        },
{
    match content_length {
        Some(n) => if n <= MAX_FRAME_BYTES {
            Some(n)
        } else {
            None
        },
        None => None,
    }
}

/// The header block written before a body of `len` bytes.
pub open spec fn frame_header_text(len: usize) -> Seq<char> {
    "Content-Length: "@ + decimal(len as nat) + "\r\n\r\n"@
}

pub fn frame_header(len: usize) -> (r: String)
    ensures
        r@ == frame_header_text(len),
{
    let mut r = String::from_str("Content-Length: ");
    push_decimal(&mut r, len);
    r.append("\r\n\r\n");
    r
}

proof fn lemma_trim_end_no_crlf(s: Seq<char>)
    requires
        s.len() > 0,
        s.last() != '\r' && s.last() != '\n',
    ensures
        trim_end_where(s, crlf_pred()) == s,
{
}

/// A header block written for a body of `len` bytes reads back, line by
/// line, as that length and then the end of the header block.
pub proof fn lemma_frame_header_read_back(len: usize)
    ensures
        ({
            let h = frame_header_text(len);
            let i = index_of_from(h, '\n', 0);
            &&& 0 <= i < h.len()
            &&& header_line_kind(h.take(i + 1)) == HeaderLine::ContentLength(Some(len))
            &&& header_line_kind(h.skip(i + 1)) == HeaderLine::End
            &&& h[i] == '\n'
            &&& forall|j: int| 0 <= j < i ==> h[j] != '\n'
            &&& h.skip(i + 1) == seq!['\r', '\n']
            &&& forall|j: int| 0 <= j < h.len() ==> (h[j] as u32) < 128
        }),
{
    reveal_strlit("Content-Length: ");
    reveal_strlit("Content-Length:");
    reveal_strlit("\r\n\r\n");
    lemma_decimal_digits(len as nat);
    let d = decimal(len as nat);
    let pre = "Content-Length: "@;
    let h = frame_header_text(len);
    let p: int = (pre.len() + d.len()) as int;
    assert(pre.len() == 16);
    assert forall|j: int| 0 <= j < p implies #[trigger] h[j] != '\n' by {
        if j < 16 {
            assert(h[j] == pre[j]);
        } else {
            assert(h[j] == d[j - 16]);
            assert(spec_is_ascii_digit(d[j - 16]));
        }
    }
    assert(h[p] == '\r');
    assert(h[p + 1] == '\n');
    assert forall|j: int| 0 <= j < h.len() implies (h[j] as u32) < 128 by {
        if j < 16 {
            assert(h[j] == pre[j]);
        } else if j < p {
            assert(h[j] == d[j - 16]);
            assert(spec_is_ascii_digit(d[j - 16]));
        } else {
            assert(h[j] == "\r\n\r\n"@[j - p]);
        }
    }
    assert forall|j: int| 0 <= j <= p + 1 implies index_of_from(h, '\n', j) == p + 1 by {
        lemma_index_of_from_skips(h, '\n', j, p + 1);
    }
    let first = h.take(p + 2);
    let line = pre + d;
    assert(first =~= line + seq!['\r', '\n']);
    assert(trim_end_where(first, crlf_pred()) == line) by {
        let cr = line + seq!['\r'];
        assert(first.drop_last() =~= cr);
        assert(cr.drop_last() =~= line);
        assert(first.last() == '\n');
        assert(cr.last() == '\r');
        assert(trim_end_where(first, crlf_pred()) == trim_end_where(cr, crlf_pred()));
        assert(trim_end_where(cr, crlf_pred()) == trim_end_where(line, crlf_pred()));
        assert(line.last() == d.last());
        assert(spec_is_ascii_digit(d.last()));
        lemma_trim_end_no_crlf(line);
    }
    let key = "Content-Length:"@;
    assert(key.len() == 15);
    assert(line.take(15) =~= key);
    let value = line.skip(15);
    assert(value =~= seq![' '] + d);
    assert(trim_start_where(value, ws_pred()) == d) by {
        assert(value.drop_first() =~= d);
        assert(value[0] == ' ');
        assert(is_ws(' '));
        assert(ws_pred()(value[0]));
        assert(trim_start_where(value, ws_pred()) == trim_start_where(d, ws_pred()));
        assert(spec_is_ascii_digit(d[0]));
        assert(!is_ws(d[0]));
        assert(!ws_pred()(d[0]));
    }
    assert(trim_end_where(d, ws_pred()) == d) by {
        assert(spec_is_ascii_digit(d.last()));
        assert(!is_ws(d.last()));
    }
    assert(parse_u64(d) == Some(len as u64)) by {
        if d.len() > 0 && d[0] == '+' {
            assert(spec_is_ascii_digit(d[0]));
        }
    }
    assert(trim_where(value, ws_pred()) == d);
    assert(parse_usize(d) == Some(len));
    assert(index_of_from(h, '\n', 0) == p + 1);
    assert(header_line_kind(first) == HeaderLine::ContentLength(Some(len)));
    let rest = h.skip(p + 2);
    assert(rest =~= seq!['\r', '\n']);
    assert(rest.drop_last() =~= seq!['\r']);
    assert(seq!['\r'].drop_last() =~= Seq::<char>::empty());
    assert(trim_end_where(rest, crlf_pred()) == trim_end_where(seq!['\r'], crlf_pred()));
    assert(trim_end_where(seq!['\r'], crlf_pred()) == trim_end_where(Seq::<char>::empty(), crlf_pred()));
}

pub proof fn lemma_index_of_from_skips(s: Seq<char>, c: char, j: int, k: int)
    requires
        0 <= j <= k < s.len(),
        s[k] == c,
        forall|m: int| j <= m < k ==> #[trigger] s[m] != c,
    ensures
        index_of_from(s, c, j) == k,
    decreases k - j,
{
    if j < k {
        lemma_index_of_from_skips(s, c, j + 1, k);
    }
}

// ── Message routing ──────────────────────────────────────────────────────────

/// What the server does with one incoming message.
#[derive(Debug, Clone, Copy, PartialEq, Eq)]
pub enum LspAction {
    /// Answer with the server's capabilities.
    Initialize,
    /// Nothing to do and nothing to answer.
    NoReply,
    /// Store the opened document and publish its diagnostics.
    OpenDocument,
    /// Replace the document's text and publish its diagnostics.
    ChangeDocument,
    /// Forget the document.
    CloseDocument,
    /// Answer with hover text for the word under the cursor.
    Hover,
    /// Answer with the location of the definition under the cursor.
    Definition,
    /// Answer the shutdown request with null.
    Shutdown,
    /// Stop the server loop.
    Exit,
    /// Answer an unknown request with a method-not-found error.
    MethodNotFound,
}

/// The methods the server knows.
pub open spec fn is_known_method(m: Seq<char>) -> bool {
    ||| m == "initialize"@
    ||| m == "initialized"@
    ||| m == "$/cancelRequest"@
    ||| m == "textDocument/didOpen"@
    ||| m == "textDocument/didChange"@
    ||| m == "textDocument/didClose"@
    ||| m == "textDocument/hover"@
    ||| m == "textDocument/definition"@
    ||| m == "shutdown"@
    ||| m == "exit"@
}

/// The action for a message with method `m`; `has_id` tells a request
/// (which expects an answer) from a notification.
pub open spec fn route(m: Seq<char>, has_id: bool) -> LspAction {
    if m == "initialize"@ {
        if has_id { LspAction::Initialize } else { LspAction::NoReply }
    } else if m == "initialized"@ || m == "$/cancelRequest"@ {
        LspAction::NoReply
    } else if m == "textDocument/didOpen"@ {
        LspAction::OpenDocument
    } else if m == "textDocument/didChange"@ {
        LspAction::ChangeDocument
    } else if m == "textDocument/didClose"@ {
        LspAction::CloseDocument
    } else if m == "textDocument/hover"@ {
        if has_id { LspAction::Hover } else { LspAction::NoReply }
    } else if m == "textDocument/definition"@ {
        if has_id { LspAction::Definition } else { LspAction::NoReply }
    } else if m == "shutdown"@ {
        if has_id { LspAction::Shutdown } else { LspAction::NoReply }
    } else if m == "exit"@ {
        LspAction::Exit
    } else if has_id {
        LspAction::MethodNotFound
    } else {
        LspAction::NoReply
    }
}

/// Decides what to do with a message: an unrecognized request gets a
/// method-not-found answer rather than silence, an unrecognized
/// notification is ignored, and `exit` stops the server.
pub fn route_message(method: &str, has_id: bool) -> (r: LspAction)
    ensures
        r == route(method@, has_id),
{
    if str_eq(method, "initialize") {
        if has_id { LspAction::Initialize } else { LspAction::NoReply }
    } else if str_eq(method, "initialized") || str_eq(method, "$/cancelRequest") {
        LspAction::NoReply
    } else if str_eq(method, "textDocument/didOpen") {
        LspAction::OpenDocument
    } else if str_eq(method, "textDocument/didChange") {
        LspAction::ChangeDocument
    } else if str_eq(method, "textDocument/didClose") {
        LspAction::CloseDocument
    } else if str_eq(method, "textDocument/hover") {
        if has_id { LspAction::Hover } else { LspAction::NoReply }
    } else if str_eq(method, "textDocument/definition") {
        if has_id { LspAction::Definition } else { LspAction::NoReply }
    } else if str_eq(method, "shutdown") {
        if has_id { LspAction::Shutdown } else { LspAction::NoReply }
    } else if str_eq(method, "exit") {
        LspAction::Exit
    } else if has_id {
        LspAction::MethodNotFound
    } else {
        LspAction::NoReply
    }
}

/// The action for a message that may lack a method: one without a method
/// is ignored (only `exit` stops the server).
pub open spec fn route_any(m: Option<Seq<char>>, has_id: bool) -> LspAction {
    match m {
        Some(x) => route(x, has_id),
        None => LspAction::NoReply,
    }
}

/// Decides what to do with any incoming message, including one that has
/// no `method` field.
pub fn route_incoming(method: Option<&str>, has_id: bool) -> (r: LspAction)
    ensures
        r == route_any(
            match method {
                Some(m) => Some(m@),
                None => None::<Seq<char>>,
            },
            has_id,
        ),
{
    match method {
        Some(m) => route_message(m, has_id),
        None => LspAction::NoReply,
    }
}

/// Every request gets an answer unless it is `exit` or a document
/// notification: an unknown request is answered with method-not-found, and
/// an unknown notification is ignored.
pub proof fn lemma_unknown_methods(m: Seq<char>)
    requires
        !is_known_method(m),
    ensures
        route(m, true) == LspAction::MethodNotFound,
        route(m, false) == LspAction::NoReply,
{
}

/// Only `exit` stops the server, whether or not it carries an id.
pub proof fn lemma_only_exit_stops(m: Seq<char>, has_id: bool)
    ensures
        route(m, has_id) == LspAction::Exit <==> m == "exit"@,
{
    reveal_strlit("exit");
    reveal_strlit("initialize");
    reveal_strlit("initialized");
    reveal_strlit("$/cancelRequest");
    reveal_strlit("textDocument/didOpen");
    reveal_strlit("textDocument/didChange");
    reveal_strlit("textDocument/didClose");
    reveal_strlit("textDocument/hover");
    reveal_strlit("textDocument/definition");
    reveal_strlit("shutdown");
    if m == "exit"@ {
        assert(m.len() == 4);
        assert("initialize"@.len() == 10);
        assert("initialized"@.len() == 11);
        assert("$/cancelRequest"@.len() == 15);
        assert("textDocument/didOpen"@.len() == 20);
        assert("textDocument/didChange"@.len() == 22);
        assert("textDocument/didClose"@.len() == 21);
        assert("textDocument/hover"@.len() == 18);
        assert("textDocument/definition"@.len() == 23);
        assert("shutdown"@.len() == 8);
    }
}

} // verus!
