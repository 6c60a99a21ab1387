//! The interpreter's runtime support: control-flow signals, variable
//! environments, and the pure helpers the evaluator relies on. The
//! submodules hold the value-shaping builtins and methods (`builtins`,
//! `indexing`), the database connection pool and transaction nesting
//! (`db`), the decisions of `retry` (`retry`), and text, path, cron and
//! `.env` helpers (`util`).
use vstd::prelude::*;
use crate::text::{chars_of, decimal, push_decimal};
use crate::value::{
    assoc_get, assoc_set, lemma_assoc_get_set_other, lemma_assoc_get_set_same, ObjectMap, Value,
    ValueModel,
};

pub mod builtins;
pub mod db;
pub mod indexing;
pub mod paths;
pub mod retry;
pub mod schema;
pub mod selection;
pub mod shuffle;
pub mod statements;
pub mod util;

verus! {

/// Ceiling on concurrent `respond stream` responder threads, server-wide.
pub const MAX_CONCURRENT_SSE_RESPONDERS: usize = 256;

/// Traces longer than this are shown as their first and last ten frames.
pub const CALL_STACK_DISPLAY_LIMIT: usize = 20;

// ── Responder slots ──────────────────────────────────────────────────────────

/// One reservation attempt on a counter holding `n`: the new count if a
/// slot is free below `cap`, nothing otherwise.
pub open spec fn spec_reserve_step(n: usize, cap: usize) -> Option<usize> {
    if n < cap {
        Some((n + 1) as usize)
    } else {
        None
    }
}

pub fn reserve_step(n: usize, cap: usize) -> (r: Option<usize>)
    ensures
        r == spec_reserve_step(n, cap),
{
    if n < cap {
        Some(n + 1)
    } else {
        None
    }
}

/// Calls `AtomicUsize::fetch_update` (sequentially consistent both ways)
/// with `reserve_step` as the update. std documents that it returns
/// `Ok(previous)` when the update gave `Some` and `Err(current)` when it
/// gave `None`; the contract states that of the value it returns. The
/// counter's own value is not modelled: it depends on other threads.
#[verifier::external_body]
fn counter_fetch_reserve(counter: &std::sync::atomic::AtomicUsize, cap: usize) -> (r: Result<usize, usize>)
    ensures
        r matches Ok(prev) ==> spec_reserve_step(prev, cap) is Some,
        r matches Err(cur) ==> spec_reserve_step(cur, cap) is None,
{
    counter.fetch_update(
        std::sync::atomic::Ordering::SeqCst,
        std::sync::atomic::Ordering::SeqCst,
        |n| reserve_step(n, cap),
    )
}

/// Atomically reserves a slot and returns `true` only if `counter` was
/// below `cap`; otherwise leaves `counter` unchanged and returns `false`.
/// The caller releases a reserved slot exactly once (via `fetch_sub`).
pub fn try_reserve_sse_responder_slot(counter: &std::sync::atomic::AtomicUsize, cap: usize) -> (r: bool)
    ensures
        r ==> cap > 0,
{
    match counter_fetch_reserve(counter, cap) {
        Ok(_) => true,
        Err(_) => false,
    }
}

// ── The `{ ok: false, ... }` convention ──────────────────────────────────────

/// Whether `v` is the `{ ok: false, error, error_kind, ... }` shape that
/// operational failures return instead of throwing.
pub open spec fn is_ok_false(v: ValueModel) -> bool {
    v matches ValueModel::Object(es) && assoc_get(es, "ok"@) == Some(ValueModel::Bool(false))
}

pub fn value_is_ok_false(v: &Value) -> (r: bool)
    ensures
        r == is_ok_false(v.model()),
{
    match v {
        Value::Object(m) => match m.get("ok") {
            Some(Value::Bool(b)) => !*b,
            _ => false,
        },
        _ => false,
    }
}

/// The error message a `{ ok: false, ... }` value reports: its `error`
/// text, or `"request failed"` when it has none.
pub open spec fn ok_false_message(es: Seq<(Seq<char>, ValueModel)>) -> Seq<char> {
    match assoc_get(es, "error"@) {
        Some(ValueModel::Str(t)) => t,
        _ => "request failed"@,
    }
}

/// The error a successful HTTP builtin result carries, if it is the
/// `{ ok: false, ... }` shape.
pub open spec fn value_error_message(v: ValueModel) -> Option<Seq<char>> {
    match v {
        ValueModel::Object(es) => if assoc_get(es, "ok"@) == Some(ValueModel::Bool(false)) {
            Some(ok_false_message(es))
        } else {
            None
        },
        _ => None,
    }
}

/// The error message for a span's outcome from an HTTP builtin's result: a
/// thrown error's message, `"request failed"` for any other signal, and for
/// a returned value its message if it is `{ ok: false, ... }`.
pub fn http_result_err_msg(result: &Result<Value, Signal>) -> (r: Option<String>)
    ensures
        match result {
            Err(Signal::Error(e)) => r matches Some(m) && m@ == e@,
            Err(_) => r matches Some(m) && m@ == "request failed"@,
            Ok(v) => match value_error_message(v.model()) {
                Some(t) => r matches Some(m) && m@ == t,
                None => r is None,
            },
        },
{
    match result {
        Err(Signal::Error(e)) => Some(e.clone()),
        Err(_) => Some(String::from_str("request failed")),
        Ok(Value::Object(m)) => match m.get("ok") {
            Some(Value::Bool(b)) => {
                if *b {
                    None
                } else {
                    match m.get("error") {
                        Some(v) => match v.as_str() {
                            Some(s) => Some(String::from_str(s)),
                            None => Some(String::from_str("request failed")),
                        },
                        None => Some(String::from_str("request failed")),
                    }
                }
            },
            _ => None,
        },
        Ok(_) => None,
    }
}

/// A returned value yields an error message exactly when it is the
/// `{ ok: false, ... }` shape that `value_is_ok_false` recognizes.
pub proof fn lemma_err_msg_iff_ok_false(v: ValueModel)
    ensures
        value_error_message(v) is Some <==> is_ok_false(v),
{
}

// ── Control flow signals ─────────────────────────────────────────────────────

#[derive(Debug)]
pub enum Signal {
    Return(Value),
    Break,
    Continue,
    ReRun,
    EscalateToHuman,
    AssertFail(String),
    Error(String),
    /// (content_type, body, status_code)
    Respond(String, String, u16),
    /// The current task (or an ancestor of it) was cancelled; the text is a
    /// human-readable reason.
    Cancelled(String),
}

// ── Messages for signals that escape ─────────────────────────────────────────

/// Ceiling on GX call depth: deeper recursion is a catchable error rather
/// than a stack overflow.
pub const MAX_CALL_DEPTH: usize = 1000;

/// `msg`, followed by the call stack it was raised in when there is one.
pub open spec fn with_call_stack_text(call_stack: Seq<Seq<char>>, msg: Seq<char>) -> Seq<char> {
    if call_stack.len() == 0 {
        msg
    } else {
        msg + "\n  in "@ + call_stack_text(call_stack)
    }
}

/// Appends the call stack (`call_stack`, outermost first) to an error
/// message, as shown for an uncaught failure.
pub fn with_call_stack(call_stack: &[String], msg: String) -> (r: String)
    ensures
        r@ == with_call_stack_text(strings_view(call_stack@), msg@),
{
    if call_stack.len() == 0 {
        msg
    } else {
        let mut r = msg;
        r.append("\n  in ");
        let trace = format_call_stack(call_stack);
        r.append(trace.as_str());
        r
    }
}

/// The text for a signal that propagated to a place expecting only "the
/// operation failed with this message".
pub open spec fn stray_signal_text(call_stack: Seq<Seq<char>>, signal: Signal) -> Seq<char> {
    match signal {
        Signal::Error(m) => m@,
        Signal::AssertFail(m) => with_call_stack_text(call_stack, "Assertion failed: "@ + m@),
        Signal::Return(_) => "unexpected return outside a function"@,
        Signal::ReRun => "unexpected re-run outside a retry block"@,
        Signal::Break => "unexpected break outside a loop"@,
        Signal::Continue => "unexpected continue outside a loop"@,
        Signal::EscalateToHuman => "escalated to human"@,
        Signal::Respond(_, _, _) => "unexpected respond outside a route handler"@,
        Signal::Cancelled(reason) => "cancelled: "@ + reason@,
    }
}

/// Renders a `Signal` that escaped to the top level into one stable,
/// human-readable string (`call_stack` is the interpreter's current stack).
pub fn describe_stray_signal(call_stack: &[String], signal: Signal) -> (r: String)
    ensures
        r@ == stray_signal_text(strings_view(call_stack@), signal),
{
    match signal {
        Signal::Error(m) => m,
        Signal::AssertFail(m) => {
            let mut msg = String::from_str("Assertion failed: ");
            msg.append(m.as_str());
            with_call_stack(call_stack, msg)
        },
        Signal::Return(_) => String::from_str("unexpected return outside a function"),
        Signal::ReRun => String::from_str("unexpected re-run outside a retry block"),
        Signal::Break => String::from_str("unexpected break outside a loop"),
        Signal::Continue => String::from_str("unexpected continue outside a loop"),
        Signal::EscalateToHuman => String::from_str("escalated to human"),
        Signal::Respond(_, _, _) => String::from_str("unexpected respond outside a route handler"),
        Signal::Cancelled(reason) => {
            let mut msg = String::from_str("cancelled: ");
            msg.append(reason.as_str());
            msg
        },
    }
}

/// The error raised when a call would go deeper than `MAX_CALL_DEPTH`.
pub open spec fn depth_exceeded_text() -> Seq<char> {
    "maximum call depth exceeded ("@ + decimal(MAX_CALL_DEPTH as nat)
        + ") — likely infinite or excessively deep recursion"@
}

/// Refuses a call once the call stack holds `depth` frames and
/// `depth >= MAX_CALL_DEPTH`.
pub fn check_recursion_depth(depth: usize) -> (r: Result<(), Signal>)
    ensures
        depth < MAX_CALL_DEPTH ==> r is Ok,
        depth >= MAX_CALL_DEPTH ==> (r matches Err(Signal::Error(m)) && m@ == depth_exceeded_text()),
{
    if depth >= MAX_CALL_DEPTH {
        let mut m = String::from_str("maximum call depth exceeded (");
        push_decimal(&mut m, MAX_CALL_DEPTH);
        m.append(") — likely infinite or excessively deep recursion");
        return Err(Signal::Error(m));
    }
    Ok(())
}

// ── Imports ──────────────────────────────────────────────────────────────────

/// The warning for a flat import that replaces an existing definition.
pub open spec fn import_collision_text(kind: Seq<char>, name: Seq<char>, source_path: Seq<char>) -> Seq<char> {
    "import: "@ + kind + " '"@ + name + "' from '"@ + source_path
        + "' overwrites an existing definition of the same name (last import wins) — rename one of them, or import with `as <alias>`, to avoid relying on this"@
}

/// Whether importing the definition `name` of kind `kind` from
/// `source_path` deserves a warning, and its text: only when a definition
/// of that name already exists (`already_defined`) and it did not come from
/// this same file reached through another import path (`same_file`).
pub fn import_collision_warning(
    kind: &str,
    name: &str,
    source_path: &str,
    already_defined: bool,
    same_file: bool,
) -> (r: Option<String>)
    ensures
        already_defined && !same_file ==> (r matches Some(w) && w@ == import_collision_text(
            kind@,
            name@,
            source_path@,
        )),
        !(already_defined && !same_file) ==> r is None,
{
    if !already_defined || same_file {
        return None;
    }
    let mut w = String::from_str("import: ");
    w.append(kind);
    w.append(" '");
    w.append(name);
    w.append("' from '");
    w.append(source_path);
    w.append(
        "' overwrites an existing definition of the same name (last import wins) — rename one of them, or import with `as <alias>`, to avoid relying on this",
    );
    Some(w)
}

// ── Environment ──────────────────────────────────────────────────────────────

/// The value bound to `k`, or null when nothing is.
pub open spec fn lookup_or_null(es: Seq<(Seq<char>, ValueModel)>, k: Seq<char>) -> ValueModel {
    match assoc_get(es, k) {
        Some(v) => v,
        None => ValueModel::Null,
    }
}

/// The entries of the object bound to `memory`, or none when `memory` is
/// not bound to an object.
pub open spec fn memory_of(es: Seq<(Seq<char>, ValueModel)>) -> Seq<(Seq<char>, ValueModel)> {
    match assoc_get(es, "memory"@) {
        Some(ValueModel::Object(m)) => m,
        _ => Seq::empty(),
    }
}

/// The variables of one scope.
#[derive(Debug)]
pub struct Env {
    vars: ObjectMap,
}

impl Env {
    /// The bindings, in the order they were first made.
    pub closed spec fn model(&self) -> Seq<(Seq<char>, ValueModel)> {
        self.vars.model()
    }

    /// No name is bound twice.
    pub closed spec fn wf(&self) -> bool {
        self.vars.wf()
    }

    pub fn new() -> (r: Env)
        ensures
            r.model() == Seq::<(Seq<char>, ValueModel)>::empty(),
            r.wf(),
    {
        Env { vars: ObjectMap::new() }
    }

    pub fn get(&self, name: &str) -> (r: Value)
        ensures
            r.model() == lookup_or_null(self.model(), name@),
    {
        match self.vars.get(name) {
            Some(v) => v.deep_copy(),
            None => Value::Null,
        }
    }

    pub fn set(&mut self, name: &str, val: Value)
        ensures
            final(self).model() == assoc_set(old(self).model(), name@, val.model()),
            old(self).wf() ==> final(self).wf(),
    {
        self.vars.insert(String::from_str(name), val);
    }

    pub fn get_memory(&self) -> (r: ObjectMap)
        ensures
            r.model() == memory_of(self.model()),
    {
        match self.get("memory") {
            Value::Object(m) => m,
            _ => ObjectMap::new(),
        }
    }

    pub fn set_memory(&mut self, mem: ObjectMap)
        ensures
            final(self).model() == assoc_set(old(self).model(), "memory"@, ValueModel::Object(mem.model())),
            old(self).wf() ==> final(self).wf(),
    {
        self.vars.insert(String::from_str("memory"), Value::Object(mem));
    }

    /// Every variable currently bound in this scope, name to value.
    pub fn all_vars(&self) -> (r: &ObjectMap)
        ensures
            r.model() == self.model(),
    {
        &self.vars
    }
}

impl Default for Env {
    fn default() -> (r: Env)
        ensures
            r.model() == Seq::<(Seq<char>, ValueModel)>::empty(),
    {
        Env::new()
    }
}

impl Clone for Env {
    fn clone(&self) -> (r: Env)
        ensures
            r.model() == self.model(),
    {
        Env { vars: self.vars.deep_copy() }
    }
}

/// Reading a variable after setting it gives the value set.
pub proof fn lemma_env_get_after_set(es: Seq<(Seq<char>, ValueModel)>, name: Seq<char>, v: ValueModel)
    ensures
        lookup_or_null(assoc_set(es, name, v), name) == v,
{
    lemma_assoc_get_set_same(es, name, v);
}

/// Setting a variable leaves every other variable as it was.
pub proof fn lemma_env_set_keeps_others(
    es: Seq<(Seq<char>, ValueModel)>,
    name: Seq<char>,
    v: ValueModel,
    other: Seq<char>,
)
    requires
        other != name,
    ensures
        lookup_or_null(assoc_set(es, name, v), other) == lookup_or_null(es, other),
{
    lemma_assoc_get_set_other(es, name, v, other);
}

/// A fresh environment reads every variable as null.
pub proof fn lemma_env_new_reads_null(name: Seq<char>)
    ensures
        lookup_or_null(Seq::<(Seq<char>, ValueModel)>::empty(), name) == ValueModel::Null,
{
    crate::value::lemma_key_index(Seq::<(Seq<char>, ValueModel)>::empty(), name);
}

/// The memory read back after setting it is the memory set.
pub proof fn lemma_memory_round_trip(es: Seq<(Seq<char>, ValueModel)>, mem: Seq<(Seq<char>, ValueModel)>)
    ensures
        memory_of(assoc_set(es, "memory"@, ValueModel::Object(mem))) == mem,
{
    lemma_assoc_get_set_same(es, "memory"@, ValueModel::Object(mem));
}

// ── Call stacks ──────────────────────────────────────────────────────────────

/// The parts joined with `sep` between consecutive parts.
pub open spec fn join(parts: Seq<Seq<char>>, sep: Seq<char>) -> Seq<char>
    decreases parts.len(),
{
    if parts.len() == 0 {
        Seq::empty()
    } else if parts.len() == 1 {
        parts[0]
    } else {
        join(parts.drop_last(), sep) + sep + parts.last()
    }
}

pub open spec fn strings_view(fs: Seq<String>) -> Seq<Seq<char>> {
    fs.map_values(|s: String| s@)
}

/// A call-stack trace for display: all frames joined by arrows, or for a
/// trace longer than the display limit, the first and last ten frames
/// around a count of the frames left out.
pub open spec fn call_stack_text(fs: Seq<Seq<char>>) -> Seq<char> {
    if fs.len() <= 20 {
        join(fs, " → "@)
    } else {
        join(fs.take(10), " → "@) + " → ... ("@ + decimal((fs.len() - 20) as nat)
            + " more frames omitted) ... → "@ + join(fs.skip(fs.len() - 10), " → "@)
    }
}

/// `frames[from..to]` joined with `sep`.
pub(crate) fn join_range(frames: &[String], from: usize, to: usize, sep: &str) -> (r: String)
    requires
        from <= to <= frames@.len(),
    ensures
        r@ == join(strings_view(frames@).subrange(from as int, to as int), sep@),
{
    let ghost sv = strings_view(frames@);
    let mut r = String::new();
    let mut i: usize = from;
    assert(sv.subrange(from as int, from as int) =~= Seq::<Seq<char>>::empty());
    while i < to
        invariant
            from <= i <= to <= frames@.len(),
            sv == strings_view(frames@),
            r@ == join(sv.subrange(from as int, i as int), sep@),
        decreases to - i,
    {
        let ghost before = sv.subrange(from as int, i as int);
        let ghost after = sv.subrange(from as int, i + 1);
        assert(after.drop_last() =~= before);
        if i != from {
            r.append(sep);
        }
        r.append(frames[i].as_str());
        i = i + 1;
    }
    r
}

pub fn format_call_stack(frames: &[String]) -> (r: String)
    ensures
        r@ == call_stack_text(strings_view(frames@)),
{
    let ghost sv = strings_view(frames@);
    let n = frames.len();
    if n <= CALL_STACK_DISPLAY_LIMIT {
        assert(sv.subrange(0, n as int) =~= sv);
        return join_range(frames, 0, n, " → ");
    }
    let mut r = join_range(frames, 0, 10, " → ");
    r.append(" → ... (");
    push_decimal(&mut r, n - 20);
    r.append(" more frames omitted) ... → ");
    let tail = join_range(frames, n - 10, n, " → ");
    r.append(tail.as_str());
    assert(sv.subrange(0, 10) =~= sv.take(10));
    assert(sv.subrange(n - 10, n as int) =~= sv.skip(n - 10));
    r
}

// ── Arrays ───────────────────────────────────────────────────────────────────

/// Whether every value is a string.
pub open spec fn all_strings(vs: Seq<ValueModel>) -> bool {
    forall|i: int| 0 <= i < vs.len() ==> #[trigger] vs[i] is Str
}

/// The texts of string values (the empty text for any other value).
pub open spec fn value_texts(vs: Seq<ValueModel>) -> Seq<Seq<char>> {
    vs.map_values(|v: ValueModel| match v {
        ValueModel::Str(s) => s,
        _ => Seq::<char>::empty(),
    })
}

/// Applies `.push(v)`/`.append(v)`/`.reverse()`/`.sort()` directly to an
/// array. `.sort()` orders strings by their text; an array holding any
/// other value is left as it is and `false` is returned, for the caller
/// to sort (numbers compare as floating-point values, which this library
/// does not compute with). Every other call is applied and returns `true`.
pub fn mutate_array_in_place(arr: &mut Vec<Value>, method: &str, args: Vec<Value>) -> (applied: bool)
    requires
        method@ == "push"@ || method@ == "append"@ || method@ == "reverse"@ || method@ == "sort"@,
    ensures
        (method@ == "push"@ || method@ == "append"@) ==> applied && final(arr)@ == old(arr)@ + args@,
        method@ == "reverse"@ ==> applied && final(arr)@ == old(arr)@.reverse(),
        method@ == "sort"@ && all_strings(values_model(old(arr)@)) ==> applied && values_model(
            final(arr)@,
        ) == crate::interpreter::builtins::str_values(
            crate::interpreter::builtins::sort_texts(value_texts(values_model(old(arr)@))),
        ),
        method@ == "sort"@ && !all_strings(values_model(old(arr)@)) ==> !applied && final(arr)@
            == old(arr)@,
{
    proof {
        reveal_strlit("push");
        reveal_strlit("append");
        reveal_strlit("reverse");
        reveal_strlit("sort");
        assert("push"@.len() == 4 && "append"@.len() == 6 && "reverse"@.len() == 7 && "sort"@.len() == 4);
        assert("push"@[0] == 'p' && "sort"@[0] == 's');
        assert("push"@ != "reverse"@ && "push"@ != "sort"@ && "append"@ != "reverse"@);
        assert("append"@ != "sort"@ && "reverse"@ != "sort"@);
    }
    if crate::text::str_eq(method, "push") || crate::text::str_eq(method, "append") {
        let mut args = args;
        arr.append(&mut args);
        true
    } else if crate::text::str_eq(method, "reverse") {
        let ghost orig = arr@;
        let mut out: Vec<Value> = Vec::new();
        while arr.len() > 0
            invariant
                arr@ == orig.subrange(0, arr@.len() as int),
                out@ == orig.subrange(arr@.len() as int, orig.len() as int).reverse(),
                arr@.len() <= orig.len(),
            decreases arr@.len(),
        {
            let ghost k = arr@.len() as int;
            let x = arr.pop().unwrap();
            out.push(x);
            assert(arr@ =~= orig.subrange(0, k - 1));
            assert(out@ =~= orig.subrange(k - 1, orig.len() as int).reverse());
        }
        assert(orig.subrange(0, orig.len() as int) =~= orig);
        *arr = out;
        true
    } else {
        sort_strings_in_place(arr)
    }
}

/// Sorts an array of strings by text; leaves any other array as it is and
/// says whether it sorted.
pub(crate) fn sort_strings_in_place(arr: &mut Vec<Value>) -> (sorted: bool)
    ensures
        sorted == all_strings(values_model(old(arr)@)),
        sorted ==> values_model(final(arr)@) == crate::interpreter::builtins::str_values(
            crate::interpreter::builtins::sort_texts(value_texts(values_model(old(arr)@))),
        ),
        !sorted ==> final(arr)@ == old(arr)@,
{
    let ghost vm = values_model(arr@);
    let mut texts: Vec<Vec<char>> = Vec::new();
    let mut i: usize = 0;
    while i < arr.len()
        invariant
            i <= arr@.len(),
            vm == values_model(arr@),
            all_strings(vm.take(i as int)),
            texts@.map_values(|k: Vec<char>| k@) == value_texts(vm).take(i as int),
        decreases arr@.len() - i,
    {
        match &arr[i] {
            Value::Str(s) => {
                let c = chars_of(s.as_str());
                let ghost before = texts@;
                texts.push(c);
                assert(texts@.map_values(|k: Vec<char>| k@) =~= before.map_values(|k: Vec<char>| k@).push(c@));
                assert(value_texts(vm).take(i + 1) =~= value_texts(vm).take(i as int).push(c@));
                assert forall|j: int| 0 <= j < i + 1 implies #[trigger] vm.take(i + 1)[j] is Str by {
                    if j < i {
                        assert(vm.take(i + 1)[j] == vm.take(i as int)[j]);
                    }
                }
            },
            _ => {
                assert(!(vm[i as int] is Str));
                assert(!all_strings(vm));
                return false;
            },
        }
        i = i + 1;
    }
    assert(vm.take(arr@.len() as int) =~= vm);
    assert(value_texts(vm).take(arr@.len() as int) =~= value_texts(vm));
    let sorted = crate::interpreter::builtins::sorted_texts(&texts);
    let ghost sv = sorted@.map_values(|k: Vec<char>| k@);
    let mut out: Vec<Value> = Vec::new();
    let mut j: usize = 0;
    while j < sorted.len()
        invariant
            j <= sorted@.len(),
            sv == sorted@.map_values(|k: Vec<char>| k@),
            values_model(out@) == crate::interpreter::builtins::str_values(sv).take(j as int),
        decreases sorted@.len() - j,
    {
        let v = crate::interpreter::builtins::str_value(&sorted[j]);
        let ghost mid = out@;
        out.push(v);
        assert(values_model(out@) =~= values_model(mid).push(v.model()));
        j = j + 1;
        assert(values_model(out@) =~= crate::interpreter::builtins::str_values(sv).take(j as int));
    }
    assert(crate::interpreter::builtins::str_values(sv).take(sorted@.len() as int)
        =~= crate::interpreter::builtins::str_values(sv));
    *arr = out;
    true
}

/// Reversing an array in place twice gives back the array.
pub proof fn lemma_reverse_twice(vs: Seq<Value>)
    ensures
        vs.reverse().reverse() == vs,
{
    assert(vs.reverse().reverse() =~= vs);
}

// ── Database parameters ──────────────────────────────────────────────────────

pub open spec fn values_model(vs: Seq<Value>) -> Seq<ValueModel> {
    vs.map_values(|v: Value| v.model())
}

/// The parameters of a `db_*` call from argument `start` on: the rest of
/// the arguments, except that a single array argument is the parameter
/// list itself.
pub open spec fn unpack_params(args: Seq<ValueModel>, start: int) -> Seq<ValueModel> {
    let from = if start < args.len() { start } else { args.len() as int };
    let rest = args.subrange(from, args.len() as int);
    if rest.len() == 1 && rest[0] is Array {
        rest[0]->Array_0
    } else {
        rest
    }
}

fn copy_values(vs: &[Value], from: usize) -> (r: Vec<Value>)
    requires
        from <= vs@.len(),
    ensures
        values_model(r@) == values_model(vs@).subrange(from as int, vs@.len() as int),
{
    let mut out: Vec<Value> = Vec::new();
    let mut i: usize = from;
    while i < vs.len()
        invariant
            from <= i <= vs@.len(),
            values_model(out@) == values_model(vs@).subrange(from as int, i as int),
        decreases vs@.len() - i,
    {
        let c = vs[i].deep_copy();
        let ghost before = out@;
        out.push(c);
        assert(values_model(out@) =~= values_model(before).push(c.model()));
        assert(values_model(vs@).subrange(from as int, i + 1) =~= values_model(vs@).subrange(
            from as int,
            i as int,
        ).push(vs@[i as int].model()));
        i = i + 1;
    }
    out
}

pub fn db_unpack_params(args: &[Value], start: usize) -> (r: Vec<Value>)
    ensures
        values_model(r@) == unpack_params(values_model(args@), start as int),
{
    let from = if start < args.len() { start } else { args.len() };
    let rest = copy_values(args, from);
    if rest.len() == 1 {
        match &rest[0] {
            Value::Array(items) => {
                let r = copy_values(items.as_slice(), 0);
                assert(values_model(items@).subrange(0, items@.len() as int) =~= values_model(items@));
                assert(rest@[0].model()->Array_0 =~= values_model(items@));
                return r;
            },
            _ => {},
        }
    }
    rest
}

// ── Suggestions ──────────────────────────────────────────────────────────────

pub open spec fn min3(a: nat, b: nat, c: nat) -> nat {
    if a <= b && a <= c {
        a
    } else if b <= c {
        b
    } else {
        c
    }
}

/// The Levenshtein edit distance: the fewest single-character insertions,
/// deletions and substitutions that turn `a` into `b`.
pub open spec fn edit_distance(a: Seq<char>, b: Seq<char>) -> nat
    decreases a.len() + b.len(),
{
    if a.len() == 0 {
        b.len()
    } else if b.len() == 0 {
        a.len()
    } else {
        min3(
            edit_distance(a.drop_last(), b) + 1,
            edit_distance(a, b.drop_last()) + 1,
            edit_distance(a.drop_last(), b.drop_last()) + if a.last() == b.last() {
                0nat
            } else {
                1nat
            },
        )
    }
}

pub proof fn lemma_edit_distance_upper(a: Seq<char>, b: Seq<char>)
    ensures
        edit_distance(a, b) <= if a.len() >= b.len() { a.len() } else { b.len() },
    decreases a.len() + b.len(),
{
    if a.len() > 0 && b.len() > 0 {
        lemma_edit_distance_upper(a.drop_last(), b.drop_last());
    }
}

pub proof fn lemma_edit_distance_lower(a: Seq<char>, b: Seq<char>)
    ensures
        edit_distance(a, b) >= if a.len() >= b.len() { a.len() - b.len() } else { b.len() - a.len() },
    decreases a.len() + b.len(),
{
    if a.len() > 0 && b.len() > 0 {
        lemma_edit_distance_lower(a.drop_last(), b);
        lemma_edit_distance_lower(a, b.drop_last());
        lemma_edit_distance_lower(a.drop_last(), b.drop_last());
    }
}

/// The edit distance is symmetric.
pub proof fn lemma_edit_distance_symmetric(a: Seq<char>, b: Seq<char>)
    ensures
        edit_distance(a, b) == edit_distance(b, a),
    decreases a.len() + b.len(),
{
    if a.len() > 0 && b.len() > 0 {
        lemma_edit_distance_symmetric(a.drop_last(), b);
        lemma_edit_distance_symmetric(a, b.drop_last());
        lemma_edit_distance_symmetric(a.drop_last(), b.drop_last());
    }
}

/// Two strings are at distance zero exactly when they are equal.
pub proof fn lemma_edit_distance_zero_iff_equal(a: Seq<char>, b: Seq<char>)
    ensures
        edit_distance(a, b) == 0 <==> a == b,
    decreases a.len() + b.len(),
{
    if a.len() > 0 && b.len() > 0 {
        lemma_edit_distance_zero_iff_equal(a.drop_last(), b.drop_last());
        if edit_distance(a, b) == 0 {
            assert(a =~= a.drop_last().push(a.last()));
            assert(b =~= b.drop_last().push(b.last()));
        }
        if a == b {
            assert(a.drop_last() == b.drop_last());
        }
    } else if a.len() == 0 && b.len() == 0 {
        assert(a =~= b);
    }
}

fn min_usize(a: usize, b: usize) -> (r: usize)
    ensures
        r == if a <= b { a } else { b },
{
    if a <= b {
        a
    } else {
        b
    }
}

/// Standard Levenshtein edit distance.
pub fn levenshtein(a: &str, b: &str) -> (d: usize)
    ensures
        d == edit_distance(a@, b@),
{
    let a = chars_of(a);
    let b = chars_of(b);
    let ghost sa = a@;
    let ghost sb = b@;
    let lb = b.len();
    let mut prev: Vec<usize> = Vec::new();
    let mut j: usize = 0;
    while j <= lb
        invariant
            j <= lb + 1,
            lb == sb.len(),
            sb.len() <= isize::MAX,
            prev@.len() == j,
            forall|k: int| 0 <= k < j ==> prev@[k] == edit_distance(sa.subrange(0, 0), #[trigger] sb.subrange(0, k)),
        decreases lb + 1 - j,
    {
        proof {
            assert(sa.subrange(0, 0).len() == 0);
        }
        prev.push(j);
        j = j + 1;
    }
    let mut curr: Vec<usize> = Vec::new();
    let mut k: usize = 0;
    while k <= lb
        invariant
            k <= lb + 1,
            lb == sb.len(),
            sb.len() <= isize::MAX,
            curr@.len() == k,
        decreases lb + 1 - k,
    {
        curr.push(0);
        k = k + 1;
    }
    let la = a.len();
    let mut i: usize = 0;
    while i < la
        invariant
            i <= la,
            la == sa.len(),
            lb == sb.len(),
            sa.len() <= isize::MAX,
            sb.len() <= isize::MAX,
            a@ == sa,
            b@ == sb,
            prev@.len() == lb + 1,
            curr@.len() == lb + 1,
            forall|k: int| 0 <= k <= lb ==> prev@[k] == edit_distance(sa.subrange(0, i as int), #[trigger] sb.subrange(0, k)),
        decreases la - i,
    {
        let ghost ai = sa.subrange(0, i as int);
        let ghost ai1 = sa.subrange(0, i + 1);
        assert(ai1.drop_last() =~= ai);
        assert(ai1.last() == sa[i as int]);
        proof {
            assert(sb.subrange(0, 0).len() == 0);
        }
        curr.set(0, i + 1);
        let ca = a[i];
        let mut j: usize = 0;
        while j < lb
            invariant
                i < la,
                j <= lb,
                la == sa.len(),
                lb == sb.len(),
                sa.len() <= isize::MAX,
                sb.len() <= isize::MAX,
                a@ == sa,
                b@ == sb,
                ca == sa[i as int],
                ai == sa.subrange(0, i as int),
                ai1 == sa.subrange(0, i + 1),
                ai1.drop_last() == ai,
                ai1.last() == ca,
                prev@.len() == lb + 1,
                curr@.len() == lb + 1,
                forall|k: int| 0 <= k <= lb ==> prev@[k] == edit_distance(ai, #[trigger] sb.subrange(0, k)),
                forall|k: int| 0 <= k <= j ==> curr@[k] == edit_distance(ai1, #[trigger] sb.subrange(0, k)),
            decreases lb - j,
        {
            let ghost bj = sb.subrange(0, j as int);
            let ghost bj1 = sb.subrange(0, j + 1);
            assert(bj1.drop_last() =~= bj);
            assert(bj1.last() == sb[j as int]);
            let cb = b[j];
            let cost: usize = if ca == cb { 0 } else { 1 };
            proof {
                lemma_edit_distance_upper(ai, bj1);
                lemma_edit_distance_upper(ai1, bj);
                lemma_edit_distance_upper(ai, bj);
                assert(prev@[j + 1] == edit_distance(ai, bj1));
                assert(curr@[j as int] == edit_distance(ai1, bj));
                assert(prev@[j as int] == edit_distance(ai, bj));
            }
            let v = min_usize(min_usize(prev[j + 1] + 1, curr[j] + 1), prev[j] + cost);
            curr.set(j + 1, v);
            proof {
                assert(edit_distance(ai1, bj1) == min3(
                    edit_distance(ai, bj1) + 1,
                    edit_distance(ai1, bj) + 1,
                    edit_distance(ai, bj) + if ca == sb[j as int] { 0nat } else { 1nat },
                ));
                assert(curr@[j + 1] == edit_distance(ai1, bj1));
            }
            j = j + 1;
        }
        std::mem::swap(&mut prev, &mut curr);
        i = i + 1;
    }
    assert(sa.subrange(0, la as int) =~= sa);
    assert(sb.subrange(0, lb as int) =~= sb);
    prev[lb]
}

/// The names offered as "did you mean" suggestions on unknown calls.
pub const KNOWN_BUILTINS: [&'static str; 159] = [
    "log", "print", "say", "write", "truncate", "token_count", "tokens_used", "context_create",
    "context_set_system", "context_add_message", "context_add_tool_result", "context_trim",
    "context_summarize_and_trim", "context_clone", "context_reset", "context_serialize",
    "context_deserialize", "context_stats", "context_ask", "path_join", "dirname", "basename",
    "extname", "map", "filter", "reduce", "some", "every", "find_index", "group_by",
    "url_parse", "sha256", "uuid", "glob", "hmac_sha256", "hmac_sha512", "secure_compare",
    "secure_random", "ed25519_generate_keypair", "ed25519_sign", "ed25519_verify", "jwt_sign",
    "jwt_verify", "process_run", "process_spawn", "process_wait", "process_kill",
    "process_exists", "process_status", "process_read", "task_spawn", "task_wait",
    "task_wait_all", "task_wait_any", "task_cancel", "task_status", "task_id", "is_cancelled",
    "readline", "read_all", "is_tty", "slice", "merge", "len", "range", "to_string",
    "to_number", "type_of", "is_null", "abs", "floor", "ceil", "round", "sqrt", "pow", "min",
    "max", "random", "json_stringify", "json_parse", "http_get", "http_post", "http_put",
    "http_delete", "read_file", "write_file", "delete_file", "file_exists", "list_dir",
    "make_dir", "regex_test", "regex_find", "regex_find_all", "regex_replace", "regex_split",
    "regex_captures", "date_now", "date_parse", "date_format", "date_diff", "date_add",
    "date_parts", "csv_parse", "csv_stringify", "yaml_parse", "yaml_stringify", "toml_parse",
    "toml_stringify", "xml_parse", "xml_stringify", "load_env", "get_env", "set_env", "retry",
    "vector_store_new", "vector_store_add", "vector_store_search", "cosine_similarity",
    "schema_validate", "persist_memory", "load_memory", "trace_log", "log_debug", "log_info",
    "log_warn", "log_error", "trace_id", "span_id", "has_capability", "unwrap", "base64_encode",
    "base64_decode", "embed", "sleep", "now", "now_ms", "get_timestamp", "random_int",
    "random_choice", "shuffle", "pick", "omit", "breakpoint", "test", "before_each",
    "after_each", "set_random_seed", "test_temp_dir", "assert_golden", "config_load",
    "jsonl_parse", "jsonl_stringify", "versioned_stringify", "versioned_parse", "data_import",
    "data_export", "render_template", "task_emit", "task_progress",
];

pub open spec fn builtin_names() -> Seq<Seq<char>> {
    KNOWN_BUILTINS@.map_values(|s: &str| s@)
}

/// Candidate `i` is the suggestion for `name`: within distance 2, no
/// candidate is closer, and no earlier candidate is as close.
pub open spec fn is_closest(name: Seq<char>, cands: Seq<Seq<char>>, i: int) -> bool {
    &&& 0 <= i < cands.len()
    &&& edit_distance(name, cands[i]) <= 2
    &&& forall|j: int| 0 <= j < cands.len() ==> edit_distance(name, #[trigger] cands[j]) >= edit_distance(name, cands[i])
    &&& forall|j: int| 0 <= j < i ==> edit_distance(name, #[trigger] cands[j]) > edit_distance(name, cands[i])
}

/// Returns the closest known builtin within edit distance 2, if any; among
/// equally close ones, the first in `KNOWN_BUILTINS`.
pub fn closest_builtin(name: &str) -> (r: Option<&'static str>)
    ensures
        match r {
            Some(c) => exists|i: int| is_closest(name@, builtin_names(), i) && c@ == builtin_names()[i],
            None => forall|j: int| 0 <= j < builtin_names().len() ==> edit_distance(name@, #[trigger] builtin_names()[j]) > 2,
        },
{
    let ghost cands = builtin_names();
    let mut best: Option<(&'static str, usize)> = None;
    let ghost mut best_i: int = 0;
    let n = KNOWN_BUILTINS.len();
    let mut idx: usize = 0;
    while idx < n
        invariant
            n == KNOWN_BUILTINS@.len(),
            cands == builtin_names(),
            idx <= n,
            match best {
                None => forall|j: int| 0 <= j < idx ==> edit_distance(name@, #[trigger] cands[j]) > 2,
                Some((c, d)) => {
                    &&& 0 <= best_i < idx
                    &&& c@ == cands[best_i]
                    &&& d == edit_distance(name@, cands[best_i])
                    &&& d <= 2
                    &&& forall|j: int| 0 <= j < idx ==> edit_distance(name@, #[trigger] cands[j]) >= d
                    &&& forall|j: int| 0 <= j < best_i ==> edit_distance(name@, #[trigger] cands[j]) > d
                },
            },
        decreases n - idx,
    {
        let candidate = KNOWN_BUILTINS[idx];
        let d = levenshtein(name, candidate);
        assert(cands[idx as int] == candidate@);
        let better = match best {
            None => d <= 2,
            Some((_, bd)) => d <= 2 && d < bd,
        };
        if better {
            best = Some((candidate, d));
            proof {
                best_i = idx as int;
            }
        }
        idx = idx + 1;
    }
    match best {
        Some((c, _)) => {
            assert(is_closest(name@, cands, best_i));
            Some(c)
        },
        None => None,
    }
}

// ── Random numbers ───────────────────────────────────────────────────────────

pub const LCG_MULTIPLIER: u64 = 6364136223846793005;

pub const LCG_INCREMENT: u64 = 1442695040888963407;

/// One step of the linear congruential generator, modulo 2^64.
pub open spec fn lcg_next(s: u64) -> u64 {
    ((s as nat * LCG_MULTIPLIER as nat + LCG_INCREMENT as nat) % 0x1_0000_0000_0000_0000) as u64
}

/// The denominator that turns a step's result into a value in `[0, 1)`.
pub const LCG_UNIT_DENOMINATOR: u64 = 0x8000_0000;

/// Advances `state` one generator step and returns its top 31 bits, the
/// numerator of the `[0, 1)` value `r / LCG_UNIT_DENOMINATOR` (`2^31`).
pub fn lcg_step(state: &mut u64) -> (r: u64)
    ensures
        *final(state) == lcg_next(*old(state)),
        r == *final(state) >> 33,
        r < LCG_UNIT_DENOMINATOR,
{
    let s = *state;
    let m = s.wrapping_mul(LCG_MULTIPLIER);
    let next = m.wrapping_add(LCG_INCREMENT);
    proof {
        let x = s as nat * LCG_MULTIPLIER as nat;
        let big: nat = 0x1_0000_0000_0000_0000;
        assert(m as nat == x % big);
        vstd::arithmetic::div_mod::lemma_add_mod_noop(x as int, LCG_INCREMENT as int, big as int);
        vstd::arithmetic::div_mod::lemma_small_mod(LCG_INCREMENT as nat, big);
        vstd::arithmetic::div_mod::lemma_mod_bound(x as int, big as int);
        let y: int = m as int + LCG_INCREMENT as int;
        if y >= big {
            assert(y % (big as int) == y - big) by (nonlinear_arith)
                requires
                    big <= y < 2 * big,
                    big == 0x1_0000_0000_0000_0000int,
            {
                vstd::arithmetic::div_mod::lemma_fundamental_div_mod(y, big as int);
            }
        } else {
            vstd::arithmetic::div_mod::lemma_small_mod(y as nat, big);
        }
    }
    *state = next;
    assert(next >> 33 < 0x8000_0000u64) by (bit_vector);
    next >> 33
}

/// The unit values reach the upper half of `[0, 1)`: some state steps to a
/// numerator of at least half the denominator (so `random_int(lo, hi)` can
/// return `hi`).
pub proof fn lemma_unit_values_reach_the_upper_half()
    ensures
        exists|s: u64| #[trigger] (lcg_next(s) >> 33) >= LCG_UNIT_DENOMINATOR / 2,
{
    let s: u64 = 1843579416325869589;
    assert((1843579416325869589nat * 6364136223846793005nat + 1442695040888963407nat)
        % 0x1_0000_0000_0000_0000nat == 0x8000_0000_0000_0000nat) by (nonlinear_arith);
    assert(lcg_next(s) == 0x8000_0000_0000_0000u64);
    assert(0x8000_0000_0000_0000u64 >> 33 == 0x4000_0000u64) by (bit_vector);
}

} // verus!
