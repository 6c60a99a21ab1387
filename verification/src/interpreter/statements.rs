//! The decisions the statement runner makes between evaluations: refusing
//! an import cycle, catching a failure in `try`/`catch`, keeping the tally
//! of assertions, and bounding `while` loops. The caller evaluates
//! expressions and runs bodies; each function here takes what came of that
//! and says what happens next.
use vstd::prelude::*;
use crate::interpreter::{join, join_range, strings_view, Signal};
use crate::interpreter::util::{error_kind_of, infer_error_kind};
use crate::text::{decimal, push_decimal, spec_to_lowercase, str_eq};
use crate::value::{ObjectMap, Value, ValueModel};

verus! {

// ── Import cycles ────────────────────────────────────────────────────────────

/// `i` is the first position of `x` in `s`.
pub open spec fn is_first_at(s: Seq<Seq<char>>, x: Seq<char>, i: int) -> bool {
    &&& 0 <= i < s.len()
    &&& s[i] == x
    &&& forall|j: int| 0 <= j < i ==> #[trigger] s[j] != x
}

/// The first position of `x` in `s` (meaningful when `s` contains `x`).
pub open spec fn first_at(s: Seq<Seq<char>>, x: Seq<char>) -> int {
    choose|i: int| is_first_at(s, x, i)
}

/// The error for importing `next` at line `line` while the files in
/// `resolving` (outermost first) are being resolved and `next` is one of
/// them: the chain from the first occurrence of `next` back round to it.
pub open spec fn import_cycle_text(resolving: Seq<Seq<char>>, next: Seq<char>, line: nat) -> Seq<
    char,
> {
    "Line "@ + decimal(line) + ": import cycle detected: "@ + join(
        resolving.skip(first_at(resolving, next)).push(next),
        " -> "@,
    )
}

/// Refuses to import the file `next` (its canonical path, as text) at
/// line `line` when it is already on the chain `resolving` of files being
/// resolved, outermost first.
pub fn check_import(resolving: &[String], next: &str, line: usize) -> (r: Result<(), String>)
    ensures
        match r {
            Ok(()) => !strings_view(resolving@).contains(next@),
            Err(m) => strings_view(resolving@).contains(next@) && m@ == import_cycle_text(
                strings_view(resolving@),
                next@,
                line as nat,
            ),
        },
{
    let ghost sv = strings_view(resolving@);
    let n = resolving.len();
    let mut i: usize = 0;
    while i < n
        invariant
            i <= n == resolving@.len(),
            sv == strings_view(resolving@),
            forall|j: int| 0 <= j < i ==> #[trigger] sv[j] != next@,
        decreases n - i,
    {
        if str_eq(resolving[i].as_str(), next) {
            proof {
                assert(is_first_at(sv, next@, i as int));
                let c = first_at(sv, next@);
                assert(is_first_at(sv, next@, c));
                if c < i {
                    assert(sv[c] != next@);
                } else if c > i {
                    assert(sv[i as int] != next@);
                }
                assert(c == i);
            }
            let mut m = String::from_str("Line ");
            push_decimal(&mut m, line);
            m.append(": import cycle detected: ");
            let chain = join_range(resolving, i, n, " -> ");
            m.append(chain.as_str());
            m.append(" -> ");
            m.append(next);
            proof {
                let tail = sv.skip(i as int);
                assert(sv.subrange(i as int, n as int) =~= tail);
                assert(tail.push(next@).drop_last() =~= tail);
                assert(tail.push(next@).len() >= 2);
                assert(sv.contains(next@)) by {
                    assert(sv[i as int] == next@);
                }
            }
            return Err(m);
        }
        i = i + 1;
    }
    proof {
        assert(!sv.contains(next@)) by {
            if sv.contains(next@) {
                let w = choose|j: int| 0 <= j < sv.len() && sv[j] == next@;
                assert(sv[w] != next@);
            }
        }
    }
    Ok(())
}

// ── try / catch ──────────────────────────────────────────────────────────────

/// The message and kind of a signal that `catch` can handle: an error, of
/// the kind its message suggests, or a failed assertion, of kind
/// `AssertionError`; `None` for every other signal.
pub open spec fn catchable(signal: Signal) -> Option<(Seq<char>, Seq<char>)> {
    match signal {
        Signal::Error(m) => Some((m@, error_kind_of(spec_to_lowercase(m@)))),
        Signal::AssertFail(m) => Some((m@, "AssertionError"@)),
        _ => None,
    }
}

/// The error object bound to the catch variable.
pub open spec fn error_object(msg: Seq<char>, kind: Seq<char>) -> ValueModel {
    ValueModel::Object(
        seq![("message"@, ValueModel::Str(msg)), ("kind"@, ValueModel::Str(kind)), ("code"@, ValueModel::Null)],
    )
}

/// What a `try` block that ended with `signal` leads to, given the kind the
/// `catch` clause names, if any: `Ok(e)` to bind the error object `e` and
/// run the catch body; `Err(s)` to pass `s` on. A failure of another kind
/// than the one named is passed on as a plain error with its message.
pub fn catch_signal(signal: Signal, catch_kind: Option<&str>) -> (r: Result<Value, Signal>)
    ensures
        match catchable(signal) {
            None => r == Err::<Value, Signal>(signal),
            Some((msg, kind)) => match catch_kind {
                Some(k) if k@ != kind => r matches Err(Signal::Error(m)) && m@ == msg,
                _ => r matches Ok(e) && e.model() == error_object(msg, kind),
            },
        },
{
    let (msg, kind): (String, &str) = match signal {
        Signal::AssertFail(m) => (m, "AssertionError"),
        Signal::Error(m) => {
            let k = infer_error_kind(m.as_str());
            (m, k)
        },
        other => {
            return Err(other);
        },
    };
    if let Some(required) = catch_kind {
        if !str_eq(required, kind) {
            return Err(Signal::Error(msg));
        }
    }
    let ghost mv = msg@;
    let ghost kv = kind@;
    let mut obj = ObjectMap::new();
    obj.insert(String::from_str("message"), Value::Str(msg));
    let ghost m1 = obj.model();
    obj.insert(String::from_str("kind"), Value::Str(String::from_str(kind)));
    let ghost m2 = obj.model();
    obj.insert(String::from_str("code"), Value::Null);
    proof {
        reveal_strlit("message");
        reveal_strlit("kind");
        reveal_strlit("code");
        crate::value::lemma_assoc_set_fresh(Seq::empty(), "message"@, ValueModel::Str(mv));
        assert(m1 =~= seq![("message"@, ValueModel::Str(mv))]);
        assert("message"@ != "kind"@) by {
            assert("message"@.len() != "kind"@.len());
        }
        assert(m1[0].0 != "kind"@);
        crate::value::lemma_assoc_set_fresh(m1, "kind"@, ValueModel::Str(kv));
        assert(m2 =~= seq![("message"@, ValueModel::Str(mv)), ("kind"@, ValueModel::Str(kv))]);
        assert("message"@ != "code"@) by {
            assert("message"@.len() != "code"@.len());
        }
        assert("kind"@ != "code"@) by {
            assert("kind"@[0] != "code"@[0]);
        }
        assert(m2[0].0 != "code"@ && m2[1].0 != "code"@);
        crate::value::lemma_assoc_set_fresh(m2, "code"@, ValueModel::Null);
        assert(obj.model() =~= seq![
            ("message"@, ValueModel::Str(mv)),
            ("kind"@, ValueModel::Str(kv)),
            ("code"@, ValueModel::Null),
        ]);
    }
    let r = Value::Object(obj);
    Ok(r)
}

// ── Assertions ───────────────────────────────────────────────────────────────

/// How many assertions ran, and the messages of those that failed, in
/// order.
pub struct AssertTally {
    pub count: usize,
    pub failures: Vec<String>,
}

/// The message of a failed assertion: its own message, or one naming its
/// line.
pub open spec fn failure_text(message: Option<Seq<char>>, line: nat) -> Seq<char> {
    match message {
        Some(m) => m,
        None => "assertion at line "@ + decimal(line) + " failed"@,
    }
}

impl AssertTally {
    pub fn new() -> (r: AssertTally)
        ensures
            r.count == 0,
            r.failures@.len() == 0,
    {
        AssertTally { count: 0, failures: Vec::new() }
    }

    /// Counts an assertion that is about to be checked (before its
    /// condition is evaluated, so one whose condition fails to evaluate is
    /// counted too).
    pub fn begin(&mut self)
        requires
            old(self).count < usize::MAX,
        ensures
            final(self).count == old(self).count + 1,
            final(self).failures@ == old(self).failures@,
    {
        self.count = self.count + 1;
    }

    /// Settles an assertion whose condition came out `passed`: a failure
    /// adds its message (`message`, already rendered, or one naming
    /// `line`) to the failures and raises it.
    pub fn settle(&mut self, passed: bool, message: Option<String>, line: usize) -> (r: Result<(), Signal>)
        ensures
            final(self).count == old(self).count,
            passed ==> r is Ok && final(self).failures@ == old(self).failures@,
            !passed ==> {
                let t = failure_text(
                    match message {
                        Some(m) => Some(m@),
                        None => None,
                    },
                    line as nat,
                );
                &&& r matches Err(Signal::AssertFail(m)) && m@ == t
                &&& final(self).failures@.len() == old(self).failures@.len() + 1
                &&& final(self).failures@.drop_last() == old(self).failures@
                &&& final(self).failures@.last()@ == t
            },
    {
        if passed {
            return Ok(());
        }
        let msg = match message {
            Some(m) => m,
            None => {
                let mut m = String::from_str("assertion at line ");
                push_decimal(&mut m, line);
                m.append(" failed");
                m
            },
        };
        let copy = msg.clone();
        self.failures.push(copy);
        assert(self.failures@.drop_last() =~= old(self).failures@);
        Err(Signal::AssertFail(msg))
    }
}

// ── Loops ────────────────────────────────────────────────────────────────────

/// Iterations a `while` loop may run before it is stopped.
pub const MAX_WHILE_ITERATIONS: usize = 10_000_000;

/// The error raised by a `while` loop that reached its limit.
pub open spec fn while_limit_text() -> Seq<char> {
    "while loop exceeded 10,000,000 iterations. If this is an intentional infinite loop (e.g. a REPL using readline()), run with: gx run --no-limit"@
}

/// The iteration limit of `while` loops: none worth the name when the
/// limit is switched off.
pub fn while_limit(no_loop_limit: bool) -> (r: usize)
    ensures
        r == (if no_loop_limit { usize::MAX } else { MAX_WHILE_ITERATIONS }),
{
    if no_loop_limit {
        usize::MAX
    } else {
        MAX_WHILE_ITERATIONS
    }
}

/// Before each test of a `while` condition: after `iterations` rounds, the
/// count with this one, or the error once `limit` rounds have run.
pub fn while_step(iterations: usize, limit: usize) -> (r: Result<usize, Signal>)
    ensures
        iterations < limit ==> r == Ok::<usize, Signal>((iterations + 1) as usize),
        iterations >= limit ==> (r matches Err(Signal::Error(m)) && m@ == while_limit_text()),
{
    if iterations >= limit {
        return Err(Signal::Error(String::from_str(
            "while loop exceeded 10,000,000 iterations. If this is an intentional infinite loop (e.g. a REPL using readline()), run with: gx run --no-limit",
        )));
    }
    Ok(iterations + 1)
}

/// What a loop does after one run of its body.
pub enum LoopStep {
    /// Go on; the body's value is now the loop's value.
    Next(Value),
    /// `continue`: go on, the loop's value unchanged.
    Skip,
    /// `break`: leave the loop with its value.
    Stop,
    /// Leave the loop and pass the signal on.
    Propagate(Signal),
}

/// The loop's next move after its body ended with `outcome`.
pub fn loop_step(outcome: Result<Value, Signal>) -> (r: LoopStep)
    ensures
        match outcome {
            Ok(v) => r == LoopStep::Next(v),
            Err(Signal::Break) => r is Stop,
            Err(Signal::Continue) => r is Skip,
            Err(s) => r == LoopStep::Propagate(s),
        },
{
    match outcome {
        Ok(v) => LoopStep::Next(v),
        Err(Signal::Break) => LoopStep::Stop,
        Err(Signal::Continue) => LoopStep::Skip,
        Err(s) => LoopStep::Propagate(s),
    }
}

} // verus!
