//! Runtime values of GX scripts, and the string-keyed object map they use.
//!
//! A number is held as the bit pattern of its IEEE-754 double
//! (`f64::to_bits`): nothing here computes with numbers, it only stores and
//! compares them as they are.
use vstd::prelude::*;

verus! {

#[derive(Debug)]
pub enum Value {
    Null,
    Bool(bool),
    Number(u64),
    Str(String),
    Array(Vec<Value>),
    Object(ObjectMap),
}

/// A map from names to values that keeps its entries in insertion order
/// and holds each name at most once.
#[derive(Debug)]
pub struct ObjectMap {
    entries: Vec<(String, Value)>,
}

/// The mathematical content of a value.
pub enum ValueModel {
    Null,
    Bool(bool),
    Number(u64),
    Str(Seq<char>),
    Array(Seq<ValueModel>),
    Object(Seq<(Seq<char>, ValueModel)>),
}

/// The name of a value's kind, as `type_of` reports it.
pub open spec fn kind_name_of(v: ValueModel) -> Seq<char> {
    match v {
        ValueModel::Null => "null"@,
        ValueModel::Bool(_) => "boolean"@,
        ValueModel::Number(_) => "number"@,
        ValueModel::Str(_) => "string"@,
        ValueModel::Array(_) => "array"@,
        ValueModel::Object(_) => "object"@,
    }
}

/// Whether a value counts as true in a condition: null and false do not,
/// nor a number equal to zero (either sign), nor an empty string, array or
/// object.
pub open spec fn truthy(v: ValueModel) -> bool {
    match v {
        ValueModel::Null => false,
        ValueModel::Bool(b) => b,
        ValueModel::Number(bits) => bits != 0 && bits != 0x8000_0000_0000_0000u64,
        ValueModel::Str(s) => s.len() > 0,
        ValueModel::Array(xs) => xs.len() > 0,
        ValueModel::Object(es) => es.len() > 0,
    }
}

impl Value {
    pub open spec fn model(&self) -> ValueModel
        decreases self,
    {
        match self {
            Value::Null => ValueModel::Null,
            Value::Bool(b) => ValueModel::Bool(*b),
            Value::Number(n) => ValueModel::Number(*n),
            Value::Str(s) => ValueModel::Str(s@),
            Value::Array(items) => ValueModel::Array(
                Seq::new(
                    items.len() as nat,
                    |i: int|
                        if 0 <= i < items.len() {
                            items@[i].model()
                        } else {
                            ValueModel::Null
                        },
                ),
            ),
            Value::Object(m) => ValueModel::Object(m.model()),
        }
    }

    /// The name of this value's kind.
    pub fn kind_name(&self) -> (r: &'static str)
        ensures
            r@ == kind_name_of(self.model()),
    {
        match self {
            Value::Null => "null",
            Value::Bool(_) => "boolean",
            Value::Number(_) => "number",
            Value::Str(_) => "string",
            Value::Array(_) => "array",
            Value::Object(_) => "object",
        }
    }

    /// Whether this value counts as true in a condition.
    pub fn is_truthy(&self) -> (r: bool)
        ensures
            r == truthy(self.model()),
    {
        match self {
            Value::Null => false,
            Value::Bool(b) => *b,
            Value::Number(bits) => *bits != 0 && *bits != 0x8000_0000_0000_0000u64,
            Value::Str(s) => s.unicode_len() > 0,
            Value::Array(xs) => xs.len() > 0,
            Value::Object(m) => m.len() > 0,
        }
    }

    /// The text of a string value.
    pub fn as_str(&self) -> (r: Option<&str>)
        ensures
            match self {
                Value::Str(s) => r matches Some(t) && t@ == s@,
                _ => r is None,
            },
    {
        match self {
            Value::Str(s) => Some(s.as_str()),
            _ => None,
        }
    }

    /// A copy of this value, equal in content.
    pub fn deep_copy(&self) -> (r: Value)
        ensures
            r.model() == self.model(),
        decreases self,
    {
        match self {
            Value::Null => Value::Null,
            Value::Bool(b) => Value::Bool(*b),
            Value::Number(n) => Value::Number(*n),
            Value::Str(s) => Value::Str(s.clone()),
            Value::Array(items) => {
                let mut out: Vec<Value> = Vec::new();
                let mut i: usize = 0;
                while i < items.len()
                    invariant
                        i <= items.len(),
                        out@.len() == i,
                        forall|j: int| 0 <= j < i ==> #[trigger] out@[j].model() == items@[j].model(),
                        *self == Value::Array(*items),
                    decreases items.len() - i,
                {
                    let item = &items[i];
                    proof {
                        assert(decreases_to!(*self => (*self)->Array_0));
                        assert(decreases_to!(*items => items@));
                        assert(decreases_to!(items@ => items@[i as int]));
                    }
                    let c = item.deep_copy();
                    out.push(c);
                    i = i + 1;
                }
                let r = Value::Array(out);
                assert(self.model() is Array);
                assert(self.model()->Array_0.len() == items.len());
                assert(r.model()->Array_0.len() == out.len());
                assert(forall|j: int| 0 <= j < out.len() ==> r.model()->Array_0[j] == out@[j].model());
                assert(r.model()->Array_0 =~= self.model()->Array_0);
                r
            },
            Value::Object(m) => Value::Object(m.deep_copy()),
        }
    }
}

impl Clone for Value {
    fn clone(&self) -> (r: Self)
        ensures
            r.model() == self.model(),
    {
        self.deep_copy()
    }
}

// ── Association sequences ────────────────────────────────────────────────────

/// Whether some entry of `es` has the key `k`.
pub open spec fn has_key<V>(es: Seq<(Seq<char>, V)>, k: Seq<char>) -> bool {
    exists|i: int| 0 <= i < es.len() && #[trigger] es[i].0 == k
}

/// Whether `i` is the first index of an entry with key `k`.
pub open spec fn is_first_key<V>(es: Seq<(Seq<char>, V)>, k: Seq<char>, i: int) -> bool {
    &&& 0 <= i < es.len()
    &&& es[i].0 == k
    &&& forall|j: int| 0 <= j < i ==> #[trigger] es[j].0 != k
}

/// The index of the first entry with key `k`, or `es.len()` if there is none.
pub open spec fn key_index<V>(es: Seq<(Seq<char>, V)>, k: Seq<char>) -> int {
    if exists|i: int| is_first_key(es, k, i) {
        choose|i: int| is_first_key(es, k, i)
    } else {
        es.len() as int
    }
}

/// The value stored under `k`.
pub open spec fn assoc_get<V>(es: Seq<(Seq<char>, V)>, k: Seq<char>) -> Option<V> {
    let i = key_index(es, k);
    if i < es.len() {
        Some(es[i].1)
    } else {
        None
    }
}

/// `es` with `k` bound to `v`: the entry of `k` is replaced in place, or a
/// new entry is appended.
pub open spec fn assoc_set<V>(es: Seq<(Seq<char>, V)>, k: Seq<char>, v: V) -> Seq<(Seq<char>, V)> {
    let i = key_index(es, k);
    if i < es.len() {
        es.update(i, (k, v))
    } else {
        es.push((k, v))
    }
}

/// `es` without the entry of `k`, if it has one.
pub open spec fn assoc_remove<V>(es: Seq<(Seq<char>, V)>, k: Seq<char>) -> Seq<(Seq<char>, V)> {
    let i = key_index(es, k);
    if i < es.len() {
        es.remove(i)
    } else {
        es
    }
}

/// No key occurs twice.
pub open spec fn keys_distinct<V>(es: Seq<(Seq<char>, V)>) -> bool {
    forall|i: int, j: int| 0 <= i < j < es.len() ==> #[trigger] es[i].0 != #[trigger] es[j].0
}

pub proof fn lemma_key_index<V>(es: Seq<(Seq<char>, V)>, k: Seq<char>)
    ensures
        0 <= key_index(es, k) <= es.len(),
        key_index(es, k) < es.len() ==> is_first_key(es, k, key_index(es, k)),
        key_index(es, k) == es.len() <==> !has_key(es, k),
        forall|j: int| 0 <= j < key_index(es, k) ==> #[trigger] es[j].0 != k,
{
    if has_key(es, k) {
        let w = choose|i: int| 0 <= i < es.len() && #[trigger] es[i].0 == k;
        lemma_first_key_exists(es, k, w);
    }
}

proof fn lemma_first_key_exists<V>(es: Seq<(Seq<char>, V)>, k: Seq<char>, w: int)
    requires
        0 <= w < es.len(),
        es[w].0 == k,
    ensures
        exists|i: int| is_first_key(es, k, i),
    decreases w,
{
    if forall|j: int| 0 <= j < w ==> #[trigger] es[j].0 != k {
        assert(is_first_key(es, k, w));
    } else {
        let j = choose|j: int| 0 <= j < w && #[trigger] es[j].0 == k;
        lemma_first_key_exists(es, k, j);
    }
}

/// An index `i` found by a front-to-back search is the key's index.
pub proof fn lemma_first_key_is_key_index<V>(es: Seq<(Seq<char>, V)>, k: Seq<char>, i: int)
    requires
        is_first_key(es, k, i),
    ensures
        key_index(es, k) == i,
{
    lemma_key_index(es, k);
    let c = key_index(es, k);
    if c < i {
        assert(es[c].0 == k);
    } else if i < c {
        assert(es[i].0 != k);
    }
}

/// Reading a key after writing it gives the written value.
pub proof fn lemma_assoc_get_set_same<V>(es: Seq<(Seq<char>, V)>, k: Seq<char>, v: V)
    ensures
        assoc_get(assoc_set(es, k, v), k) == Some(v),
{
    lemma_key_index(es, k);
    let i = key_index(es, k);
    let es2 = assoc_set(es, k, v);
    if i < es.len() {
        assert(is_first_key(es2, k, i));
        lemma_first_key_is_key_index(es2, k, i);
    } else {
        assert(is_first_key(es2, k, es.len() as int));
        lemma_first_key_is_key_index(es2, k, es.len() as int);
    }
}

/// Writing one key leaves every other key as it was.
pub proof fn lemma_assoc_get_set_other<V>(es: Seq<(Seq<char>, V)>, k: Seq<char>, v: V, k2: Seq<char>)
    requires
        k2 != k,
    ensures
        assoc_get(assoc_set(es, k, v), k2) == assoc_get(es, k2),
{
    lemma_key_index(es, k);
    lemma_key_index(es, k2);
    let es2 = assoc_set(es, k, v);
    lemma_key_index(es2, k2);
    let i2 = key_index(es, k2);
    if i2 < es.len() {
        assert(is_first_key(es2, k2, i2));
        lemma_first_key_is_key_index(es2, k2, i2);
    } else {
        assert(!has_key(es2, k2)) by {
            if has_key(es2, k2) {
                let w = choose|j: int| 0 <= j < es2.len() && #[trigger] es2[j].0 == k2;
                assert(es[w].0 == k2);
            }
        }
    }
}

/// Writing a key that is not there appends it.
pub proof fn lemma_assoc_set_fresh<V>(es: Seq<(Seq<char>, V)>, k: Seq<char>, v: V)
    requires
        forall|i: int| 0 <= i < es.len() ==> #[trigger] es[i].0 != k,
    ensures
        assoc_set(es, k, v) == es.push((k, v)),
{
    lemma_key_index(es, k);
}

/// Writing a key keeps the keys distinct.
pub proof fn lemma_assoc_set_keeps_keys_distinct<V>(es: Seq<(Seq<char>, V)>, k: Seq<char>, v: V)
    requires
        keys_distinct(es),
    ensures
        keys_distinct(assoc_set(es, k, v)),
{
    lemma_key_index(es, k);
    let es2 = assoc_set(es, k, v);
    assert forall|i: int, j: int| 0 <= i < j < es2.len() implies #[trigger] es2[i].0 != #[trigger] es2[j].0 by {
        if key_index(es, k) == es.len() && j == es.len() {
            assert(es[i].0 != k);
        } else {
            assert(es[i].0 != es[j].0);
        }
    }
}

// ── ObjectMap ────────────────────────────────────────────────────────────────

impl ObjectMap {
    /// The entries in insertion order.
    pub closed spec fn model(&self) -> Seq<(Seq<char>, ValueModel)>
        decreases self,
    {
        Seq::new(
            self.entries.len() as nat,
            |i: int|
                if 0 <= i < self.entries.len() {
                    (self.entries@[i].0@, self.entries@[i].1.model())
                } else {
                    (Seq::<char>::empty(), ValueModel::Null)
                },
        )
    }

    /// No name occurs twice.
    pub closed spec fn wf(&self) -> bool {
        keys_distinct(self.model())
    }

    pub fn new() -> (r: ObjectMap)
        ensures
            r.model() == Seq::<(Seq<char>, ValueModel)>::empty(),
            r.wf(),
    {
        let r = ObjectMap { entries: Vec::new() };
        assert(r.model() =~= Seq::<(Seq<char>, ValueModel)>::empty());
        r
    }

    pub fn len(&self) -> (n: usize)
        ensures
            n == self.model().len(),
    {
        self.entries.len()
    }

    /// The name and value of the `i`-th entry.
    pub fn entry(&self, i: usize) -> (r: (&String, &Value))
        requires
            i < self.model().len(),
        ensures
            r.0@ == self.model()[i as int].0,
            r.1.model() == self.model()[i as int].1,
    {
        let e = &self.entries[i];
        (&e.0, &e.1)
    }

    /// Finds the index of the first entry named `key`.
    fn find(&self, key: &str) -> (r: usize)
        ensures
            r == key_index(self.model(), key@),
    {
        proof {
            lemma_key_index(self.model(), key@);
        }
        let mut i: usize = 0;
        while i < self.entries.len()
            invariant
                i <= self.entries.len(),
                forall|j: int| 0 <= j < i ==> #[trigger] self.model()[j].0 != key@,
            decreases self.entries.len() - i,
        {
            if crate::text::str_eq(self.entries[i].0.as_str(), key) {
                proof {
                    assert(is_first_key(self.model(), key@, i as int));
                    lemma_first_key_is_key_index(self.model(), key@, i as int);
                }
                return i;
            }
            i = i + 1;
        }
        proof {
            assert(!has_key(self.model(), key@)) by {
                if has_key(self.model(), key@) {
                    let w = choose|j: int| 0 <= j < self.model().len() && #[trigger] self.model()[j].0 == key@;
                    assert(self.model()[w].0 != key@);
                }
            }
        }
        i
    }

    /// The value stored under `key`.
    pub fn get(&self, key: &str) -> (r: Option<&Value>)
        ensures
            match assoc_get(self.model(), key@) {
                Some(v) => r matches Some(x) && x.model() == v,
                None => r is None,
            },
    {
        let i = self.find(key);
        if i < self.entries.len() {
            Some(&self.entries[i].1)
        } else {
            None
        }
    }

    /// Whether some entry is named `key`.
    pub fn contains_key(&self, key: &str) -> (r: bool)
        ensures
            r == assoc_get(self.model(), key@) is Some,
    {
        self.find(key) < self.entries.len()
    }

    /// Binds `key` to `value`: the entry of `key` is replaced in place, or a
    /// new entry is appended.
    pub fn insert(&mut self, key: String, value: Value)
        ensures
            final(self).model() == assoc_set(old(self).model(), key@, value.model()),
            old(self).wf() ==> final(self).wf(),
    {
        let i = self.find(key.as_str());
        let ghost old_model = self.model();
        let ghost k = key@;
        let ghost vm = value.model();
        if i < self.entries.len() {
            self.entries.set(i, (key, value));
            assert(self.model() =~= old_model.update(i as int, (k, vm)));
        } else {
            self.entries.push((key, value));
            assert(self.model() =~= old_model.push((k, vm)));
        }
        proof {
            if keys_distinct(old_model) {
                lemma_assoc_set_keeps_keys_distinct(old_model, k, vm);
            }
        }
    }

    /// Drops the entry named `key`, if there is one.
    pub fn remove(&mut self, key: &str)
        ensures
            final(self).model() == assoc_remove(old(self).model(), key@),
            old(self).wf() ==> final(self).wf(),
    {
        let i = self.find(key);
        let ghost old_model = self.model();
        if i < self.entries.len() {
            let _ = self.entries.remove(i);
            assert(self.model() =~= old_model.remove(i as int));
            assert(keys_distinct(old_model) ==> self.wf()) by {
                if keys_distinct(old_model) {
                    let m = self.model();
                    assert forall|a: int, b: int| 0 <= a < b < m.len() implies #[trigger] m[a].0 != #[trigger] m[b].0 by {
                        let oa = if a < i { a } else { a + 1 };
                        let ob = if b < i { b } else { b + 1 };
                        assert(m[a] == old_model[oa] && m[b] == old_model[ob]);
                    }
                }
            }
        }
    }

    /// A copy of this map, equal in content.
    pub fn deep_copy(&self) -> (r: ObjectMap)
        ensures
            r.model() == self.model(),
        decreases self,
    {
        let mut out: Vec<(String, Value)> = Vec::new();
        let mut i: usize = 0;
        while i < self.entries.len()
            invariant
                i <= self.entries.len(),
                out@.len() == i,
                forall|j: int|
                    0 <= j < i ==> #[trigger] out@[j].0@ == self.entries@[j].0@ && out@[j].1.model()
                        == self.entries@[j].1.model(),
            decreases self.entries.len() - i,
        {
            let e = &self.entries[i];
            let k = e.0.clone();
            let v = e.1.deep_copy();
            out.push((k, v));
            i = i + 1;
        }
        let r = ObjectMap { entries: out };
        assert(r.model() =~= self.model());
        r
    }
}

impl Clone for ObjectMap {
    fn clone(&self) -> (r: Self)
        ensures
            r.model() == self.model(),
    {
        self.deep_copy()
    }
}

} // verus!
