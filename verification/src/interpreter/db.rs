//! Bookkeeping for the interpreter's pooled database connections: which
//! connections are open, when each was last used, how deeply transactions
//! are nested on each, which one to close when the pool is full, and the
//! statements that open and close a (possibly nested) transaction.
use vstd::prelude::*;
use crate::text::{decimal, lemma_decimal_injective, push_decimal, str_eq};

verus! {

/// Ceiling on pooled connections held open at once.
pub const MAX_POOLED_DB_CONNECTIONS: usize = 128;

// ── Transaction statements ───────────────────────────────────────────────────

/// The name of the savepoint a transaction opens when `d` transactions are
/// already open on its connection.
pub open spec fn savepoint_name(d: nat) -> Seq<char> {
    "gx_sp_"@ + decimal(d)
}

/// The statement that opens a transaction on a connection that already has
/// `depth` open: a write-locking `BEGIN` for the outermost one, a savepoint
/// for a nested one.
pub open spec fn begin_sql(depth: nat) -> Seq<char> {
    if depth == 0 {
        "BEGIN IMMEDIATE"@
    } else {
        "SAVEPOINT "@ + savepoint_name(depth)
    }
}

/// The statement that closes the innermost of `depth` open transactions,
/// committing it or rolling it back.
pub open spec fn end_sql(depth: nat, commit: bool) -> Seq<char> {
    let sp = savepoint_name((depth - 1) as nat);
    if depth == 1 {
        if commit { "COMMIT"@ } else { "ROLLBACK"@ }
    } else if commit {
        "RELEASE "@ + sp
    } else {
        "ROLLBACK TO "@ + sp + "; RELEASE "@ + sp
    }
}

/// The statement that opens a transaction on a connection with `depth`
/// transactions already open; once it has run, the depth is `depth + 1`.
pub fn tx_begin_statement(depth: usize) -> (r: String)
    ensures
        r@ == begin_sql(depth as nat),
{
    if depth == 0 {
        String::from_str("BEGIN IMMEDIATE")
    } else {
        let mut r = String::from_str("SAVEPOINT gx_sp_");
        push_decimal(&mut r, depth);
        proof {
            reveal_strlit("SAVEPOINT gx_sp_");
            reveal_strlit("SAVEPOINT ");
            reveal_strlit("gx_sp_");
        }
        assert(r@ =~= begin_sql(depth as nat));
        r
    }
}

/// The statement that closes the innermost of `depth` open transactions;
/// the depth becomes `depth - 1` whether or not it succeeds.
pub fn tx_end_statement(depth: usize, commit: bool) -> (r: String)
    requires
        depth >= 1,
    ensures
        r@ == end_sql(depth as nat, commit),
{
    if depth == 1 {
        if commit {
            String::from_str("COMMIT")
        } else {
            String::from_str("ROLLBACK")
        }
    } else if commit {
        let mut r = String::from_str("RELEASE gx_sp_");
        push_decimal(&mut r, depth - 1);
        proof {
            reveal_strlit("RELEASE gx_sp_");
            reveal_strlit("RELEASE ");
            reveal_strlit("gx_sp_");
        }
        assert(r@ =~= end_sql(depth as nat, commit));
        r
    } else {
        let mut r = String::from_str("ROLLBACK TO gx_sp_");
        push_decimal(&mut r, depth - 1);
        r.append("; RELEASE gx_sp_");
        push_decimal(&mut r, depth - 1);
        proof {
            reveal_strlit("ROLLBACK TO gx_sp_");
            reveal_strlit("; RELEASE gx_sp_");
            reveal_strlit("ROLLBACK TO ");
            reveal_strlit("; RELEASE ");
            reveal_strlit("gx_sp_");
        }
        assert(r@ =~= end_sql(depth as nat, commit));
        r
    }
}

/// Transactions nest: the outermost is opened with `BEGIN IMMEDIATE` and
/// closed with `COMMIT` or `ROLLBACK`; a nested one opens a savepoint, and
/// closing it releases (or rolls back to) that same savepoint.
pub proof fn lemma_end_closes_what_begin_opened(depth: nat, commit: bool)
    ensures
        depth == 0 ==> begin_sql(depth) == "BEGIN IMMEDIATE"@
            && end_sql(depth + 1, commit) == (if commit { "COMMIT"@ } else { "ROLLBACK"@ }),
        depth > 0 ==> begin_sql(depth) == "SAVEPOINT "@ + savepoint_name(depth)
            && end_sql(depth + 1, true) == "RELEASE "@ + savepoint_name(depth)
            && end_sql(depth + 1, false) == "ROLLBACK TO "@ + savepoint_name(depth) + "; RELEASE "@
                + savepoint_name(depth),
{
}

/// Savepoints at different depths have different names, so closing an
/// inner transaction never touches an outer one's savepoint.
pub proof fn lemma_savepoint_names_distinct(a: nat, b: nat)
    requires
        a != b,
    ensures
        savepoint_name(a) != savepoint_name(b),
{
    lemma_decimal_injective(a, b);
    if savepoint_name(a) == savepoint_name(b) {
        let k = "gx_sp_"@.len() as int;
        assert(savepoint_name(a).skip(k) =~= decimal(a));
        assert(savepoint_name(b).skip(k) =~= decimal(b));
    }
}

// ── The connection pool ──────────────────────────────────────────────────────

/// One open pooled connection: its database path, when it was last used
/// (on the caller's monotonic clock), and how many transactions are open
/// on it.
#[derive(Debug, Clone)]
pub struct PooledConnection {
    pub path: String,
    pub last_used: u64,
    pub tx_depth: usize,
}

/// The pool's record of its open connections, at most one per path.
pub struct DbPool {
    entries: Vec<PooledConnection>,
}

/// Connection `i` has no transaction open and may be closed.
pub open spec fn is_idle(p: Seq<PooledConnection>, i: int) -> bool {
    0 <= i < p.len() && p[i].tx_depth == 0
}

/// Connection `i` is the one to close to make room: of the idle ones, the
/// least recently used (the first such, on a tie).
pub open spec fn is_victim(p: Seq<PooledConnection>, i: int) -> bool {
    &&& is_idle(p, i)
    &&& forall|j: int| #[trigger] is_idle(p, j) ==> p[i].last_used <= p[j].last_used
    &&& forall|j: int| 0 <= j < i && #[trigger] is_idle(p, j) ==> p[i].last_used < p[j].last_used
}

/// The index of the connection holding `path`, if one does.
pub open spec fn index_of_path(p: Seq<PooledConnection>, path: Seq<char>) -> Option<int> {
    if exists|i: int| 0 <= i < p.len() && (#[trigger] p[i]).path@ == path {
        Some(choose|i: int| 0 <= i < p.len() && (#[trigger] p[i]).path@ == path)
    } else {
        None
    }
}

/// A pool within the cap stays within it when a connection for a new path
/// is admitted after making room (`evict_one_idle_db_connection_if_at_capacity`,
/// then `add`), unless every pooled connection has a transaction open.
pub proof fn lemma_admitting_keeps_the_cap(p: Seq<PooledConnection>, i: int)
    requires
        p.len() <= MAX_POOLED_DB_CONNECTIONS,
        p.len() >= MAX_POOLED_DB_CONNECTIONS ==> is_victim(p, i),
    ensures
        (if p.len() >= MAX_POOLED_DB_CONNECTIONS { p.remove(i) } else { p }).len() + 1
            <= MAX_POOLED_DB_CONNECTIONS,
{
}

impl DbPool {
    pub closed spec fn model(&self) -> Seq<PooledConnection> {
        self.entries@
    }

    /// No path is pooled twice.
    #[verifier::type_invariant]
    spec fn wf(&self) -> bool {
        forall|i: int, j: int|
            0 <= i < j < self.entries@.len() ==> (#[trigger] self.entries@[i]).path@
                != (#[trigger] self.entries@[j]).path@
    }

    pub fn new() -> (r: DbPool)
        ensures
            r.model() == Seq::<PooledConnection>::empty(),
    {
        DbPool { entries: Vec::new() }
    }

    /// How many connections are open.
    pub fn len(&self) -> (r: usize)
        ensures
            r == self.model().len(),
    {
        self.entries.len()
    }

    /// Where the connection for `path` is, if it is open.
    pub fn position(&self, path: &str) -> (r: Option<usize>)
        ensures
            r == match index_of_path(self.model(), path@) {
                Some(i) => Some(i as usize),
                None => None::<usize>,
            },
    {
        proof {
            use_type_invariant(self);
        }
        let mut i: usize = 0;
        while i < self.entries.len()
            invariant
                self.wf(),
                i <= self.entries@.len(),
                forall|j: int| 0 <= j < i ==> (#[trigger] self.entries@[j]).path@ != path@,
            decreases self.entries@.len() - i,
        {
            if str_eq(self.entries[i].path.as_str(), path) {
                proof {
                    let p = self.model();
                    assert(0 <= i < p.len() && p[i as int].path@ == path@);
                    let k = choose|k: int| 0 <= k < p.len() && (#[trigger] p[k]).path@ == path@;
                    if k != i {
                        if k < i {
                            assert(p[k].path@ != path@);
                        } else {
                            assert(p[i as int].path@ != p[k].path@);
                        }
                    }
                }
                return Some(i);
            }
            i = i + 1;
        }
        None
    }

    /// Whether a connection for `path` is open.
    pub fn contains(&self, path: &str) -> (r: bool)
        ensures
            r == (index_of_path(self.model(), path@) is Some),
    {
        self.position(path).is_some()
    }

    /// How many transactions are open on `path`'s connection (none when it
    /// is not pooled).
    pub fn tx_depth(&self, path: &str) -> (r: usize)
        ensures
            r == match index_of_path(self.model(), path@) {
                Some(i) => self.model()[i].tx_depth,
                None => 0,
            },
    {
        proof {
            use_type_invariant(self);
        }
        let n = self.entries.len();
        match self.position(path) {
            Some(i) => {
                proof {
                    let p = self.model();
                    let k = choose|k: int| 0 <= k < p.len() && (#[trigger] p[k]).path@ == path@;
                    assert(0 <= k < n);
                    assert(i as int == k);
                }
                self.entries[i].tx_depth
            },
            None => 0,
        }
    }

    /// Records a newly opened connection for `path`, used at `now`, with no
    /// transaction open.
    pub fn add(&mut self, path: &str, now: u64)
        requires
            index_of_path(old(self).model(), path@) is None,
        ensures
            final(self).model().len() == old(self).model().len() + 1,
            final(self).model().drop_last() == old(self).model(),
            final(self).model().last().path@ == path@,
            final(self).model().last().last_used == now,
            final(self).model().last().tx_depth == 0,
    {
        proof {
            use_type_invariant(&*self);
        }
        let entry = PooledConnection { path: path.to_string(), last_used: now, tx_depth: 0 };
        proof {
            let p = old(self).model();
            assert forall|i: int| 0 <= i < p.len() implies (#[trigger] p[i]).path@ != path@ by {
                if p[i].path@ == path@ {
                    assert(exists|k: int| 0 <= k < p.len() && (#[trigger] p[k]).path@ == path@);
                }
            }
            let q = p.push(entry);
            assert forall|a: int, b: int| 0 <= a < b < q.len() implies (#[trigger] q[a]).path@
                != (#[trigger] q[b]).path@ by {
                if b < p.len() {
                    assert(p[a].path@ != p[b].path@);
                } else {
                    assert(p[a].path@ != path@);
                }
            }
        }
        let mut es: Vec<PooledConnection> = Vec::new();
        std::mem::swap(&mut es, &mut self.entries);
        es.push(entry);
        self.entries = es;
        assert(self.model().drop_last() =~= old(self).model());
    }

    /// Replaces the record at `i` by `f(record)`, keeping the others.
    fn update_at(&mut self, i: usize, last_used: u64, tx_depth: usize)
        requires
            old(self).wf(),
            i < old(self).model().len(),
        ensures
            final(self).wf(),
            final(self).model() == old(self).model().update(
                i as int,
                PooledConnection { last_used, tx_depth, ..old(self).model()[i as int] },
            ),
    {
        let e = PooledConnection { path: self.entries[i].path.clone(), last_used, tx_depth };
        proof {
            let p = old(self).model();
            let q = p.update(i as int, e);
            assert forall|a: int, b: int| 0 <= a < b < q.len() implies (#[trigger] q[a]).path@
                != (#[trigger] q[b]).path@ by {
                assert(q[a].path@ == p[a].path@);
                assert(q[b].path@ == p[b].path@);
            }
        }
        let mut es: Vec<PooledConnection> = Vec::new();
        std::mem::swap(&mut es, &mut self.entries);
        es[i] = e;
        self.entries = es;
        assert(self.model() =~= old(self).model().update(
            i as int,
            PooledConnection { last_used, tx_depth, ..old(self).model()[i as int] },
        ));
    }

    /// Marks the connection at `i` as used at `now`.
    pub fn touch(&mut self, i: usize, now: u64)
        requires
            i < old(self).model().len(),
        ensures
            final(self).model() == old(self).model().update(
                i as int,
                PooledConnection { last_used: now, ..old(self).model()[i as int] },
            ),
    {
        proof {
            use_type_invariant(&*self);
        }
        let d = self.entries[i].tx_depth;
        self.update_at(i, now, d);
    }

    /// Records that `depth` transactions are now open on the connection at
    /// `i`.
    pub fn set_tx_depth(&mut self, i: usize, depth: usize)
        requires
            i < old(self).model().len(),
        ensures
            final(self).model() == old(self).model().update(
                i as int,
                PooledConnection { tx_depth: depth, ..old(self).model()[i as int] },
            ),
    {
        proof {
            use_type_invariant(&*self);
        }
        let t = self.entries[i].last_used;
        self.update_at(i, t, depth);
    }

    /// If the pool is full, forgets the least recently used connection that
    /// has no transaction open and returns its path, for the caller to
    /// close it. Below capacity, or when every pooled connection has a
    /// transaction open, nothing changes and `None` is returned: an open
    /// transaction is never closed out from under its user, and the pool
    /// may then grow past the cap until those transactions end.
    pub fn evict_one_idle_db_connection_if_at_capacity(&mut self) -> (r: Option<String>)
        ensures
            old(self).model().len() < MAX_POOLED_DB_CONNECTIONS ==> r is None && final(self).model()
                == old(self).model(),
            old(self).model().len() >= MAX_POOLED_DB_CONNECTIONS ==> match r {
                Some(path) => exists|i: int|
                    is_victim(old(self).model(), i) && path@ == old(self).model()[i].path@
                        && final(self).model() == old(self).model().remove(i),
                None => final(self).model() == old(self).model() && forall|j: int|
                    0 <= j < old(self).model().len() ==> !#[trigger] is_idle(old(self).model(), j),
            },
    {
        proof {
            use_type_invariant(&*self);
        }
        let ghost p = self.model();
        if self.entries.len() < MAX_POOLED_DB_CONNECTIONS {
            return None;
        }
        let mut best: Option<usize> = None;
        let mut i: usize = 0;
        while i < self.entries.len()
            invariant
                p == self.entries@,
                i <= p.len(),
                match best {
                    Some(b) => b < i && is_idle(p, b as int)
                        && (forall|j: int| 0 <= j < i && #[trigger] is_idle(p, j) ==> p[b as int].last_used <= p[j].last_used)
                        && (forall|j: int| 0 <= j < b && #[trigger] is_idle(p, j) ==> p[b as int].last_used < p[j].last_used),
                    None => forall|j: int| 0 <= j < i ==> !#[trigger] is_idle(p, j),
                },
            decreases p.len() - i,
        {
            if self.entries[i].tx_depth == 0 {
                match best {
                    None => {
                        best = Some(i);
                    },
                    Some(b) => {
                        if self.entries[i].last_used < self.entries[b].last_used {
                            best = Some(i);
                        }
                    },
                }
            }
            i = i + 1;
        }
        match best {
            None => None,
            Some(b) => {
                proof {
                    let q = p.remove(b as int);
                    assert forall|x: int, y: int| 0 <= x < y < q.len() implies (#[trigger] q[x]).path@
                        != (#[trigger] q[y]).path@ by {
                        let ox = if x < b { x } else { x + 1 };
                        let oy = if y < b { y } else { y + 1 };
                        assert(q[x] == p[ox] && q[y] == p[oy]);
                    }
                }
                let mut es: Vec<PooledConnection> = Vec::new();
                std::mem::swap(&mut es, &mut self.entries);
                let e = es.remove(b);
                self.entries = es;
                assert(is_victim(p, b as int));
                Some(e.path)
            },
        }
    }
}

} // verus!
