use gx::interpreter::db::{tx_begin_statement, tx_end_statement, DbPool, MAX_POOLED_DB_CONNECTIONS};
use gx::interpreter::import_collision_warning;
use gx::interpreter::retry::{
    after_attempt, backoff_from_name, outcome_is_retryable, retry_backoff, retry_delay_ms, Backoff,
    RetryStep,
};
use gx::interpreter::util::{
    data_format, due_schedules, needs_integrity_check, DataFormat, package_source, path_is_within,
    seconds_until_next_minute, PackageSource, PathPart,
};
use gx::interpreter::Signal;
use gx::value::{ObjectMap, Value};

/// What the interpreter does before using the connection for `path`: open
/// it (making room first if the pool is full) unless it is pooled, then
/// mark it used at `now`.
fn connect(pool: &mut DbPool, path: &str, now: u64) -> Option<String> {
    let mut closed = None;
    if !pool.contains(path) {
        closed = pool.evict_one_idle_db_connection_if_at_capacity();
        pool.add(path, now);
    }
    let i = pool.position(path).unwrap();
    pool.touch(i, now);
    closed
}

#[test]
fn transactions_nest_as_savepoints() {
    assert_eq!(tx_begin_statement(0), "BEGIN IMMEDIATE");
    assert_eq!(tx_begin_statement(1), "SAVEPOINT gx_sp_1");
    assert_eq!(tx_begin_statement(12), "SAVEPOINT gx_sp_12");
    assert_eq!(tx_end_statement(1, true), "COMMIT");
    assert_eq!(tx_end_statement(1, false), "ROLLBACK");
    assert_eq!(tx_end_statement(2, true), "RELEASE gx_sp_1");
    assert_eq!(tx_end_statement(2, false), "ROLLBACK TO gx_sp_1; RELEASE gx_sp_1");
    assert_eq!(tx_end_statement(13, false), "ROLLBACK TO gx_sp_12; RELEASE gx_sp_12");
}

#[test]
fn db_connection_pool_evicts_the_oldest_idle_connection_once_at_capacity() {
    let mut pool = DbPool::new();
    let mut paths = Vec::new();
    for i in 0..MAX_POOLED_DB_CONNECTIONS + 5 {
        let path = format!("/tmp/evict_{}.db", i);
        connect(&mut pool, &path, i as u64);
        paths.push(path);
    }
    assert_eq!(pool.len(), MAX_POOLED_DB_CONNECTIONS);
    assert!(!pool.contains(&paths[0]));
    assert!(pool.contains(paths.last().unwrap()));
}

#[test]
fn db_connection_pool_never_evicts_a_connection_with_an_active_transaction() {
    let mut pool = DbPool::new();
    let in_tx_path = "/tmp/in_tx.db";
    connect(&mut pool, in_tx_path, 0);
    let i = pool.position(in_tx_path).unwrap();
    let depth = pool.tx_depth(in_tx_path);
    assert_eq!(tx_begin_statement(depth), "BEGIN IMMEDIATE");
    pool.set_tx_depth(i, depth + 1);

    for i in 0..MAX_POOLED_DB_CONNECTIONS + 5 {
        let path = format!("/tmp/evict_around_tx_{}.db", i);
        connect(&mut pool, &path, 1 + i as u64);
    }
    assert!(pool.contains(in_tx_path));
    assert_eq!(pool.tx_depth(in_tx_path), 1);
    assert_eq!(tx_end_statement(1, false), "ROLLBACK");
}

#[test]
fn a_full_pool_of_busy_connections_grows_instead_of_evicting() {
    let mut pool = DbPool::new();
    for i in 0..MAX_POOLED_DB_CONNECTIONS {
        let path = format!("/tmp/busy_{}.db", i);
        connect(&mut pool, &path, i as u64);
        let k = pool.position(&path).unwrap();
        pool.set_tx_depth(k, 1);
    }
    assert_eq!(pool.evict_one_idle_db_connection_if_at_capacity(), None);
    connect(&mut pool, "/tmp/one_more.db", 1000);
    assert_eq!(pool.len(), MAX_POOLED_DB_CONNECTIONS + 1);
    assert_eq!(pool.tx_depth("/tmp/busy_0.db"), 1);
    assert_eq!(pool.tx_depth("/tmp/not_pooled.db"), 0);
}

#[test]
fn reused_connections_count_as_recently_used() {
    let mut pool = DbPool::new();
    for i in 0..MAX_POOLED_DB_CONNECTIONS {
        connect(&mut pool, &format!("/tmp/lru_{}.db", i), i as u64);
    }
    connect(&mut pool, "/tmp/lru_0.db", 500);
    let closed = connect(&mut pool, "/tmp/lru_new.db", 501);
    assert_eq!(closed.as_deref(), Some("/tmp/lru_1.db"));
    assert!(pool.contains("/tmp/lru_0.db"));
}

#[test]
fn retry_backoff_strategies_and_the_delay_cap() {
    assert_eq!(backoff_from_name("exponential"), Backoff::Exponential);
    assert_eq!(backoff_from_name("linear"), Backoff::Linear);
    assert_eq!(backoff_from_name("fixed"), Backoff::Fixed);
    assert_eq!(backoff_from_name("Linear"), Backoff::Fixed);
    assert_eq!(retry_delay_ms(Backoff::Exponential, 1000, 0), 1000);
    assert_eq!(retry_delay_ms(Backoff::Exponential, 1000, 3), 8000);
    assert_eq!(retry_delay_ms(Backoff::Exponential, 1000, 5), 30000);
    assert_eq!(retry_delay_ms(Backoff::Linear, 250, 2), 750);
    assert_eq!(retry_delay_ms(Backoff::Fixed, 40000, 7), 30000);
    assert_eq!(retry_delay_ms(Backoff::Fixed, 10, 7), 10);
}

#[test]
fn retry_options_pick_the_backoff() {
    let mut m = ObjectMap::new();
    m.insert("backoff".to_string(), Value::Str("linear".to_string()));
    assert_eq!(retry_backoff(&Value::Object(m)), Backoff::Linear);
    let mut n = ObjectMap::new();
    n.insert("backoff".to_string(), Value::Bool(true));
    assert_eq!(retry_backoff(&Value::Object(n)), Backoff::Exponential);
    assert_eq!(retry_backoff(&Value::Number(500f64.to_bits())), Backoff::Exponential);
    assert_eq!(retry_backoff(&Value::Null), Backoff::Exponential);
}

#[test]
fn retry_stops_on_success_or_after_the_last_attempt() {
    let mut failed = ObjectMap::new();
    failed.insert("ok".to_string(), Value::Bool(false));
    let ok_false: Result<Value, Signal> = Ok(Value::Object(failed));
    let thrown: Result<Value, Signal> = Err(Signal::Error("boom".to_string()));
    let fine: Result<Value, Signal> = Ok(Value::Number(1f64.to_bits()));
    assert!(outcome_is_retryable(&ok_false));
    assert!(outcome_is_retryable(&thrown));
    assert!(!outcome_is_retryable(&fine));

    assert_eq!(after_attempt(0, 3, false, Backoff::Exponential, 1000), RetryStep::Finish);
    assert_eq!(after_attempt(0, 3, true, Backoff::Exponential, 1000), RetryStep::Wait(1000));
    assert_eq!(after_attempt(1, 3, true, Backoff::Exponential, 1000), RetryStep::Wait(2000));
    assert_eq!(after_attempt(2, 3, true, Backoff::Exponential, 1000), RetryStep::Finish);
    assert_eq!(after_attempt(0, 1, true, Backoff::Linear, 1000), RetryStep::Finish);
}

#[test]
fn cron_daemon_sleeps_to_the_next_minute_and_runs_due_schedules() {
    assert_eq!(seconds_until_next_minute(0), 60);
    assert_eq!(seconds_until_next_minute(59), 1);
    assert_eq!(seconds_until_next_minute(121), 59);
    let exprs = vec![
        "* * * * *".to_string(),
        "5 * * * *".to_string(),
        "0 * * * *".to_string(),
        "bad".to_string(),
    ];
    assert_eq!(due_schedules(&exprs, 0), vec![0, 2]);
    assert_eq!(due_schedules(&exprs, 300), vec![0, 1]);
    assert_eq!(due_schedules(&[], 0), Vec::<usize>::new());
}

#[test]
fn package_sources_by_lock_entry() {
    assert_eq!(package_source("path+../shared"), PackageSource::Path("../shared".to_string()));
    assert_eq!(package_source("git+https://example.com/x.git#v1"), PackageSource::Git);
    assert_eq!(package_source("registry+https://r.example.com"), PackageSource::Registry);
    assert_eq!(package_source("path"), PackageSource::Registry);
    assert!(!needs_integrity_check(&PackageSource::Path("d".to_string())));
    assert!(needs_integrity_check(&PackageSource::Git));
    assert!(needs_integrity_check(&PackageSource::Registry));
}

fn parts(p: &str) -> Vec<PathPart> {
    let mut out = Vec::new();
    if p.starts_with('/') {
        out.push(PathPart::RootDir);
    }
    for c in p.split('/').filter(|c| !c.is_empty()) {
        out.push(match c {
            "." => PathPart::CurDir,
            ".." => PathPart::ParentDir,
            other => PathPart::Normal(other.to_string()),
        });
    }
    out
}

#[test]
fn package_entries_must_stay_inside_the_package() {
    let dir = "/cache/pkg";
    assert!(path_is_within(parts("/cache/pkg/main.gx"), parts(dir)));
    assert!(path_is_within(parts("/cache/pkg/./src/../lib.gx"), parts(dir)));
    assert!(!path_is_within(parts("/cache/pkg/../other/x.gx"), parts(dir)));
    assert!(!path_is_within(parts("/home/u/.ssh/id_rsa"), parts(dir)));
    assert!(!path_is_within(parts("/cache/pkgx/main.gx"), parts(dir)));
    assert!(path_is_within(parts("/cache/pkg"), parts("/cache/./pkg/")));
}

#[test]
fn import_collisions_warn_only_for_a_different_source() {
    assert_eq!(import_collision_warning("function", "f", "a.gx", false, false), None);
    assert_eq!(import_collision_warning("function", "f", "a.gx", true, true), None);
    assert_eq!(
        import_collision_warning("agent", "helper", "lib/b.gx", true, false).as_deref(),
        Some(
            "import: agent 'helper' from 'lib/b.gx' overwrites an existing definition of the same name \
             (last import wins) — rename one of them, or import with `as <alias>`, to avoid relying on this"
        )
    );
}

#[test]
fn data_import_rejects_an_unrecognized_extension() {
    assert_eq!(
        data_format("ini"),
        Err("unrecognized data file extension '.ini' (expected .json, .yaml, .yml, .toml, .csv, .xml, or .jsonl)".to_string())
    );
}

#[test]
fn data_formats_by_extension() {
    assert_eq!(data_format("json"), Ok(DataFormat::Json));
    assert_eq!(data_format("yml"), Ok(DataFormat::Yaml));
    assert_eq!(data_format("yaml"), Ok(DataFormat::Yaml));
    assert_eq!(data_format("toml"), Ok(DataFormat::Toml));
    assert_eq!(data_format("csv"), Ok(DataFormat::Csv));
    assert_eq!(data_format("xml"), Ok(DataFormat::Xml));
    assert_eq!(data_format("ndjson"), Ok(DataFormat::JsonLines));
    assert_eq!(data_format("jsonl"), Ok(DataFormat::JsonLines));
    assert!(data_format("JSON").is_err());
    assert!(data_format("").is_err());
}
