use nimbusdns::database::gravity::{
    domain_matches_pattern, first_matching_pattern, matches_any_pattern, next_step, page_offset,
    update_domainlist, BlockingDecision, Check, NumberedPattern, Step,
};
use nimbusdns::database::queries::{
    like_pattern, retention_cutoff, retention_due, search_log, start_of_day, QueryFilter, SqlValue,
    StoredQuery,
};
use nimbusdns::database::schema::{
    pending_migrations, GRAVITY_SCHEMA, INITIAL_NIMBUS_SCHEMA, VERSION_TABLE,
};
use nimbusdns::database::status::QueryStatus;
use nimbusdns::database::writer::{Batch, WriterEvent, BATCH_SIZE};

fn migrate(conn: &rusqlite::Connection) {
    conn.execute_batch(VERSION_TABLE).unwrap();
    let current: i32 = conn
        .query_row("SELECT COALESCE(MAX(version), 0) FROM schema_version", [], |r| r.get(0))
        .unwrap();
    for step in pending_migrations(current) {
        conn.execute_batch(step.sql).unwrap();
        conn.execute("INSERT INTO schema_version (version) VALUES (?1)", [step.version]).unwrap();
    }
}

#[test]
fn test_run_migrations_to_current_version() {
    let conn = rusqlite::Connection::open_in_memory().unwrap();
    migrate(&conn);
    let version: i32 = conn
        .query_row("SELECT COALESCE(MAX(version), 0) FROM schema_version", [], |r| r.get(0))
        .unwrap();
    assert_eq!(version, 4, "migrations must reach the current schema version");
    for table in ["queries", "sessions", "message"] {
        let count: i64 = conn
            .query_row(
                "SELECT COUNT(*) FROM sqlite_master WHERE type='table' AND name=?1",
                [table],
                |r| r.get(0),
            )
            .unwrap();
        assert_eq!(count, 1, "table {table} must exist after migrations");
    }
    migrate(&conn);
    let version: i32 = conn
        .query_row("SELECT COALESCE(MAX(version), 0) FROM schema_version", [], |r| r.get(0))
        .unwrap();
    assert_eq!(version, 4);
}

#[test]
fn migrations_follow_each_other() {
    let versions = |from: i32| -> Vec<i32> { pending_migrations(from).iter().map(|m| m.version).collect() };
    assert_eq!(versions(0), vec![1, 2, 3, 4]);
    assert_eq!(versions(-3), vec![1, 2, 3, 4]);
    assert_eq!(versions(2), vec![3, 4]);
    assert!(versions(4).is_empty());
    assert!(versions(9).is_empty());
    assert_eq!(pending_migrations(0)[0].sql, INITIAL_NIMBUS_SCHEMA);
    let conn = rusqlite::Connection::open_in_memory().unwrap();
    conn.execute_batch(GRAVITY_SCHEMA).unwrap();
}

fn filter() -> QueryFilter {
    QueryFilter { limit: 10, offset: 5, ..QueryFilter::default() }
}

fn bound(values: &[SqlValue]) -> Vec<String> {
    values
        .iter()
        .map(|v| match v {
            SqlValue::Int(n) => n.to_string(),
            SqlValue::Text(t) => t.clone(),
        })
        .collect()
}

#[test]
fn searches_bind_their_conditions() {
    let all = search_log(&filter());
    assert!(!all.count_sql.contains("WHERE"), "{}", all.count_sql);
    assert!(all.count_values.is_empty());
    assert_eq!(bound(&all.page_values), vec!["10", "5"]);
    let some = search_log(&QueryFilter {
        domain: Some("ads".into()),
        status: Some(1),
        from: Some(7),
        ..filter()
    });
    assert!(some.count_sql.contains("WHERE"));
    assert_eq!(bound(&some.count_values), vec!["%ads%", "1", "7"]);
    assert_eq!(bound(&some.page_values), vec!["%ads%", "1", "7", "10", "5"]);
    assert_eq!(like_pattern("x"), "%x%");
}

fn stored(timestamp: i64) -> StoredQuery {
    StoredQuery {
        timestamp,
        domain: format!("d{}.com", timestamp),
        client: Some("192.0.2.1".into()),
        forward: None,
        query_type: 1,
        status: QueryStatus::Forwarded,
        reply_time: None,
        reply_type: 0,
        flags: 0,
        interface: None,
        elapsed_ms: Some(1),
        adlist_id: None,
        cache_id: None,
        regex_id: None,
        upstream_id: None,
    }
}

#[test]
fn searches_run_on_the_schema() {
    let conn = rusqlite::Connection::open_in_memory().unwrap();
    migrate(&conn);
    for (t, d) in [(1, "a.com"), (2, "b.com"), (3, "ads.com")] {
        conn.execute(
            "INSERT INTO queries (timestamp, dbl_domain, dbl_client, dbl_type, dbl_status) VALUES (?1, ?2, '10.0.0.1', 1, 3)",
            rusqlite::params_from_iter([t.to_string(), d.to_string()]),
        )
        .unwrap();
    }
    let s = search_log(&QueryFilter { domain: Some("ads".into()), limit: 5, offset: 0, ..filter() });
    let values = |v: &[SqlValue]| -> Vec<rusqlite::types::Value> {
        v.iter()
            .map(|v| match v {
                SqlValue::Int(n) => rusqlite::types::Value::Integer(*n),
                SqlValue::Text(t) => rusqlite::types::Value::Text(t.clone()),
            })
            .collect()
    };
    let count: i64 = conn
        .query_row(&s.count_sql, rusqlite::params_from_iter(values(&s.count_values)), |r| r.get(0))
        .unwrap();
    assert_eq!(count, 1);
    let mut statement = conn.prepare(&s.page_sql).unwrap();
    let domains: Vec<String> = statement
        .query_map(rusqlite::params_from_iter(values(&s.page_values)), |r| r.get(2))
        .unwrap()
        .map(|r| r.unwrap())
        .collect();
    assert_eq!(domains, vec!["ads.com"]);
}

#[test]
fn times_of_the_log() {
    assert_eq!(retention_cutoff(1_000, 300), 700);
    assert_eq!(start_of_day(1_705_322_096), 1_705_276_800);
}

#[test]
fn statuses_have_numbers() {
    for n in 0..8 {
        assert_eq!(QueryStatus::from_i32(n).to_i32(), n);
    }
    assert_eq!(QueryStatus::from_i32(99), QueryStatus::Unknown);
    assert_eq!(QueryStatus::from_i32(7), QueryStatus::RateLimited);
}

#[test]
fn batches_are_written_when_full_or_due() {
    let mut batch = Batch::new();
    for i in 1..BATCH_SIZE as i64 {
        assert!(batch.handle(WriterEvent::Query(stored(i))).write.is_empty());
    }
    let full = batch.handle(WriterEvent::Query(stored(100)));
    assert_eq!(full.write.len(), BATCH_SIZE);
    assert_eq!(full.write[0].timestamp, 1);
    assert!(!full.stop);
    batch.handle(WriterEvent::Query(stored(1)));
    assert_eq!(batch.handle(WriterEvent::Tick).write.len(), 1);
    batch.handle(WriterEvent::Query(stored(2)));
    let last = batch.handle(WriterEvent::Shutdown);
    assert!(last.stop);
    assert_eq!(last.write.len(), 1);
    assert!(batch.handle(WriterEvent::Closed).stop);
}

fn decide(allow: bool, deny: bool, allow_pattern: bool, deny_pattern: bool, gravity: bool) -> BlockingDecision {
    let mut check = Check::Allow;
    loop {
        let yes = match check {
            Check::Allow => allow,
            Check::Deny => deny,
            Check::AllowPattern => allow_pattern,
            Check::DenyPattern => deny_pattern,
            Check::Gravity => gravity,
        };
        match next_step(check, yes, 7) {
            Step::Ask(next) => check = next,
            Step::Decided(d) => return d,
        }
    }
}

#[test]
fn the_database_decides_in_order() {
    assert_eq!(decide(true, true, true, true, true), BlockingDecision::Allowlisted);
    assert!(matches!(decide(false, true, true, true, true), BlockingDecision::Blocked(_)));
    assert_eq!(decide(false, false, true, true, true), BlockingDecision::Allowlisted);
    assert_eq!(decide(false, false, false, true, true), BlockingDecision::BlockedByRegex(7));
    assert!(decide(false, false, false, false, true).is_blocked());
    assert_eq!(decide(false, false, false, false, false), BlockingDecision::NotBlocked);
}

#[test]
fn patterns_of_the_database() {
    assert!(domain_matches_pattern("sub.example.com", "*.example.com"));
    assert!(!domain_matches_pattern("notexample.com", "*.example.com"));
    assert!(domain_matches_pattern("example.com", "example.com"));
    assert!(domain_matches_pattern("tracker.a.com", "/^tracker/"));
    assert!(!domain_matches_pattern("a.tracker.com", "/^tracker/"));
    let list = vec!["*.a.com".to_string(), "b.com".to_string()];
    assert!(matches_any_pattern("b.com", &list));
    assert!(!matches_any_pattern("c.com", &list));
    let numbered = vec![
        NumberedPattern { id: 4, pattern: "*.a.com".into() },
        NumberedPattern { id: 5, pattern: "/a/".into() },
    ];
    assert_eq!(first_matching_pattern("x.a.com", &numbered), Some(4));
    assert_eq!(first_matching_pattern("xa.net", &numbered), Some(5));
    assert_eq!(first_matching_pattern("x.net", &numbered), None);
}

#[test]
fn updates_name_only_what_is_given() {
    assert!(update_domainlist(3, None, None, None, 99).is_none());
    let (sql, values) = update_domainlist(3, Some("a.com"), Some(false), None, 99).unwrap();
    assert!(sql.contains("domain"));
    assert!(sql.contains("enabled"));
    assert!(!sql.contains("comment"));
    assert_eq!(values.len(), 4);
    assert_eq!(page_offset(3, 10), 20);
    assert_eq!(page_offset(0, 10), 0);
}

#[test]
fn old_queries_go_where_they_are_logged_for_a_time() {
    assert!(retention_due(true, 1));
    assert!(!retention_due(true, 0));
    assert!(!retention_due(false, 1));
    assert!(!retention_due(false, 0));
}
