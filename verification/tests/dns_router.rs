use hickory_proto::op::{Edns, Message, OpCode, Query, ResponseCode};
use hickory_proto::rr::rdata::A;
use hickory_proto::rr::{Name, RData, Record, RecordType};
use nimbusdns::address::{ipv4, IpAddr};
use nimbusdns::blocking::lists::{BlockingEngine, GravityRows};
use nimbusdns::config::BlockingMode;
use nimbusdns::database::status::QueryStatus;
use nimbusdns::dns::cache::SECOND;
use nimbusdns::dns::rate_limit::RateLimiter;
use nimbusdns::dns::reply::QueryResult;
use nimbusdns::dns::router::{
    log_query, log_query_at, Attempts, Forwarding, QueryNote, QueryRouter, RouteSettings, RouteStep,
};
use nimbusdns::over_time::OverTime;

const CLIENT: IpAddr = IpAddr::V4(0x0a00_0001);
const START: u64 = 1000 * SECOND;

fn rows(gravity: &[&str]) -> GravityRows {
    GravityRows {
        allow: vec![],
        deny: vec![],
        allow_patterns: vec![],
        deny_patterns: vec![],
        gravity: gravity.iter().map(|d| d.to_string()).collect(),
        adlist_count: 0,
    }
}

fn router(gravity: &[&str], limit: u32) -> QueryRouter {
    let engine = BlockingEngine::load(&rows(gravity), BlockingMode::Null);
    QueryRouter::new(100, limit, engine, START)
}

fn settings(mode: BlockingMode) -> RouteSettings {
    RouteSettings { blocking_mode: mode, blocking_ip: IpAddr::V4(0) }
}

fn query(id: u16, domain: &str) -> Vec<u8> {
    let mut msg = Message::query();
    msg.metadata.id = id;
    msg.add_query(Query::query(Name::from_utf8(domain).unwrap(), RecordType::A));
    msg.to_vec().unwrap()
}

fn response(id: u16, domain: &str, ttl: u32) -> Vec<u8> {
    let mut msg = Message::response(id, OpCode::Query);
    msg.add_query(Query::query(Name::from_utf8(domain).unwrap(), RecordType::A));
    msg.add_answer(Record::from_rdata(
        Name::from_utf8(domain).unwrap(),
        ttl,
        RData::A(A::new(1, 2, 3, 4)),
    ));
    msg.to_vec().unwrap()
}

fn forwarding(step: RouteStep) -> Forwarding {
    match step {
        RouteStep::Forward(f) => f,
        other => panic!("expected Forward, got {:?}", other),
    }
}

fn answer(step: RouteStep) -> (Message, Option<QueryNote>) {
    match step {
        RouteStep::Answer(QueryResult::Response(b), note) => (Message::from_vec(&b).unwrap(), note),
        other => panic!("expected Answer, got {:?}", other),
    }
}

#[test]
fn garbage_is_ignored() {
    let mut r = router(&[], 10);
    assert!(matches!(r.route(settings(BlockingMode::Null), &[1, 2], CLIENT, START), RouteStep::Ignore));
}

#[test]
fn query_without_question_is_a_format_error_and_not_logged() {
    let mut r = router(&[], 0);
    let empty = Message::query().to_vec().unwrap();
    let (msg, note) = answer(r.route(settings(BlockingMode::Null), &empty, CLIENT, START));
    assert_eq!(msg.metadata.response_code, ResponseCode::FormErr);
    assert!(note.is_none());
}

#[test]
fn blocked_query_is_answered_here() {
    let mut r = router(&["ads.example.com"], 10);
    let q = query(77, "ads.example.com");
    let (msg, note) = answer(r.route(settings(BlockingMode::Null), &q, CLIENT, START));
    assert_eq!(msg.metadata.id, 77);
    assert_eq!(msg.queries.len(), 1);
    assert_eq!(msg.answers.len(), 1);
    let note = note.unwrap();
    assert_eq!(note.status, QueryStatus::Blocked);
    assert_eq!(note.domain, "ads.example.com.");
    assert_eq!(note.qtype, 1);
    // With blocking disabled the same query is forwarded.
    let f = forwarding(r.route(settings(BlockingMode::Disabled), &q, CLIENT, START));
    assert_eq!(f.key.domain, "ads.example.com.");
    assert_eq!(f.started, START);
}

#[test]
fn client_over_the_limit_is_refused() {
    let mut r = router(&["ads.example.com"], 1);
    let q = query(5, "ads.example.com");
    assert!(matches!(r.route(settings(BlockingMode::Null), &q, CLIENT, START), RouteStep::Answer(..)));
    let (msg, note) = answer(r.route(settings(BlockingMode::Null), &q, CLIENT, START + 1));
    assert_eq!(msg.metadata.response_code, ResponseCode::Refused);
    assert_eq!(msg.queries.len(), 1);
    assert_eq!(note.unwrap().status, QueryStatus::RateLimited);
}

#[test]
fn forwarded_answer_is_cached_and_served_again() {
    let mut r = router(&[], 100);
    let q = query(1, "Example.com");
    let f = forwarding(r.route(settings(BlockingMode::Null), &q, CLIENT, START));
    assert_eq!(f.key.domain, "example.com.");
    assert!(!f.key.dnssec_ok);
    let up = response(1, "Example.com", 60);
    let (result, note) = r.finish(f, &q, Some(&up), START + 2 * SECOND);
    assert!(matches!(result, QueryResult::Response(_)));
    assert_eq!(note.status, QueryStatus::Forwarded);
    assert_eq!(r.cache.len(), 1);

    // Ten seconds later, in another spelling: the same answer, aged.
    let again = query(0x4321, "eXample.com");
    let (msg, note) =
        answer(r.route(settings(BlockingMode::Null), &again, CLIENT, START + 12 * SECOND));
    assert_eq!(msg.metadata.id, 0x4321);
    assert_eq!(msg.answers[0].ttl, 50);
    assert_eq!(note.unwrap().status, QueryStatus::Cached);

    // The entry lives for what was left of the minute, 58 seconds.
    let late = START + 60 * SECOND + 1;
    let step = r.route(settings(BlockingMode::Null), &again, CLIENT, late);
    assert!(matches!(step, RouteStep::Forward(_)));
    assert_eq!(r.cache.len(), 0);
}

#[test]
fn security_mark_is_part_of_the_key() {
    let mut r = router(&[], 100);
    let mut msg = Message::query();
    msg.add_query(Query::query(Name::from_utf8("a.b").unwrap(), RecordType::A));
    let mut edns = Edns::new();
    edns.set_dnssec_ok(true);
    msg.set_edns(edns);
    let f = forwarding(r.route(settings(BlockingMode::Null), &msg.to_vec().unwrap(), CLIENT, START));
    assert!(f.key.dnssec_ok);
}

#[test]
fn failed_forwarding_is_a_server_failure() {
    let mut r = router(&[], 100);
    let q = query(9, "example.com");
    let f = forwarding(r.route(settings(BlockingMode::Null), &q, CLIENT, START));
    let (result, note) = r.finish(f, &q, None, START);
    assert_eq!(note.status, QueryStatus::Servfail);
    match result {
        QueryResult::Response(b) => {
            let msg = Message::from_vec(&b).unwrap();
            assert_eq!(msg.metadata.response_code, ResponseCode::ServFail);
            assert_eq!(msg.metadata.id, 9);
            assert_eq!(msg.queries.len(), 1);
        }
        other => panic!("expected Response, got {:?}", other),
    }
    assert_eq!(r.cache.len(), 0);
}

#[test]
fn server_failure_of_an_upstream_is_not_cached() {
    let mut r = router(&[], 100);
    let q = query(9, "example.com");
    let f = forwarding(r.route(settings(BlockingMode::Null), &q, CLIENT, START));
    let mut up = Message::response(9, OpCode::Query);
    up.metadata.response_code = ResponseCode::ServFail;
    let (result, note) = r.finish(f, &q, Some(&up.to_vec().unwrap()), START);
    assert!(matches!(result, QueryResult::Response(_)));
    assert_eq!(note.status, QueryStatus::Forwarded);
    assert_eq!(r.cache.len(), 0);
}

#[test]
fn slow_answer_is_not_cached_beyond_its_time() {
    let mut r = router(&[], 100);
    let q = query(9, "example.com");
    let f = forwarding(r.route(settings(BlockingMode::Null), &q, CLIENT, START));
    let up = response(9, "example.com", 3);
    r.finish(f, &q, Some(&up), START + 3 * SECOND);
    assert_eq!(r.cache.len(), 0);
}

#[test]
fn test_forward_attempt_bounded_by_overall_deadline() {
    let overall = 300_000_000;
    let mut attempts = Attempts::start(2, SECOND, overall, START);
    assert_eq!(attempts.step(START), Some((0, overall)));
    assert_eq!(attempts.step(START + overall), None, "overall deadline must bound the attempt");
}

#[test]
fn attempts_are_bounded_by_the_deadline() {
    let mut a = Attempts::start(3, SECOND, 1_500_000_000, START);
    assert_eq!(a.step(START), Some((0, SECOND)));
    assert_eq!(a.step(START + SECOND), Some((1, 500_000_000)));
    assert_eq!(a.step(START + 1_500_000_000), None);
    let mut b = Attempts::start(1, SECOND, 5 * SECOND, START);
    assert_eq!(b.step(START), Some((0, SECOND)));
    assert_eq!(b.step(START + 1), None);
}

#[test]
fn log_entries_hold_what_was_noted() {
    let mut counts = OverTime::new();
    let note = QueryNote {
        domain: "example.com.".to_string(),
        qtype: 28,
        status: QueryStatus::Cached,
    };
    let entry = log_query_at(&mut counts, true, &note, "10.0.0.1", 2_999_999, 1_700_000_000).unwrap();
    assert_eq!(entry.timestamp, 1_700_000_000);
    assert_eq!(entry.domain, "example.com.");
    assert_eq!(entry.client.as_deref(), Some("10.0.0.1"));
    assert_eq!(entry.query_type, 28);
    assert_eq!(entry.status, QueryStatus::Cached);
    assert_eq!(entry.elapsed_ms, Some(2));
    assert_eq!(counts.total_queries(), 1);
    assert!(log_query(&mut counts, false, &note, "10.0.0.1", 5).is_none());
    assert_eq!(counts.total_queries(), 2);
}

#[test]
fn test_rate_limiter_allows_then_blocks_per_client() {
    let mut limiter = RateLimiter::new(2, START);
    let client = IpAddr::V4(ipv4(10, 0, 0, 1));
    assert!(!limiter.is_rate_limited(client, START), "1st within window");
    assert!(!limiter.is_rate_limited(client, START), "2nd within window");
    assert!(limiter.is_rate_limited(client, START), "3rd within window must be limited");
    let other = IpAddr::V4(ipv4(10, 0, 0, 2));
    assert!(!limiter.is_rate_limited(other, START));
}

#[test]
fn test_rate_limiter_single_slot() {
    let mut limiter = RateLimiter::new(1, START);
    let client = IpAddr::V4(ipv4(10, 0, 0, 1));
    assert!(!limiter.is_rate_limited(client, START));
    assert!(limiter.is_rate_limited(client, START));
}

#[test]
fn rate_window_starts_anew_after_a_second() {
    let mut limiter = RateLimiter::new(1, START);
    assert!(!limiter.is_rate_limited(CLIENT, START));
    assert!(limiter.is_rate_limited(CLIENT, START + SECOND));
    assert!(!limiter.is_rate_limited(CLIENT, START + SECOND + 1));
    // After the clean-up of a minute the client is new again.
    assert!(!limiter.is_rate_limited(CLIENT, START + 100 * SECOND));
    // An address of the other kind with the same number is another client.
    assert!(!limiter.is_rate_limited(IpAddr::V6(0x0a00_0001), START + 100 * SECOND));
}

#[test]
fn the_limit_holds_in_every_window() {
    let max = 3;
    let mut limiter = RateLimiter::new(max, START);
    let others = [IpAddr::V4(ipv4(10, 0, 0, 9)), IpAddr::V6(7)];
    for window in 0..80u64 {
        let start = START + window * (SECOND + 1);
        for n in 1..=6u32 {
            let now = start + n as u64 * (SECOND / 6) - SECOND / 6;
            assert_eq!(limiter.is_rate_limited(CLIENT, now), n > max, "query {n} of {window}");
            for other in others {
                limiter.is_rate_limited(other, now);
            }
        }
    }
}
