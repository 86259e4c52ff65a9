use hickory_proto::op::{Message, OpCode, Query, ResponseCode};
use hickory_proto::rr::rdata::{A, SOA};
use hickory_proto::rr::{Name, RData, Record, RecordType};
use nimbusdns::address::{ipv4, IpAddr};
use nimbusdns::config::BlockingMode;
use nimbusdns::dns::message::{
    DnsRecord, EdnsInfo, MessageHead, MessageRecords, Question, FORMERR, NOERROR, NXDOMAIN, REFUSED,
    SERVFAIL, TYPE_A, TYPE_AAAA, TYPE_SOA,
};
use nimbusdns::dns::reply::{
    blocking_applies, cache_ttl_secs, decrement_ttls, make_bare_error, make_blocked_response,
    make_error_response, serve_cached, set_id, truncate_if_needed, QueryResult,
};
use nimbusdns::dns::router::response_ttl;

fn query_of(id: u16, domain: &str, qtype: RecordType) -> Vec<u8> {
    let mut msg = Message::query();
    msg.metadata.id = id;
    msg.metadata.recursion_desired = true;
    msg.add_query(Query::query(Name::from_utf8(domain).unwrap(), qtype));
    msg.to_vec().unwrap()
}

fn labels(domain: &str) -> Vec<Vec<u8>> {
    domain.split('.').map(|l| l.as_bytes().to_vec()).collect()
}

fn head_of(id: u16, domain: &str, qtype: u16) -> MessageHead {
    MessageHead {
        id,
        response_code: 0,
        truncated: false,
        recursion_desired: true,
        recursion_available: false,
        questions: vec![Question { name: labels(domain), qtype, qclass: 1 }],
        edns: None,
    }
}

fn decode_response(result: QueryResult) -> Message {
    match result {
        QueryResult::Response(bytes) => Message::from_vec(&bytes).unwrap(),
        _ => panic!("expected Response, got {:?}", result),
    }
}

fn blocked(id: u16, mode: BlockingMode, qtype: RecordType, ip: IpAddr) -> Message {
    let q = query_of(id, "blocked.test", qtype);
    let head = head_of(id, "blocked.test", qtype.into());
    decode_response(make_blocked_response(id, &q, &head, mode, qtype.into(), ip))
}

const NULL4: IpAddr = IpAddr::V4(0);
const DB8_1: u128 = 0x2001_0db8_0000_0000_0000_0000_0000_0001;

#[test]
fn test_blocking_applies_mode() {
    assert!(blocking_applies(BlockingMode::Null));
    assert!(blocking_applies(BlockingMode::Nxdomain));
    assert!(blocking_applies(BlockingMode::Refused));
    assert!(blocking_applies(BlockingMode::Nodata));
    assert!(blocking_applies(BlockingMode::Ip));
    assert!(!blocking_applies(BlockingMode::Disabled));
}

fn soa_record(ttl: u32) -> Record {
    Record::from_rdata(
        Name::from_utf8("example.com").unwrap(),
        ttl,
        RData::SOA(SOA::new(
            Name::from_utf8("ns1.example.com").unwrap(),
            Name::from_utf8("hostmaster.example.com").unwrap(),
            1,
            3600,
            600,
            86400,
            ttl,
        )),
    )
}

fn a_record(name: &str, ttl: u32, a: u8, b: u8, c: u8, d: u8) -> Record {
    Record::from_rdata(Name::from_utf8(name).unwrap(), ttl, RData::A(A::new(a, b, c, d)))
}

#[test]
fn test_cache_ttl_uses_soa_on_negative() {
    let mut msg = Message::response(1, OpCode::Query);
    msg.metadata.response_code = ResponseCode::NXDomain;
    msg.add_authority(soa_record(300));
    assert_eq!(response_ttl(&msg.to_vec().unwrap()), Some(300), "NXDOMAIN should use SOA TTL");

    let mut nodata = Message::response(1, OpCode::Query);
    nodata.metadata.response_code = ResponseCode::NoError;
    nodata.add_authority(soa_record(120));
    assert_eq!(response_ttl(&nodata.to_vec().unwrap()), Some(120), "NODATA should use SOA TTL");
}

#[test]
fn test_cache_ttl_servfail_not_cached() {
    let mut msg = Message::response(1, OpCode::Query);
    msg.metadata.response_code = ResponseCode::ServFail;
    assert_eq!(response_ttl(&msg.to_vec().unwrap()), Some(0), "SERVFAIL must not be cached");
}

#[test]
fn test_cache_ttl_positive_uses_min_answer() {
    let mut msg = Message::response(1, OpCode::Query);
    msg.add_answer(a_record("example.com", 300, 1, 2, 3, 4));
    msg.add_answer(a_record("example.com", 120, 5, 6, 7, 8));
    assert_eq!(response_ttl(&msg.to_vec().unwrap()), Some(120), "min answer TTL wins");
}

#[test]
fn test_cache_ttl_negative_without_soa_not_cached() {
    let mut msg = Message::response(1, OpCode::Query);
    msg.metadata.response_code = ResponseCode::NXDomain;
    assert_eq!(
        response_ttl(&msg.to_vec().unwrap()),
        Some(0),
        "negative response without SOA must not be cached"
    );
}

#[test]
fn response_ttl_of_garbage_is_none() {
    assert_eq!(response_ttl(&[1, 2, 3]), None);
}

#[test]
fn cache_ttl_ignores_authorities_that_start_nothing() {
    let record = |rtype: u16, ttl: u32| DnsRecord { name: labels("x.y"), rtype, ttl, address: None };
    let records = MessageRecords {
        answers: vec![],
        authorities: vec![record(2, 5), record(TYPE_SOA, 90), record(TYPE_SOA, 70), record(2, 1)],
        additionals: vec![],
    };
    assert_eq!(cache_ttl_secs(NXDOMAIN, &records), 70);
    assert_eq!(cache_ttl_secs(SERVFAIL, &records), 0);
    let with_answer = MessageRecords {
        answers: vec![record(TYPE_A, 400)],
        authorities: vec![record(TYPE_SOA, 70)],
        additionals: vec![],
    };
    assert_eq!(cache_ttl_secs(NOERROR, &with_answer), 400);
}

#[test]
fn test_decrement_ttls_all_sections() {
    let record = |name: &str, ttl: u32, ip: u32| DnsRecord {
        name: labels(name),
        rtype: TYPE_A,
        ttl,
        address: Some(IpAddr::V4(ip)),
    };
    let mut msg = MessageRecords {
        answers: vec![record("a.example.com", 100, ipv4(1, 2, 3, 4))],
        authorities: vec![record("ns.example.com", 200, ipv4(9, 9, 9, 9))],
        additionals: vec![record("ns.example.com", 300, ipv4(5, 6, 7, 8))],
    };
    decrement_ttls(&mut msg, 30);
    assert_eq!(msg.answers[0].ttl, 70, "answer TTL decremented");
    assert_eq!(msg.authorities[0].ttl, 170, "authority TTL decremented");
    assert_eq!(msg.additionals[0].ttl, 270, "additional TTL decremented");

    decrement_ttls(&mut msg, 1000);
    assert_eq!(msg.answers[0].ttl, 0);
    assert_eq!(msg.authorities[0].ttl, 0);
    assert_eq!(msg.additionals[0].ttl, 0);
    assert_eq!(msg.answers[0].name, labels("a.example.com"));
}

#[test]
fn test_error_response_echoes_question() {
    let q = query_of(7, "echo.example.com", RecordType::A);
    let resp = decode_response(make_error_response(42, &q, SERVFAIL));
    assert_eq!(resp.metadata.id, 42);
    assert_eq!(resp.metadata.response_code, ResponseCode::ServFail);
    assert_eq!(resp.queries.len(), 1, "error response must echo the question");
    assert_eq!(resp.queries[0].name().to_utf8().trim_end_matches('.'), "echo.example.com");
}

#[test]
fn error_response_carries_the_extension_record() {
    let q = query_of(7, "echo.example.com", RecordType::A);
    let resp = decode_response(make_error_response(7, &q, FORMERR));
    assert_eq!(resp.metadata.response_code, ResponseCode::FormErr);
    let edns = resp.edns.as_ref().unwrap();
    assert_eq!(edns.max_payload(), 4096);
    assert_eq!(edns.version(), 0);
    assert!(edns.flags().dnssec_ok);
    assert!(!resp.metadata.recursion_desired);
    assert!(!resp.metadata.recursion_available);
}

#[test]
fn error_response_to_garbage_is_a_failure() {
    assert!(matches!(make_error_response(1, &[0, 1], SERVFAIL), QueryResult::ServerFailure));
}

#[test]
fn test_null_a() {
    let resp = blocked(1234, BlockingMode::Null, RecordType::A, NULL4);
    assert_eq!(resp.metadata.id, 1234);
    assert_eq!(resp.metadata.response_code, ResponseCode::NoError);
    assert_eq!(resp.answers.len(), 1);
    let ans = &resp.answers[0];
    assert_eq!(ans.record_type(), RecordType::A);
    assert_eq!(ans.ttl, 2);
    if let RData::A(a) = &ans.data {
        assert_eq!(a.0.octets(), [0, 0, 0, 0]);
    } else {
        panic!("expected A record");
    }
    assert!(resp.metadata.recursion_desired);
    assert!(resp.metadata.recursion_available);
}

#[test]
fn test_null_aaaa() {
    let resp = blocked(1, BlockingMode::Null, RecordType::AAAA, IpAddr::V6(0));
    assert_eq!(resp.metadata.response_code, ResponseCode::NoError);
    assert_eq!(resp.answers.len(), 1);
    assert_eq!(resp.answers[0].record_type(), RecordType::AAAA);
}

#[test]
fn test_nxdomain() {
    let resp = blocked(1, BlockingMode::Nxdomain, RecordType::A, NULL4);
    assert_eq!(resp.metadata.response_code, ResponseCode::NXDomain);
    assert_eq!(resp.answers.len(), 0);
}

#[test]
fn test_refused() {
    let resp = blocked(1, BlockingMode::Refused, RecordType::A, NULL4);
    assert_eq!(resp.metadata.response_code, ResponseCode::Refused);
}

#[test]
fn test_nodata() {
    let resp = blocked(1, BlockingMode::Nodata, RecordType::A, NULL4);
    assert_eq!(resp.metadata.response_code, ResponseCode::NoError);
    assert_eq!(resp.answers.len(), 0);
}

#[test]
fn test_ip_a_v4() {
    let resp = blocked(1, BlockingMode::Ip, RecordType::A, IpAddr::V4(ipv4(192, 0, 2, 1)));
    assert_eq!(resp.metadata.response_code, ResponseCode::NoError);
    assert_eq!(resp.answers.len(), 1);
    if let RData::A(a) = &resp.answers[0].data {
        assert_eq!(a.0.octets(), [192, 0, 2, 1]);
    } else {
        panic!("expected A record");
    }
}

#[test]
fn test_ip_aaaa_v6() {
    let resp = blocked(1, BlockingMode::Ip, RecordType::AAAA, IpAddr::V6(DB8_1));
    assert_eq!(resp.metadata.response_code, ResponseCode::NoError);
    assert_eq!(resp.answers.len(), 1);
    if let RData::AAAA(a) = &resp.answers[0].data {
        assert_eq!(a.0.segments(), [0x2001, 0xdb8, 0, 0, 0, 0, 0, 1]);
    } else {
        panic!("expected AAAA record");
    }
}

#[test]
fn test_ip_family_mismatch_a_v6() {
    let resp = blocked(1, BlockingMode::Ip, RecordType::A, IpAddr::V6(DB8_1));
    assert_eq!(resp.metadata.response_code, ResponseCode::NoError);
    assert_eq!(resp.answers.len(), 1);
    if let RData::A(a) = &resp.answers[0].data {
        assert_eq!(a.0.octets(), [0, 0, 0, 0]);
    } else {
        panic!("expected A record (NULL fallback)");
    }
}

#[test]
fn blocked_query_for_another_type_has_no_answer() {
    let resp = blocked(1, BlockingMode::Null, RecordType::TXT, NULL4);
    assert_eq!(resp.metadata.response_code, ResponseCode::NoError);
    assert_eq!(resp.answers.len(), 0);
    let resp = blocked(1, BlockingMode::Ip, RecordType::AAAA, IpAddr::V4(ipv4(192, 0, 2, 1)));
    if let RData::AAAA(a) = &resp.answers[0].data {
        assert_eq!(a.0.segments(), [0; 8]);
    } else {
        panic!("expected AAAA record");
    }
}

#[test]
fn test_truncation_uses_client_payload() {
    let mut msg = Message::response(1, OpCode::Query);
    for i in 0..40 {
        msg.add_answer(a_record(&format!("r{i}.example.com"), 300, i as u8, 0, 0, 1));
    }
    let bytes = msg.to_vec().unwrap();
    assert!(bytes.len() > 512, "test response must exceed 512 bytes");
    let cut = truncate_if_needed(&bytes, 512).unwrap();
    let read = Message::from_vec(&cut).unwrap();
    assert!(read.metadata.truncation);
    assert_eq!(read.metadata.id, 1);
    assert!(read.answers.is_empty());
    assert!(truncate_if_needed(&bytes, 4096).is_none());
    // A client that says less than 512 is taken to say 512.
    assert!(truncate_if_needed(&bytes, 0).is_some());
    assert!(truncate_if_needed(&[1, 2, 3], 512).is_none());
}

#[test]
fn cached_answer_ages_and_gets_the_identifier() {
    let mut msg = Message::response(1, OpCode::Query);
    msg.add_query(Query::query(Name::from_utf8("a.example.com").unwrap(), RecordType::A));
    msg.add_answer(a_record("a.example.com", 100, 1, 2, 3, 4));
    msg.add_authority(a_record("ns.example.com", 20, 9, 9, 9, 9));
    let bytes = msg.to_vec().unwrap();

    let fresh = serve_cached(bytes.clone(), 0x1234, 0);
    assert_eq!(fresh[..2], [0x12, 0x34]);
    assert_eq!(fresh[2..], bytes[2..]);

    let aged = Message::from_vec(&serve_cached(bytes, 0xabcd, 30)).unwrap();
    assert_eq!(aged.metadata.id, 0xabcd);
    assert_eq!(aged.answers[0].ttl, 70);
    assert_eq!(aged.authorities[0].ttl, 0);
}

#[test]
fn unreadable_cached_bytes_only_get_the_identifier() {
    assert_eq!(serve_cached(vec![9, 9, 9], 0x0102, 5), vec![1, 2, 9]);
    assert_eq!(serve_cached(vec![9], 0x0102, 5), vec![9]);
    let mut short = vec![7u8];
    set_id(&mut short, 5);
    assert_eq!(short, vec![7]);
}

#[test]
fn bare_errors_are_what_the_message_crate_writes() {
    for (code, rcode) in [(SERVFAIL, ResponseCode::ServFail), (REFUSED, ResponseCode::Refused)] {
        let expected = Message::error_msg(0xbeef, OpCode::Query, rcode).to_vec().unwrap();
        assert_eq!(make_bare_error(0xbeef, code), expected);
    }
}

#[test]
fn heads_are_plain_values() {
    let head = head_of(5, "a.b", TYPE_AAAA);
    assert_eq!(head.questions[0].name, vec![b"a".to_vec(), b"b".to_vec()]);
    let e = EdnsInfo { version: 0, dnssec_ok: true, max_payload: 1232 };
    assert_eq!(e.max_payload, 1232);
}
