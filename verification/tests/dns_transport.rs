use hickory_proto::op::{Edns, Message, OpCode, Query};
use hickory_proto::rr::{Name, RData, Record, RecordType};
use nimbusdns::address::IpAddr;
use nimbusdns::config::DnsUpstream;
use nimbusdns::dns::dot::{
    dot_frame, query_result, relabel, response_length, DotError, DotPipeline, DotWait, IdSource,
};
use nimbusdns::dns::dot_task::{DotEvent, DotNext, DotTask};
use nimbusdns::dns::forwarder::{
    accept_response, outgoing_query, response_has_tc, udp_response_suffices,
    validate_response_question, ForwardError, SocketPool,
};
use nimbusdns::dns::frame::{checked_length, frame, length_of, MAX_DNS_SIZE};
use nimbusdns::dns::listener::{
    needs_truncation, query_origin, tcp_reply, udp_reply, QueryLimiter,
};
use nimbusdns::dns::message::{MessageHead, Question};
use nimbusdns::dns::reply::QueryResult;

fn make_query(name: &str, qtype: RecordType) -> Message {
    let mut msg = Message::query();
    msg.add_query(Query::query(Name::from_utf8(name).unwrap(), qtype));
    msg
}

fn make_response_like(query: &Message) -> Message {
    let mut msg = Message::response(query.metadata.id, OpCode::Query);
    for q in &query.queries {
        msg.add_query(q.clone());
    }
    msg
}

fn accept(q: &Message, r: &Message) -> Result<(), ForwardError> {
    accept_response(&q.to_vec().unwrap(), &r.to_vec().unwrap())
}

#[test]
fn test_question_match_ok() {
    let q = make_query("example.com", RecordType::A);
    let r = make_response_like(&q);
    assert!(accept(&q, &r).is_ok());
}

#[test]
fn test_question_mismatch_name() {
    let q = make_query("example.com", RecordType::A);
    let r = make_response_like(&make_query("other.com", RecordType::A));
    assert_eq!(accept(&q, &r).unwrap_err().message(), "Response question does not match query");
}

#[test]
fn test_question_mismatch_type() {
    let q = make_query("example.com", RecordType::A);
    let r = make_response_like(&make_query("example.com", RecordType::AAAA));
    assert!(accept(&q, &r).is_err());
}

#[test]
fn test_query_no_question() {
    let q = Message::query();
    let r = make_response_like(&make_query("x.com", RecordType::A));
    assert!(accept(&q, &r).is_err());
}

#[test]
fn test_response_no_question() {
    let q = make_query("x.com", RecordType::A);
    let r = Message::response(0, OpCode::Query);
    assert!(accept(&q, &r).is_err());
}

#[test]
fn test_cname_response_ok() {
    let q = make_query("example.com", RecordType::A);
    let r = make_response_like(&q);
    assert!(accept(&q, &r).is_ok());
}

#[test]
fn question_matches_in_any_case() {
    let q = make_query("Example.COM", RecordType::A);
    let r = make_response_like(&make_query("eXAMPLE.com", RecordType::A));
    assert!(accept(&q, &r).is_ok());
}

#[test]
fn unreadable_response_is_a_decoding_error() {
    let q = make_query("example.com", RecordType::A).to_vec().unwrap();
    match accept_response(&q, &[1, 2, 3]) {
        Err(ForwardError::Decode(m)) => {
            assert!(!m.is_empty());
            assert_eq!(ForwardError::Decode(m.clone()).message(), format!("Response decoding failed: {m}"));
        }
        other => panic!("expected Decode, got {:?}", other),
    }
    match outgoing_query(&[1, 2, 3]) {
        Err(ForwardError::Encode(m)) => {
            assert_eq!(ForwardError::Encode(m.clone()).message(), format!("Query encoding failed: {m}"));
        }
        other => panic!("expected Encode, got {:?}", other),
    }
    assert_eq!(outgoing_query(&q).unwrap(), q);
}

#[test]
fn forward_errors_have_their_texts() {
    assert_eq!(ForwardError::Io("refused".into()).message(), "I/O error: refused");
    assert_eq!(ForwardError::Timeout.message(), "Timeout");
    assert_eq!(ForwardError::Dot("x".into()).message(), "DoT error: x");
    assert_eq!(ForwardError::NotInitialized.message(), "Forwarder not initialized");
}

#[test]
fn test_response_has_tc_bit_detection() {
    let q = make_query("example.com", RecordType::A);
    let r = make_response_like(&q);
    let bytes = r.to_vec().unwrap();
    assert!(udp_response_suffices(Some(&bytes)));
    let truncated = r.truncate().to_vec().unwrap();
    assert!(!udp_response_suffices(Some(&truncated)));
    assert!(!udp_response_suffices(Some(&[1, 2])));
    assert!(!udp_response_suffices(None));
    let mut head = MessageHead {
        id: 1,
        response_code: 0,
        truncated: false,
        recursion_desired: false,
        recursion_available: false,
        questions: vec![],
        edns: None,
    };
    assert!(!response_has_tc(&head));
    head.truncated = true;
    assert!(response_has_tc(&head));
}

#[test]
fn questions_are_compared_label_by_label() {
    let head = |labels: &[&str], qtype: u16| MessageHead {
        id: 1,
        response_code: 0,
        truncated: false,
        recursion_desired: false,
        recursion_available: false,
        questions: vec![Question {
            name: labels.iter().map(|l| l.as_bytes().to_vec()).collect(),
            qtype,
            qclass: 1,
        }],
        edns: None,
    };
    assert!(validate_response_question(&head(&["a", "b"], 1), &head(&["A", "B"], 1)).is_ok());
    assert!(validate_response_question(&head(&["a", "b"], 1), &head(&["ab"], 1)).is_err());
    assert!(validate_response_question(&head(&["a"], 1), &head(&["a"], 28)).is_err());
    // Only letters have two cases.
    assert!(validate_response_question(&head(&["@"], 1), &head(&["`"], 1)).is_err());
}

#[test]
fn test_socket_pool_reuses_sockets() {
    let mut pool: SocketPool<&str> = SocketPool::new();
    assert_eq!(pool.acquire(), None, "an empty pool has no socket");
    pool.release("first");
    assert_eq!(pool.acquire(), Some("first"), "socket should be reused from pool");
}

#[test]
fn test_socket_pool_bounds_concurrent() {
    let mut pool: SocketPool<&str> = SocketPool::new();
    pool.release("a");
    pool.release("b");
    assert_eq!(pool.acquire(), Some("a"), "pool should hand back a released socket");
    assert_eq!(pool.acquire(), Some("b"));
    assert_eq!(pool.acquire(), None);
}

#[test]
fn test_read_dns_message_ok() {
    let wire = [0x00, 0x02, 0xAB, 0xCD];
    let len = checked_length(wire[0], wire[1]).unwrap();
    assert_eq!(wire[2..2 + len], [0xAB, 0xCD]);
}

#[test]
fn test_read_dns_message_rejects_bad_length() {
    assert!(checked_length(0x00, 0x00).is_none(), "zero-length DNS message must be rejected");
}

#[test]
fn socket_pool_hands_the_oldest_back() {
    let mut pool: SocketPool<u32> = SocketPool::new();
    assert_eq!(pool.acquire(), None);
    pool.release(7);
    pool.release(8);
    assert_eq!(pool.acquire(), Some(7));
    pool.release(9);
    assert_eq!(pool.acquire(), Some(8));
    assert_eq!(pool.acquire(), Some(9));
    assert_eq!(pool.acquire(), None);
}

#[test]
fn test_needs_truncation_logic() {
    assert!(!needs_truncation(512, 512));
    assert!(!needs_truncation(100, 4096));
    assert!(needs_truncation(600, 512));
    assert!(needs_truncation(4097, 4096));
}

#[test]
fn test_udp_fast_path_skips_parse_for_small() {
    assert!(!needs_truncation(512, 4096));
    assert!(!needs_truncation(512, 512));
}

#[test]
fn test_query_limiter_bounds_concurrency() {
    let mut limiter = QueryLimiter::new(2);
    assert!(limiter.try_acquire(), "first permit");
    assert!(limiter.try_acquire(), "second permit");
    assert!(!limiter.try_acquire(), "limit of 2 must be enforced");
    limiter.release();
    assert!(limiter.try_acquire());
    limiter.release();
}

#[test]
fn test_query_limiter_zero_becomes_one() {
    let mut limiter = QueryLimiter::new(0);
    assert!(limiter.try_acquire());
    assert!(!limiter.try_acquire());
}

#[test]
fn frames_are_read_back() {
    let f = frame(&[0xab, 0xcd]);
    assert_eq!(f, vec![0x00, 0x02, 0xab, 0xcd]);
    assert_eq!(length_of(f[0], f[1]), 2);
    assert_eq!(checked_length(f[0], f[1]), Some(2));
    let long = frame(&vec![1u8; 0x1234]);
    assert_eq!(&long[..3], &[0x12, 0x34, 1]);
    assert_eq!(checked_length(0, 0), None);
    assert_eq!(checked_length(0x10, 0x00), Some(MAX_DNS_SIZE));
    assert_eq!(checked_length(0x10, 0x01), None);
}

#[test]
fn client_payload_comes_from_the_query() {
    let mut q = make_query("a.b", RecordType::A);
    q.metadata.id = 31;
    assert_eq!(query_origin(&q.to_vec().unwrap()), Some((31, 512)));
    let mut edns = Edns::new();
    edns.set_max_payload(1232);
    q.set_edns(edns);
    assert_eq!(query_origin(&q.to_vec().unwrap()), Some((31, 1232)));
    assert_eq!(query_origin(&[0]), None);
}

#[test]
fn results_become_datagrams_and_frames() {
    assert_eq!(udp_reply(QueryResult::Response(vec![1, 2, 3]), 9, 512), vec![1, 2, 3]);
    assert_eq!(
        udp_reply(QueryResult::ServerFailure, 0x0102, 512),
        vec![1, 2, 0x80, 2, 0, 0, 0, 0, 0, 0, 0, 0]
    );
    assert_eq!(
        tcp_reply(QueryResult::Refused, 0x0102),
        vec![0, 12, 1, 2, 0x80, 5, 0, 0, 0, 0, 0, 0, 0, 0]
    );
    let mut msg = Message::response(1, OpCode::Query);
    for i in 0..40u8 {
        msg.add_answer(Record::from_rdata(
            Name::from_utf8(format!("r{i}.example.com")).unwrap(),
            300,
            RData::A(hickory_proto::rr::rdata::A::new(i, 0, 0, 1)),
        ));
    }
    let bytes = msg.to_vec().unwrap();
    let cut = udp_reply(QueryResult::Response(bytes.clone()), 1, 512);
    assert!(Message::from_vec(&cut).unwrap().metadata.truncation);
    assert_eq!(udp_reply(QueryResult::Response(bytes.clone()), 1, 4096), bytes);
    // Too long and unreadable: sent as it is.
    assert_eq!(udp_reply(QueryResult::Response(vec![0; 600]), 1, 512).len() <= 600, true);
}

fn tls() -> DnsUpstream {
    DnsUpstream::Tls { address: IpAddr::V4(0x0808_0808), port: 853, hostname: "dns.google".into() }
}

#[test]
fn only_tls_upstreams_take_frames() {
    assert_eq!(dot_frame(&tls(), &[5, 6]).unwrap(), vec![0, 2, 5, 6]);
    let plain = DnsUpstream::Plain { address: IpAddr::V4(1), port: 53 };
    assert_eq!(
        dot_frame(&plain, &[5, 6]).unwrap_err().message(),
        "TLS handshake failed: Not a TLS upstream"
    );
    assert_eq!(DotError::Io("x".into()).message(), "I/O error: x");
    assert_eq!(DotError::ConnectionClosed.message(), "Connection closed");
    assert_eq!(DotError::Timeout.message(), "Timeout");
    assert_eq!(DotError::QueueFull.message(), "Queue full");
    assert_eq!(response_length(1, 0).unwrap(), 256);
    assert!(matches!(response_length(0, 0), Err(DotError::ConnectionClosed)));
    assert!(matches!(response_length(0x10, 1), Err(DotError::ConnectionClosed)));
}

#[test]
fn identifiers_follow_each_other() {
    let mut ids = IdSource::new();
    for want in 1..=65535u16 {
        assert_eq!(ids.next_conn_id(), want);
    }
    assert_eq!(ids.next_conn_id(), 0);
    assert_eq!(ids.next_conn_id(), 1);
}

#[test]
fn test_id_multiplexing() {
    let mut ids = IdSource::new();
    let mut p = DotPipeline::new();
    let mut send = |p: &mut DotPipeline, id: u16, token: u64| -> u16 {
        let conn_id = ids.next_conn_id();
        let (_, original) = relabel(frame(&[(id >> 8) as u8, id as u8, 9]), conn_id).unwrap();
        p.query_sent(conn_id, token, original);
        conn_id
    };
    let first = send(&mut p, 100, 1);
    let second = send(&mut p, 200, 2);
    let response = |id: u16| vec![(id >> 8) as u8, id as u8, 7];
    assert_eq!(p.response_received(response(second)), Some((2, vec![0, 200, 7])));
    assert_eq!(p.response_received(response(first)), Some((1, vec![0, 100, 7])));
}

#[test]
fn responses_come_back_under_their_identifiers() {
    let mut p = DotPipeline::new();
    let (f1, id1) = relabel(frame(&[0, 100, 7]), 1).unwrap();
    let (f2, id2) = relabel(frame(&[0, 200, 8]), 2).unwrap();
    assert_eq!(f1, vec![0, 3, 0, 1, 7]);
    assert_eq!((id1, id2), (100, 200));
    assert_eq!(&f2[2..4], &[0, 2]);
    assert_eq!(p.query_sent(1, 11, id1), (None, false));
    assert_eq!(p.query_sent(2, 22, id2), (None, false));
    // The second response comes first.
    assert_eq!(p.response_received(vec![0, 2, 9]), Some((22, vec![0, 200, 9])));
    assert_eq!(p.response_received(vec![0, 1, 9]), Some((11, vec![0, 100, 9])));
    assert_eq!(p.response_received(vec![0, 1, 9]), None);
    assert_eq!(p.response_received(vec![0]), None);
    assert!(relabel(vec![0, 1, 5], 1).is_none());
}

#[test]
fn a_sweep_is_due_every_sixty_four_queries() {
    let mut p = DotPipeline::new();
    for i in 1..=128u16 {
        let (_, due) = p.query_sent(i, i as u64, 0);
        assert_eq!(due, i % 64 == 0);
    }
    assert_eq!(p.waiting().len(), 128);
    p.forget(&vec![1, 2, 2, 500]);
    assert_eq!(p.waiting().len(), 126);
    let mut told = p.fail_all();
    told.sort();
    assert_eq!(told.first(), Some(&3));
    assert_eq!(told.len(), 126);
    assert!(p.waiting().is_empty());
}

#[test]
fn connection_keeper_handles_its_events() {
    let mut ids = IdSource::new();
    let mut task = DotTask::new();
    let step = task.handle(&mut ids, DotEvent::ConnectFailed);
    assert!(matches!(step.next, DotNext::Reconnect(5)));
    assert!(matches!(task.handle(&mut ids, DotEvent::Connected).next, DotNext::Wait));

    let step = task.handle(&mut ids, DotEvent::Query { token: 1, frame: vec![0, 1, 9] });
    assert_eq!(step.replies.len(), 1);
    assert!(matches!(step.replies[0], (1, Err(DotError::ConnectionClosed))));

    // The short frame has taken the identifier 1.
    let step = task.handle(&mut ids, DotEvent::Query { token: 2, frame: frame(&[0, 42, 5]) });
    match step.next {
        DotNext::Send { frame, conn_id, token, original_id } => {
            assert_eq!(frame, vec![0, 3, 0, 2, 5]);
            assert_eq!((conn_id, token, original_id), (2, 2, 42));
        }
        other => panic!("expected Send, got {:?}", other),
    }
    let sent = DotEvent::Sent { conn_id: 2, token: 2, original_id: 42 };
    assert!(task.handle(&mut ids, sent).replies.is_empty());
    let step = task.handle(&mut ids, DotEvent::Received(vec![0, 2, 6]));
    match &step.replies[0] {
        (2, Ok(b)) => assert_eq!(b, &vec![0, 42, 6]),
        other => panic!("expected the response, got {:?}", other),
    }

    task.handle(&mut ids, DotEvent::Sent { conn_id: 3, token: 3, original_id: 1 });
    let step = task.handle(&mut ids, DotEvent::Sent { conn_id: 3, token: 4, original_id: 1 });
    assert!(matches!(step.replies[0], (3, Err(DotError::ConnectionClosed))));
    let step = task.handle(&mut ids, DotEvent::SendFailed { token: 5, reason: "gone".into() });
    assert!(matches!(step.next, DotNext::Reconnect(0)));
    assert_eq!(step.replies.len(), 2);
    match &step.replies[0] {
        (5, Err(e)) => assert_eq!(e.message(), "I/O error: gone"),
        other => panic!("expected the error, got {:?}", other),
    }
    assert!(matches!(step.replies[1], (4, Err(DotError::ConnectionClosed))));

    task.handle(&mut ids, DotEvent::Sent { conn_id: 6, token: 6, original_id: 1 });
    let step = task.handle(&mut ids, DotEvent::ReadFailed);
    assert!(matches!(step.replies[0], (6, Err(DotError::ConnectionClosed))));
    assert!(matches!(task.handle(&mut ids, DotEvent::ChannelClosed).next, DotNext::Stop));
}

#[test]
fn waits_end_in_results() {
    assert!(matches!(query_result(DotWait::NotTaken), Err(DotError::QueueFull)));
    assert!(matches!(query_result(DotWait::TimedOut), Err(DotError::Timeout)));
    assert!(matches!(query_result(DotWait::Abandoned), Err(DotError::ConnectionClosed)));
    assert_eq!(query_result(DotWait::Answered(Ok(vec![1, 2]))).unwrap(), vec![1, 2]);
    let lost = query_result(DotWait::Answered(Err(DotError::Io("gone".into()))));
    assert_eq!(lost.unwrap_err().message(), "I/O error: gone");
}

#[test]
fn everybody_gets_the_own_answer() {
    let mut task = DotTask::new();
    let mut ids = IdSource::new();
    task.handle(&mut ids, DotEvent::Connected);
    let queries: Vec<Vec<u8>> =
        (0..200u16).map(|n| vec![(n / 3) as u8, 7, 9, n as u8]).collect();
    let mut on_the_wire = Vec::new();
    for (token, q) in queries.iter().enumerate() {
        let event = DotEvent::Query { token: token as u64, frame: frame(q) };
        match task.handle(&mut ids, event).next {
            DotNext::Send { frame, conn_id, token, original_id } => {
                on_the_wire.push(frame[2..].to_vec());
                task.handle(&mut ids, DotEvent::Sent { conn_id, token, original_id });
            }
            other => panic!("{other:?}"),
        }
    }
    // The answers come in another order, and hold what was asked.
    for sent in on_the_wire.iter().rev().step_by(2) {
        let step = task.handle(&mut ids, DotEvent::Received(sent.clone()));
        assert_eq!(step.replies.len(), 1);
        let (token, answer) = &step.replies[0];
        assert_eq!(answer.as_ref().unwrap(), &queries[*token as usize]);
    }
    // When the connection is lost, the others are told, and nobody gets an answer.
    let step = task.handle(&mut ids, DotEvent::ReadFailed);
    assert_eq!(step.replies.len(), 100);
    assert!(step.replies.iter().all(|(_, r)| matches!(r, Err(DotError::ConnectionClosed))));
    let step = task.handle(&mut ids, DotEvent::Received(on_the_wire[0].clone()));
    assert!(step.replies.is_empty());
}
