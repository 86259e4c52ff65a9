//! The replies that the server writes itself, and the changes it makes to those of others.

use crate::address::IpAddr;
use crate::config::BlockingMode;
use crate::dns::message::{
    self, cut, decoded_head, decoded_records, encoded_reply, plain_answer, retimed, rewritten,
    with_ttls, HeadView,
    reply_head, reply_records, same_id, MessageHead, MessageRecords, QuestionView, RecordView,
    RecordsView, ReplyPlan, NOERROR, NXDOMAIN, REFUSED, SERVFAIL, TYPE_A, TYPE_AAAA, TYPE_SOA,
};
use vstd::prelude::*;

verus! {

/// The longest datagram that the server says it takes.
pub const OWN_PAYLOAD: u16 = 4096;

/// Seconds that a client may keep the answer to a blocked query.
pub const BLOCKED_TTL: u32 = 2;

/// What becomes of a query.
#[derive(Debug)]
pub enum QueryResult {
    /// The bytes of the response.
    Response(Vec<u8>),
    /// The server failed.
    ServerFailure,
    /// The query was refused.
    Refused,
}

/// The contents of a `QueryResult`.
pub enum ResultView {
    Response(Seq<u8>),
    ServerFailure,
    Refused,
}

impl View for QueryResult {
    type V = ResultView;

    open spec fn view(&self) -> ResultView {
        match *self {
            QueryResult::Response(b) => ResultView::Response(b@),
            QueryResult::ServerFailure => ResultView::ServerFailure,
            QueryResult::Refused => ResultView::Refused,
        }
    }
}

/// Whether anything is blocked in the mode.
pub fn blocking_applies(mode: BlockingMode) -> (r: bool)
    ensures
        r == (mode != BlockingMode::Disabled),
{
    mode != BlockingMode::Disabled
}

/// The least time to live of the records; zero where there is none.
pub open spec fn least_ttl(s: Seq<RecordView>) -> u32
    decreases s.len(),
{
    if s.len() == 0 {
        0
    } else if s.len() == 1 {
        s[0].ttl
    } else {
        let before = least_ttl(s.drop_last());
        if s.last().ttl < before {
            s.last().ttl
        } else {
            before
        }
    }
}

/// The records that start an authority.
pub open spec fn soa_records(s: Seq<RecordView>) -> Seq<RecordView>
    decreases s.len(),
{
    if s.len() == 0 {
        Seq::empty()
    } else if s.last().rtype == TYPE_SOA {
        soa_records(s.drop_last()).push(s.last())
    } else {
        soa_records(s.drop_last())
    }
}

/// For how many seconds a response may be cached: a failure of the server not at all, an answer for
/// the least time to live of its records, a response without answer for that of its start of
/// authority.
pub open spec fn cache_ttl(response_code: u16, r: RecordsView) -> u32 {
    if response_code == SERVFAIL {
        0
    } else if r.answers.len() > 0 {
        least_ttl(r.answers)
    } else {
        least_ttl(soa_records(r.authorities))
    }
}

/// For how many seconds a response may be cached.
pub fn cache_ttl_secs(response_code: u16, records: &MessageRecords) -> (r: u32)
    ensures
        r == cache_ttl(response_code, records@),
{
    if response_code == SERVFAIL {
        return 0;
    }
    let ghost answers = records@.answers;
    if records.answers.len() > 0 {
        let mut least: u32 = records.answers[0].ttl;
        let mut i: usize = 1;
        proof {
            assert(answers.subrange(0, 1)[0] == records.answers@[0]@);
        }
        while i < records.answers.len()
            invariant
                1 <= i <= records.answers@.len(),
                answers == records@.answers,
                least == least_ttl(answers.subrange(0, i as int)),
            decreases records.answers@.len() - i,
        {
            proof {
                let longer = answers.subrange(0, i + 1);
                assert(longer.drop_last() =~= answers.subrange(0, i as int));
                assert(longer.last() == records.answers@[i as int]@);
            }
            if records.answers[i].ttl < least {
                least = records.answers[i].ttl;
            }
            i += 1;
        }
        assert(answers.subrange(0, answers.len() as int) =~= answers);
        return least;
    }
    let ghost auth = records@.authorities;
    let mut found: bool = false;
    let mut least: u32 = 0;
    let mut i: usize = 0;
    while i < records.authorities.len()
        invariant
            i <= records.authorities@.len(),
            auth == records@.authorities,
            found == (soa_records(auth.subrange(0, i as int)).len() > 0),
            least == least_ttl(soa_records(auth.subrange(0, i as int))),
        decreases records.authorities@.len() - i,
    {
        proof {
            let longer = auth.subrange(0, i + 1);
            assert(longer.drop_last() =~= auth.subrange(0, i as int));
            assert(longer.last() == records.authorities@[i as int]@);
            let before = soa_records(auth.subrange(0, i as int));
            assert(before.push(longer.last()).drop_last() =~= before);
        }
        if records.authorities[i].rtype == TYPE_SOA {
            if !found || records.authorities[i].ttl < least {
                least = records.authorities[i].ttl;
            }
            found = true;
        }
        i += 1;
    }
    assert(auth.subrange(0, auth.len() as int) =~= auth);
    least
}

/// A time to live after some seconds; it does not go below zero.
pub open spec fn aged_ttl(ttl: u32, elapsed: u32) -> u32 {
    if ttl >= elapsed {
        (ttl - elapsed) as u32
    } else {
        0
    }
}

/// The records after some seconds.
pub open spec fn aged(s: Seq<RecordView>, elapsed: u32) -> Seq<RecordView> {
    s.map_values(|r: RecordView| RecordView { ttl: aged_ttl(r.ttl, elapsed), ..r })
}

/// The records of all sections after some seconds.
pub open spec fn aged_records(r: RecordsView, elapsed: u32) -> RecordsView {
    RecordsView {
        answers: aged(r.answers, elapsed),
        authorities: aged(r.authorities, elapsed),
        additionals: aged(r.additionals, elapsed),
    }
}

fn age_section(s: &mut Vec<message::DnsRecord>, elapsed: u32)
    ensures
        message::record_views(final(s)@) == aged(message::record_views(old(s)@), elapsed),
{
    let ghost pre = s@;
    let mut i: usize = 0;
    while i < s.len()
        invariant
            i <= s@.len(),
            s@.len() == pre.len(),
            forall|k: int|
                0 <= k < i ==> (#[trigger] s@[k])@ == (RecordView {
                    ttl: aged_ttl(pre[k].ttl, elapsed),
                    ..pre[k]@
                }),
            forall|k: int| i <= k < pre.len() ==> #[trigger] s@[k] == pre[k],
        decreases s@.len() - i,
    {
        let ttl: u32 = s[i].ttl.saturating_sub(elapsed);
        let record: &mut message::DnsRecord = &mut s[i];
        record.ttl = ttl;
        i += 1;
    }
    assert(message::record_views(s@) =~= aged(message::record_views(pre), elapsed));
}

/// Takes some seconds off the time to live of every record of every section.
pub fn decrement_ttls(records: &mut MessageRecords, elapsed: u32)
    ensures
        final(records)@ == aged_records(old(records)@, elapsed),
{
    age_section(&mut records.answers, elapsed);
    age_section(&mut records.authorities, elapsed);
    age_section(&mut records.additionals, elapsed);
}

/// The reply that reports an error.
pub open spec fn error_plan(id: u16, response_code: u16) -> ReplyPlan {
    ReplyPlan {
        id,
        response_code,
        recursion_desired: false,
        recursion_available: false,
        answer: None,
        max_payload: OWN_PAYLOAD,
        dnssec_ok: true,
    }
}

/// The result that reports an error to a query.
pub open spec fn error_result(query: Seq<u8>, id: u16, response_code: u16) -> ResultView {
    match encoded_reply(query, error_plan(id, response_code)) {
        Some(b) => ResultView::Response(b),
        None => ResultView::ServerFailure,
    }
}

/// The result is a response in which a reader finds the plan and the questions.
pub open spec fn carries(r: ResultView, p: ReplyPlan, questions: Seq<QuestionView>) -> bool {
    r matches ResultView::Response(b) && decoded_head(b) == Some(reply_head(p, questions))
        && decoded_records(b) == Some(reply_records(p, questions))
}

/// Reports an error to a query: its questions are repeated, so that the client can match the
/// response.
pub fn make_error_response(id: u16, query: &[u8], response_code: u16) -> (r: QueryResult)
    ensures
        r@ == error_result(query@, id, response_code),
        decoded_head(query@) is Some && response_code < 16 && decoded_head(
            query@,
        )->0.questions.len() <= 100 ==> carries(
            r@,
            error_plan(id, response_code),
            decoded_head(query@)->0.questions,
        ),
{
    let plan = ReplyPlan {
        id,
        response_code,
        recursion_desired: false,
        recursion_available: false,
        answer: None,
        max_payload: OWN_PAYLOAD,
        dnssec_ok: true,
    };
    match message::encode_reply(query, &plan) {
        Some(b) => QueryResult::Response(b),
        None => QueryResult::ServerFailure,
    }
}

/// The address that a blocked query is answered with: the null address in mode `Null`, the
/// configured one in mode `Ip` (the null address where it is of the other kind), none in the other
/// modes and for other record types.
pub open spec fn blocked_address(mode: BlockingMode, qtype: u16, ip: IpAddr) -> Option<IpAddr> {
    if qtype == TYPE_A {
        match mode {
            BlockingMode::Null => Some(IpAddr::V4(0)),
            BlockingMode::Ip => match ip {
                IpAddr::V4(x) => Some(IpAddr::V4(x)),
                IpAddr::V6(_) => Some(IpAddr::V4(0)),
            },
            _ => None,
        }
    } else if qtype == TYPE_AAAA {
        match mode {
            BlockingMode::Null => Some(IpAddr::V6(0)),
            BlockingMode::Ip => match ip {
                IpAddr::V6(x) => Some(IpAddr::V6(x)),
                IpAddr::V4(_) => Some(IpAddr::V6(0)),
            },
            _ => None,
        }
    } else {
        None
    }
}

/// The response code of a blocked query.
pub open spec fn blocked_code(mode: BlockingMode) -> u16 {
    match mode {
        BlockingMode::Nxdomain => NXDOMAIN,
        BlockingMode::Refused => REFUSED,
        _ => NOERROR,
    }
}

/// The reply to a blocked query.
pub open spec fn blocked_plan(
    id: u16,
    head: HeadView,
    mode: BlockingMode,
    qtype: u16,
    ip: IpAddr,
) -> ReplyPlan {
    ReplyPlan {
        id,
        response_code: blocked_code(mode),
        recursion_desired: head.recursion_desired,
        recursion_available: true,
        answer: match blocked_address(mode, qtype, ip) {
            Some(a) => if head.questions.len() > 0 {
                Some((BLOCKED_TTL, a))
            } else {
                None
            },
            None => None,
        },
        max_payload: OWN_PAYLOAD,
        dnssec_ok: true,
    }
}

/// The result for a blocked query; a server failure where the reply cannot be written.
pub open spec fn blocked_result(
    query: Seq<u8>,
    id: u16,
    head: HeadView,
    mode: BlockingMode,
    qtype: u16,
    ip: IpAddr,
) -> ResultView {
    match encoded_reply(query, blocked_plan(id, head, mode, qtype, ip)) {
        Some(b) => ResultView::Response(b),
        None => error_result(query, id, SERVFAIL),
    }
}

fn address_for_blocked(mode: BlockingMode, qtype: u16, ip: IpAddr) -> (r: Option<IpAddr>)
    ensures
        r == blocked_address(mode, qtype, ip),
{
    if qtype == TYPE_A {
        match mode {
            BlockingMode::Null => Some(IpAddr::V4(0)),
            BlockingMode::Ip => match ip {
                IpAddr::V4(x) => Some(IpAddr::V4(x)),
                IpAddr::V6(_) => Some(IpAddr::V4(0)),
            },
            _ => None,
        }
    } else if qtype == TYPE_AAAA {
        match mode {
            BlockingMode::Null => Some(IpAddr::V6(0)),
            BlockingMode::Ip => match ip {
                IpAddr::V6(x) => Some(IpAddr::V6(x)),
                IpAddr::V4(_) => Some(IpAddr::V6(0)),
            },
            _ => None,
        }
    } else {
        None
    }
}

/// Answers a blocked query in the way of the mode.
pub fn make_blocked_response(
    id: u16,
    query: &[u8],
    head: &MessageHead,
    mode: BlockingMode,
    qtype: u16,
    blocking_ip: IpAddr,
) -> (r: QueryResult)
    ensures
        r@ == blocked_result(query@, id, head@, mode, qtype, blocking_ip),
        decoded_head(query@) == Some(head@) && head@.questions.len() <= 100 ==> carries(
            r@,
            blocked_plan(id, head@, mode, qtype, blocking_ip),
            head@.questions,
        ),
{
    let response_code: u16 = match mode {
        BlockingMode::Nxdomain => NXDOMAIN,
        BlockingMode::Refused => REFUSED,
        _ => NOERROR,
    };
    let answer: Option<(u32, IpAddr)> = match address_for_blocked(mode, qtype, blocking_ip) {
        Some(a) => if head.questions.len() > 0 {
            Some((BLOCKED_TTL, a))
        } else {
            None
        },
        None => None,
    };
    assert(head@.questions.len() == head.questions@.len());
    let plan = ReplyPlan {
        id,
        response_code,
        recursion_desired: head.recursion_desired,
        recursion_available: true,
        answer,
        max_payload: OWN_PAYLOAD,
        dnssec_ok: true,
    };
    match message::encode_reply(query, &plan) {
        Some(b) => QueryResult::Response(b),
        None => make_error_response(id, query, SERVFAIL),
    }
}

/// The bytes with the identifier `id` in front; bytes too short for one stay as they are.
pub open spec fn with_id(data: Seq<u8>, id: u16) -> Seq<u8> {
    if data.len() >= 2 {
        data.update(0, (id / 256) as u8).update(1, (id % 256) as u8)
    } else {
        data
    }
}

/// Puts the identifier `id` in front.
pub fn set_id(data: &mut Vec<u8>, id: u16)
    ensures
        final(data)@ == with_id(old(data)@, id),
{
    if data.len() >= 2 {
        data.set(0, (id / 256) as u8);
        data.set(1, (id % 256) as u8);
    }
}

/// The times to live of records.
pub open spec fn ttls(s: Seq<RecordView>) -> Seq<u32> {
    s.map_values(|r: RecordView| r.ttl)
}

/// A cached answer as it is served after `elapsed` seconds to a query with the identifier `id`: with
/// that identifier and, where time has passed, with the times to live reduced by it. What cannot be
/// read or written is served with its old times.
pub open spec fn served(data: Seq<u8>, id: u16, elapsed: u32) -> Seq<u8> {
    let d = with_id(data, id);
    if elapsed == 0 || decoded_records(d) is None {
        d
    } else {
        let r = aged_records(decoded_records(d)->0, elapsed);
        match with_ttls(d, ttls(r.answers), ttls(r.authorities), ttls(r.additionals)) {
            Some(b) => b,
            None => d,
        }
    }
}

fn collect_ttls(s: &Vec<message::DnsRecord>) -> (r: Vec<u32>)
    ensures
        r@ == ttls(message::record_views(s@)),
{
    let mut out: Vec<u32> = Vec::new();
    let mut i: usize = 0;
    while i < s.len()
        invariant
            i <= s@.len(),
            out@.len() == i,
            forall|k: int| 0 <= k < i ==> out@[k] == s@[k].ttl,
        decreases s@.len() - i,
    {
        out.push(s[i].ttl);
        i += 1;
    }
    assert(out@ =~= ttls(message::record_views(s@)));
    out
}

/// Prepares a cached answer for a query.
pub fn serve_cached(data: Vec<u8>, id: u16, elapsed: u32) -> (r: Vec<u8>)
    ensures
        r@ == served(data@, id, elapsed),
        data@.len() >= 2 ==> r@.len() >= 2 && r@[0] == id / 256 && r@[1] == id % 256,
        plain_answer(with_id(data@, id)) ==> decoded_records(r@) == Some(
            aged_records(decoded_records(with_id(data@, id))->0, elapsed),
        ),
{
    let mut d: Vec<u8> = data;
    set_id(&mut d, id);
    proof {
        if elapsed == 0 && decoded_records(d@) is Some {
            let rs = decoded_records(d@)->0;
            assert(aged(rs.answers, 0) =~= rs.answers);
            assert(aged(rs.authorities, 0) =~= rs.authorities);
            assert(aged(rs.additionals, 0) =~= rs.additionals);
        }
    }
    if elapsed > 0 {
        match message::decode_records(d.as_slice()) {
            Some(found) => {
                let ghost rs = found@;
                let mut records = found;
                decrement_ttls(&mut records, elapsed);
                let a = collect_ttls(&records.answers);
                let b = collect_ttls(&records.authorities);
                let c = collect_ttls(&records.additionals);
                proof {
                    assert(retimed(rs.answers, a@) =~= aged(rs.answers, elapsed));
                    assert(retimed(rs.authorities, b@) =~= aged(rs.authorities, elapsed));
                    assert(retimed(rs.additionals, c@) =~= aged(rs.additionals, elapsed));
                }
                match message::set_ttls(d.as_slice(), &a, &b, &c) {
                    Some(updated) => {
                        return updated;
                    },
                    None => {},
                }
            },
            None => {},
        }
    }
    d
}

/// The longest datagram that a client takes; at least 512 bytes.
pub open spec fn payload_limit(client_max_payload: usize) -> int {
    if client_max_payload < 512 {
        512
    } else {
        client_max_payload as int
    }
}

/// A response in the form in which it fits a datagram of the client, where it does not fit as it is:
/// cut down to its questions.
pub open spec fn truncated_form(data: Seq<u8>, client_max_payload: usize) -> Option<Seq<u8>> {
    match decoded_head(data) {
        None => None,
        Some(h) => match rewritten(data) {
            Some(b) => if b.len() <= payload_limit(client_max_payload) {
                None
            } else {
                cut(data)
            },
            None => cut(data),
        },
    }
}

/// Cuts a response down if it is too long for the client; none where it is not, or is no message.
/// What is cut down has the truncation mark, so that the client asks again over TCP.
pub fn truncate_if_needed(data: &[u8], client_max_payload: usize) -> (r: Option<Vec<u8>>)
    ensures
        match r {
            Some(b) => truncated_form(data@, client_max_payload) == Some(b@),
            None => truncated_form(data@, client_max_payload) is None,
        },
        r matches Some(b) ==> same_id(data@, b@) && b@[2] & 2 == 2,
{
    let limit: usize = if client_max_payload < 512 {
        512
    } else {
        client_max_payload
    };
    match message::decode_head(data) {
        None => None,
        Some(_) => {
            match message::rewrite(data) {
                Some(b) => if b.len() <= limit {
                    return None;
                },
                None => {},
            }
            message::cut_down(data)
        },
    }
}

/// An error reply without questions and extension record: just a header.
pub open spec fn bare_error(id: u16, response_code: u16) -> Seq<u8> {
    seq![
        (id / 256) as u8,
        (id % 256) as u8,
        0x80,
        (response_code % 16) as u8,
        0,
        0,
        0,
        0,
        0,
        0,
        0,
        0,
    ]
}

/// Writes an error reply that is just a header.
pub fn make_bare_error(id: u16, response_code: u16) -> (r: Vec<u8>)
    ensures
        r@ == bare_error(id, response_code),
{
    let r: Vec<u8> = vec![
        (id / 256) as u8,
        (id % 256) as u8,
        0x80,
        (response_code % 16) as u8,
        0,
        0,
        0,
        0,
        0,
        0,
        0,
        0,
    ];
    assert(r@ =~= bare_error(id, response_code));
    r
}

} // verus!
