//! DNS messages as plain values, and their form on the wire.

use crate::address::IpAddr;
use hickory_proto::op::{Edns, Message, OpCode};
use hickory_proto::rr::rdata::{A, AAAA};
use hickory_proto::rr::{Name, RData, Record};
use vstd::prelude::*;

verus! {

/// The record type of an IPv4 address.
pub const TYPE_A: u16 = 1;

/// The record type of a start of authority.
pub const TYPE_SOA: u16 = 6;

/// The record type of an IPv6 address.
pub const TYPE_AAAA: u16 = 28;

/// The class of the internet.
pub const CLASS_IN: u16 = 1;

/// The response codes.
pub const NOERROR: u16 = 0;

pub const FORMERR: u16 = 1;

pub const SERVFAIL: u16 = 2;

pub const NXDOMAIN: u16 = 3;

pub const REFUSED: u16 = 5;

/// The contents of the labels of a name.
pub open spec fn labels(name: Seq<Vec<u8>>) -> Seq<Seq<u8>> {
    name.map_values(|l: Vec<u8>| l@)
}

/// A question: a name as its labels from the left, a record type and a class.
#[derive(Debug, Clone)]
pub struct Question {
    pub name: Vec<Vec<u8>>,
    pub qtype: u16,
    pub qclass: u16,
}

/// The contents of a `Question`.
#[verifier::ext_equal]
pub struct QuestionView {
    pub name: Seq<Seq<u8>>,
    pub qtype: u16,
    pub qclass: u16,
}

impl View for Question {
    type V = QuestionView;

    open spec fn view(&self) -> QuestionView {
        QuestionView { name: labels(self.name@), qtype: self.qtype, qclass: self.qclass }
    }
}

/// A record: its owner, its type, its time to live, and the address that it holds if it is of
/// type A or AAAA.
#[derive(Debug, Clone)]
pub struct DnsRecord {
    pub name: Vec<Vec<u8>>,
    pub rtype: u16,
    pub ttl: u32,
    pub address: Option<IpAddr>,
}

/// The contents of a `DnsRecord`.
#[verifier::ext_equal]
pub struct RecordView {
    pub name: Seq<Seq<u8>>,
    pub rtype: u16,
    pub ttl: u32,
    pub address: Option<IpAddr>,
}

impl View for DnsRecord {
    type V = RecordView;

    open spec fn view(&self) -> RecordView {
        RecordView {
            name: labels(self.name@),
            rtype: self.rtype,
            ttl: self.ttl,
            address: self.address,
        }
    }
}

/// The extension record of a message.
#[derive(Debug, Clone, Copy, PartialEq, Eq, Structural)]
pub struct EdnsInfo {
    pub version: u8,
    pub dnssec_ok: bool,
    /// The longest datagram that the sender takes; at least 512.
    pub max_payload: u16,
}

/// The head of a message: its header, its questions and its extension record.
#[derive(Debug, Clone)]
pub struct MessageHead {
    pub id: u16,
    pub response_code: u16,
    pub truncated: bool,
    pub recursion_desired: bool,
    pub recursion_available: bool,
    pub questions: Vec<Question>,
    pub edns: Option<EdnsInfo>,
}

/// The contents of a `MessageHead`.
#[verifier::ext_equal]
pub struct HeadView {
    pub id: u16,
    pub response_code: u16,
    pub truncated: bool,
    pub recursion_desired: bool,
    pub recursion_available: bool,
    pub questions: Seq<QuestionView>,
    pub edns: Option<EdnsInfo>,
}

/// The contents of each question.
pub open spec fn question_views(s: Seq<Question>) -> Seq<QuestionView> {
    s.map_values(|q: Question| q@)
}

impl View for MessageHead {
    type V = HeadView;

    open spec fn view(&self) -> HeadView {
        HeadView {
            id: self.id,
            response_code: self.response_code,
            truncated: self.truncated,
            recursion_desired: self.recursion_desired,
            recursion_available: self.recursion_available,
            questions: question_views(self.questions@),
            edns: self.edns,
        }
    }
}

/// The records of a message, by section. The extension record is not among them.
#[derive(Debug, Clone)]
pub struct MessageRecords {
    pub answers: Vec<DnsRecord>,
    pub authorities: Vec<DnsRecord>,
    pub additionals: Vec<DnsRecord>,
}

/// The contents of `MessageRecords`.
#[verifier::ext_equal]
pub struct RecordsView {
    pub answers: Seq<RecordView>,
    pub authorities: Seq<RecordView>,
    pub additionals: Seq<RecordView>,
}

/// The contents of each record.
pub open spec fn record_views(s: Seq<DnsRecord>) -> Seq<RecordView> {
    s.map_values(|r: DnsRecord| r@)
}

impl View for MessageRecords {
    type V = RecordsView;

    open spec fn view(&self) -> RecordsView {
        RecordsView {
            answers: record_views(self.answers@),
            authorities: record_views(self.authorities@),
            additionals: record_views(self.additionals@),
        }
    }
}

/// A response that the server itself writes. It repeats the questions of the query and carries an
/// extension record; an answer, which is a time to live and an address, belongs to the name of the
/// first question.
#[derive(Debug, Clone, Copy)]
pub struct ReplyPlan {
    pub id: u16,
    pub response_code: u16,
    pub recursion_desired: bool,
    pub recursion_available: bool,
    pub answer: Option<(u32, IpAddr)>,
    pub max_payload: u16,
    pub dnssec_ok: bool,
}

/// How many bytes the labels of a name take on the wire, without the end mark.
pub open spec fn wire_length(name: Seq<Seq<u8>>) -> nat
    decreases name.len(),
{
    if name.len() == 0 {
        0
    } else {
        wire_length(name.drop_last()) + name.last().len() + 1
    }
}

/// The labels make a name: each has 1 to 63 bytes, and together they are not too long.
pub open spec fn valid_name(name: Seq<Seq<u8>>) -> bool {
    &&& forall|i: int| 0 <= i < name.len() ==> 1 <= (#[trigger] name[i]).len() <= 63
    &&& wire_length(name) < 255
}

/// Every question has a name.
pub open spec fn valid_questions(questions: Seq<QuestionView>) -> bool {
    forall|i: int| 0 <= i < questions.len() ==> valid_name((#[trigger] questions[i]).name)
}

/// The type of record that holds an address.
pub open spec fn address_type(a: IpAddr) -> u16 {
    match a {
        IpAddr::V4(_) => TYPE_A,
        IpAddr::V6(_) => TYPE_AAAA,
    }
}

/// The head that a reader finds in a reply to a query with the given questions.
pub open spec fn reply_head(p: ReplyPlan, questions: Seq<QuestionView>) -> HeadView {
    HeadView {
        id: p.id,
        response_code: p.response_code,
        truncated: false,
        recursion_desired: p.recursion_desired,
        recursion_available: p.recursion_available,
        questions,
        edns: Some(EdnsInfo { version: 0, dnssec_ok: p.dnssec_ok, max_payload: p.max_payload }),
    }
}

/// The records that a reader finds in a reply to a query with the given questions.
pub open spec fn reply_records(p: ReplyPlan, questions: Seq<QuestionView>) -> RecordsView {
    RecordsView {
        answers: match p.answer {
            Some((ttl, address)) => seq![
                RecordView {
                    name: questions[0].name,
                    rtype: address_type(address),
                    ttl,
                    address: Some(address),
                },
            ],
            None => Seq::empty(),
        },
        authorities: Seq::empty(),
        additionals: Seq::empty(),
    }
}

/// A reply of ordinary shape: a response code of four bits, an extension record that takes
/// datagrams of at least 512 bytes, not more than a hundred questions, and a question where there
/// is an answer.
pub open spec fn ordinary(p: ReplyPlan, questions: Seq<QuestionView>) -> bool {
    &&& p.response_code < 16
    &&& p.max_payload >= 512
    &&& questions.len() <= 100
    &&& p.answer is Some ==> questions.len() > 0
}

/// The head that `hickory_proto::op::Message::from_vec` reads from bytes; none where they are no
/// message.
pub uninterp spec fn decoded_head(data: Seq<u8>) -> Option<HeadView>;

/// The records that `hickory_proto::op::Message::from_vec` reads from bytes; none where they are
/// no message.
pub uninterp spec fn decoded_records(data: Seq<u8>) -> Option<RecordsView>;

/// The bytes that `hickory_proto::op::Message::to_vec` writes for a reply to a query; none where
/// the query is no message or the reply cannot be written.
pub uninterp spec fn encoded_reply(query: Seq<u8>, plan: ReplyPlan) -> Option<Seq<u8>>;

/// `hickory_proto::op::Message::from_vec`, and the head of the message that it finds. The names
/// that it reads are valid.
#[verifier::external_body]
pub(crate) fn decode_head(data: &[u8]) -> (r: Option<MessageHead>)
    ensures
        match r {
            Some(m) => decoded_head(data@) == Some(m@),
            None => decoded_head(data@) is None,
        },
        r is Some ==> valid_questions(r->0@.questions),
{
    let m = Message::from_vec(data).ok()?;
    let h = m.metadata;
    Some(MessageHead {
        id: h.id,
        response_code: h.response_code.into(),
        truncated: h.truncation,
        recursion_desired: h.recursion_desired,
        recursion_available: h.recursion_available,
        questions: m.queries.iter().map(|q| Question {
            name: q.name.iter().map(|l| l.to_vec()).collect(),
            qtype: q.query_type.into(),
            qclass: q.query_class.into(),
        }).collect(),
        edns: m.edns.map(|e| EdnsInfo { version: e.version(), dnssec_ok: e.flags().dnssec_ok, max_payload: e.max_payload() }),
    })
}

/// `hickory_proto::op::Message::from_vec`, and the records of the message that it finds.
#[verifier::external_body]
pub(crate) fn decode_records(data: &[u8]) -> (r: Option<MessageRecords>)
    ensures
        match r {
            Some(m) => decoded_records(data@) == Some(m@),
            None => decoded_records(data@) is None,
        },
{
    let m = Message::from_vec(data).ok()?;
    let record = |r: &Record| DnsRecord {
        name: r.name.iter().map(|l| l.to_vec()).collect(),
        rtype: r.record_type().into(),
        ttl: r.ttl,
        address: match r.data {
            RData::A(a) => Some(IpAddr::V4(a.0.into())),
            RData::AAAA(a) => Some(IpAddr::V6(a.0.into())),
            _ => None,
        },
    };
    let [answers, authorities, additionals] = [m.answers, m.authorities, m.additionals].map(|s| s.iter().map(record).collect());
    Some(MessageRecords { answers, authorities, additionals })
}

/// `hickory_proto::op::Message::to_vec` of a response with the header, the answer and the
/// extension record of the plan, and with the questions of the query. A reader finds in the bytes
/// what was written: stated for a query that is a message and a plan of ordinary shape, for which
/// the bytes stay far below the limit of a message.
#[verifier::external_body]
pub(crate) fn encode_reply(query: &[u8], p: &ReplyPlan) -> (r: Option<Vec<u8>>)
    ensures
        match r {
            Some(b) => encoded_reply(query@, *p) == Some(b@),
            None => encoded_reply(query@, *p) is None,
        },
        decoded_head(query@) is Some && ordinary(*p, decoded_head(query@)->0.questions) ==> {
            &&& r is Some
            &&& decoded_head(r->0@) == Some(reply_head(*p, decoded_head(query@)->0.questions))
            &&& decoded_records(r->0@) == Some(reply_records(*p, decoded_head(query@)->0.questions))
        },
{
    let q = Message::from_vec(query).ok()?;
    let mut m = Message::error_msg(p.id, OpCode::Query, p.response_code.into());
    m.metadata.recursion_desired = p.recursion_desired;
    m.metadata.recursion_available = p.recursion_available;
    if let Some((ttl, address)) = p.answer {
        m.add_answer(Record::from_rdata(q.queries.first()?.name.clone(), ttl, match address {
            IpAddr::V4(x) => RData::A(A(x.into())),
            IpAddr::V6(x) => RData::AAAA(AAAA(x.into())),
        }));
    }
    m.queries = q.queries;
    m.edns.insert(Edns::new()).set_max_payload(p.max_payload).set_dnssec_ok(p.dnssec_ok);
    m.to_vec().ok()
}

/// The bytes that a message is written in after it was read; none where one of the two fails.
pub uninterp spec fn rewritten(data: Seq<u8>) -> Option<Seq<u8>>;

/// Both start with a message header, and the two headers have the same identifier.
pub open spec fn same_id(a: Seq<u8>, b: Seq<u8>) -> bool {
    a.len() >= 12 && b.len() >= 12 && a[0] == b[0] && a[1] == b[1]
}

/// `hickory_proto::op::Message::from_vec`, then `to_vec` of what it read. The identifier, the first
/// two bytes of the header, stays.
#[verifier::external_body]
pub(crate) fn rewrite(data: &[u8]) -> (r: Option<Vec<u8>>)
    ensures
        match r {
            Some(b) => rewritten(data@) == Some(b@),
            None => rewritten(data@) is None,
        },
        decoded_head(data@) is None ==> r is None,
        r matches Some(b) ==> same_id(data@, b@),
{
    Message::from_vec(data).ok()?.to_vec().ok()
}

/// The bytes of a message whose records have the given times to live, section by section; none
/// where the bytes are no message or the result cannot be written.
pub uninterp spec fn with_ttls(
    data: Seq<u8>,
    answers: Seq<u32>,
    authorities: Seq<u32>,
    additionals: Seq<u32>,
) -> Option<Seq<u8>>;

/// The records with the given times to live.
pub open spec fn retimed(s: Seq<RecordView>, ttls: Seq<u32>) -> Seq<RecordView> {
    Seq::new(s.len(), |i: int| RecordView { ttl: ttls[i], ..s[i] })
}

/// An answer of ordinary shape: every record holds an address, there are not more than a hundred
/// records and a hundred questions, and it is not longer than a datagram of 4096 bytes.
pub open spec fn plain_answer(data: Seq<u8>) -> bool {
    &&& data.len() <= 4096
    &&& decoded_head(data) matches Some(h)
    &&& h.questions.len() <= 100
    &&& decoded_records(data) matches Some(r)
    &&& r.answers.len() + r.authorities.len() + r.additionals.len() <= 100
    &&& forall|i: int| 0 <= i < r.answers.len() ==> (#[trigger] r.answers[i]).address is Some
    &&& forall|i: int|
        0 <= i < r.authorities.len() ==> (#[trigger] r.authorities[i]).address is Some
    &&& forall|i: int|
        0 <= i < r.additionals.len() ==> (#[trigger] r.additionals[i]).address is Some
}

/// `hickory_proto::op::Message::from_vec`, the time to live of each record replaced by the one at
/// its place, and `to_vec` of the result. The identifier, the first two bytes of the header, stays.
/// A reader finds the new times in the result: stated for an answer of ordinary shape, which is
/// written without loss and far below the limit of a message.
#[verifier::external_body]
pub(crate) fn set_ttls(
    data: &[u8],
    answers: &Vec<u32>,
    authorities: &Vec<u32>,
    additionals: &Vec<u32>,
) -> (r: Option<Vec<u8>>)
    ensures
        match r {
            Some(b) => with_ttls(data@, answers@, authorities@, additionals@) == Some(b@),
            None => with_ttls(data@, answers@, authorities@, additionals@) is None,
        },
        r matches Some(b) ==> same_id(data@, b@),
        plain_answer(data@) && answers@.len() == decoded_records(data@)->0.answers.len()
            && authorities@.len() == decoded_records(data@)->0.authorities.len()
            && additionals@.len() == decoded_records(data@)->0.additionals.len() ==> {
            &&& r is Some
            &&& decoded_records(r->0@) == Some(
                RecordsView {
                    answers: retimed(decoded_records(data@)->0.answers, answers@),
                    authorities: retimed(decoded_records(data@)->0.authorities, authorities@),
                    additionals: retimed(decoded_records(data@)->0.additionals, additionals@),
                },
            )
        },
{
    let mut m = Message::from_vec(data).ok()?;
    m.answers.iter_mut().zip(answers).for_each(|(r, ttl)| r.ttl = *ttl);
    m.authorities.iter_mut().zip(authorities).for_each(|(r, ttl)| r.ttl = *ttl);
    m.additionals.iter_mut().zip(additionals).for_each(|(r, ttl)| r.ttl = *ttl);
    m.to_vec().ok()
}

/// The bytes of a message cut down to its questions, with the mark that it was cut; none where the
/// bytes are no message or the result cannot be written.
pub uninterp spec fn cut(data: Seq<u8>) -> Option<Seq<u8>>;

/// `hickory_proto::op::Message::from_vec`, `truncate` of what it read, and `to_vec` of the result.
/// The result starts with a header that has the identifier of the message and the truncation mark,
/// and counts no answer and no authority.
#[verifier::external_body]
pub(crate) fn cut_down(data: &[u8]) -> (r: Option<Vec<u8>>)
    ensures
        match r {
            Some(b) => cut(data@) == Some(b@),
            None => cut(data@) is None,
        },
        r matches Some(b) ==> {
            &&& same_id(data@, b@)
            &&& b@[2] & 2 == 2
            &&& b@[6] == 0 && b@[7] == 0 && b@[8] == 0 && b@[9] == 0
        },
{
    Message::from_vec(data).ok()?.truncate().to_vec().ok()
}

/// What `hickory_proto` says is wrong with bytes that it cannot read or write again; empty where it
/// can do both.
pub uninterp spec fn codec_problem(data: Seq<u8>) -> Seq<char>;

/// The text of the error of `hickory_proto::op::Message::from_vec` or, where that reads the bytes,
/// of `to_vec` of what it read; empty where both succeed.
#[verifier::external_body]
pub(crate) fn codec_error(data: &[u8]) -> (r: String)
    ensures
        r@ == codec_problem(data@),
{
    match Message::from_vec(data) {
        Ok(m) => m.to_vec().err().map(|e| e.to_string()).unwrap_or_default(),
        Err(e) => e.to_string(),
    }
}

/// The labels of a name, each with a dot behind it.
pub open spec fn dotted(name: Seq<Seq<u8>>) -> Seq<char>
    decreases name.len(),
{
    if name.len() == 0 {
        Seq::empty()
    } else {
        dotted(name.drop_last()) + name.last().map_values(|b: u8| b as char) + seq!['.']
    }
}

/// A byte that is a small letter, a capital, a digit or an underscore of ASCII.
pub open spec fn plain_byte(b: u8) -> bool {
    ||| 0x30 <= b <= 0x39
    ||| 0x41 <= b <= 0x5a
    ||| b == 0x5f
    ||| 0x61 <= b <= 0x7a
}

/// A name of at least one label, whose labels are made of plain bytes.
pub open spec fn plain_name(name: Seq<Seq<u8>>) -> bool {
    &&& name.len() > 0
    &&& forall|i: int, j: int|
        0 <= i < name.len() && 0 <= j < name[i].len() ==> plain_byte(#[trigger] name[i][j])
}

/// The text that `hickory_proto::rr::Name::to_utf8` gives a fully qualified name.
pub uninterp spec fn name_text(name: Seq<Seq<u8>>) -> Seq<char>;

/// `hickory_proto::rr::Name::to_utf8` of the fully qualified name with the given labels. Bytes that
/// are not letters, digits or underscores may be escaped, and a label that starts with `xn--` may
/// be turned into what it stands for; labels of plain bytes are written as they are.
#[verifier::external_body]
pub(crate) fn text_of_name(name: &Vec<Vec<u8>>) -> (r: String)
    requires
        valid_name(labels(name@)),
    ensures
        r@ == name_text(labels(name@)),
        plain_name(labels(name@)) ==> r@ == dotted(labels(name@)),
{
    Name::from_labels(name.iter().map(|l| l.as_slice())).map_or_else(|_| String::new(), |n| n.to_utf8())
}

} // verus!
