//! DNS over TLS. One connection serves many queries at the same time: each is sent under an
//! identifier of its own, and the response is handed to the query whose identifier it has.

use crate::config::DnsUpstream;
use crate::dns::frame::{checked_length, frame, framed, pair};
use crate::dns::reply::{set_id, with_id};
use crate::tables;
use std::collections::HashMap;
use vstd::prelude::*;

verus! {

broadcast use {vstd::string::group_string_axioms, vstd::std_specs::hash::group_hash_axioms};

/// Seconds that a handshake may take.
pub const TLS_HANDSHAKE_TIMEOUT_SECS: u64 = 10;

/// Seconds between a connection that failed and the next one.
pub const RECONNECT_SECS: u64 = 5;

/// How many queries may wait for a connection.
pub const CHANNEL_BOUND: usize = 128;

/// After how many sent queries those that nobody waits for are forgotten.
pub const SWEEP_INTERVAL: u32 = 64;

/// Why a query over TLS failed.
#[derive(Debug)]
pub enum DotError {
    TlsHandshake(String),
    Io(String),
    ConnectionClosed,
    Timeout,
    QueueFull,
}

impl DotError {
    /// The error as people read it.
    pub open spec fn text(self) -> Seq<char> {
        match self {
            DotError::TlsHandshake(m) => "TLS handshake failed: "@ + m@,
            DotError::Io(m) => "I/O error: "@ + m@,
            DotError::ConnectionClosed => "Connection closed"@,
            DotError::Timeout => "Timeout"@,
            DotError::QueueFull => "Queue full"@,
        }
    }

    /// The error as a line for people.
    pub fn message(&self) -> (r: String)
        ensures
            r@ == self.text(),
    {
        match self {
            DotError::TlsHandshake(m) => {
                let mut s = "TLS handshake failed: ".to_owned();
                s.append(m.as_str());
                s
            },
            DotError::Io(m) => {
                let mut s = "I/O error: ".to_owned();
                s.append(m.as_str());
                s
            },
            DotError::ConnectionClosed => "Connection closed".to_owned(),
            DotError::Timeout => "Timeout".to_owned(),
            DotError::QueueFull => "Queue full".to_owned(),
        }
    }
}

/// The bytes that a query is sent in to an upstream server; an error where the server does not
/// speak TLS.
pub fn dot_frame(upstream: &DnsUpstream, query: &[u8]) -> (r: Result<Vec<u8>, DotError>)
    ensures
        match r {
            Ok(b) => upstream is Tls && b@ == framed(query@),
            Err(e) => upstream is Plain && (e matches DotError::TlsHandshake(m) && m@
                == "Not a TLS upstream"@),
        },
{
    match upstream {
        DnsUpstream::Tls { .. } => Ok(frame(query)),
        DnsUpstream::Plain { .. } => Err(DotError::TlsHandshake("Not a TLS upstream".to_owned())),
    }
}

/// How the wait for the response to a query over TLS ended.
#[derive(Debug)]
pub enum DotWait {
    /// The query could not be handed to the keeper of the connection.
    NotTaken,
    /// The time was over before there was an answer.
    TimedOut,
    /// The keeper went away without an answer.
    Abandoned,
    /// The keeper answered.
    Answered(Result<Vec<u8>, DotError>),
}

/// The result of a query over TLS. Only an answer of the keeper is ever a success, and it is passed
/// on as it is.
pub fn query_result(wait: DotWait) -> (r: Result<Vec<u8>, DotError>)
    ensures
        match wait {
            DotWait::NotTaken => r matches Err(e) && e is QueueFull,
            DotWait::TimedOut => r matches Err(e) && e is Timeout,
            DotWait::Abandoned => r matches Err(e) && e is ConnectionClosed,
            DotWait::Answered(a) => r == a,
        },
{
    match wait {
        DotWait::NotTaken => Err(DotError::QueueFull),
        DotWait::TimedOut => Err(DotError::Timeout),
        DotWait::Abandoned => Err(DotError::ConnectionClosed),
        DotWait::Answered(a) => a,
    }
}

/// The length of a response, from the two bytes in front of it. A length of zero or above the
/// greatest closes the connection.
pub fn response_length(high: u8, low: u8) -> (r: Result<usize, DotError>)
    ensures
        match r {
            Ok(n) => n == high * 256 + low && 0 < n <= 4096,
            Err(e) => e is ConnectionClosed && !(0 < high * 256 + low <= 4096),
        },
{
    match checked_length(high, low) {
        Some(n) => Ok(n),
        None => Err(DotError::ConnectionClosed),
    }
}

/// Hands out identifiers, one after the other.
pub struct IdSource {
    next: u16,
}

/// The identifier behind an identifier; behind the greatest comes 0.
pub open spec fn following(id: u16) -> u16 {
    ((id + 1) % 0x1_0000) as u16
}

/// The identifier that comes after so many others.
pub open spec fn later_id(id: u16, n: nat) -> u16
    decreases n,
{
    if n == 0 {
        id
    } else {
        following(later_id(id, (n - 1) as nat))
    }
}

impl IdSource {
    /// The identifier that comes next.
    pub closed spec fn upcoming(&self) -> u16 {
        self.next
    }

    /// A source that starts with 1.
    pub fn new() -> (r: IdSource)
        ensures
            r.upcoming() == 1,
    {
        IdSource { next: 1 }
    }

    /// The next identifier; behind the greatest comes 0.
    pub fn next_conn_id(&mut self) -> (r: u16)
        ensures
            r == old(self).upcoming(),
            final(self).upcoming() == (r + 1) % 0x1_0000,
            final(self).upcoming() == following(r),
    {
        let id: u16 = self.next;
        self.next = id.wrapping_add(1);
        id
    }
}

/// A query that waits for its response.
#[derive(Debug, Clone, Copy, PartialEq, Eq, Structural)]
pub struct Pending {
    /// Who waits.
    pub token: u64,
    /// The identifier that the query came with.
    pub original_id: u16,
}

/// The queries of one connection that wait for their responses, by the identifiers that they were
/// sent under.
pub struct DotPipeline {
    pending: HashMap<u16, Pending>,
    sent: u32,
}

/// The contents of a `DotPipeline`.
#[verifier::ext_equal]
pub struct PipelineView {
    pub pending: Map<u16, Pending>,
    pub sent: u32,
}

impl View for DotPipeline {
    type V = PipelineView;

    closed spec fn view(&self) -> PipelineView {
        PipelineView { pending: self.pending@, sent: self.sent }
    }
}

impl PipelineView {
    /// A query of the given token waits.
    pub open spec fn waits(self, token: u64) -> bool {
        exists|id: u16| #[trigger]
            self.pending.contains_key(id) && self.pending[id].token == token
    }
}

/// The identifier of the message in a frame.
pub open spec fn framed_id(data: Seq<u8>) -> u16 {
    pair(data[2], data[3]) as u16
}

/// The frame with the identifier `id` in its message.
pub open spec fn relabelled(data: Seq<u8>, id: u16) -> Seq<u8> {
    data.update(2, (id / 256) as u8).update(3, (id % 256) as u8)
}

/// Prepares a frame for sending under the identifier `conn_id`; gives the frame and the identifier
/// that it came with. None where the frame is too short for an identifier.
pub fn relabel(data: Vec<u8>, conn_id: u16) -> (r: Option<(Vec<u8>, u16)>)
    ensures
        match r {
            Some((b, id)) => data@.len() >= 4 && b@ == relabelled(data@, conn_id) && id
                == framed_id(data@),
            None => data@.len() < 4,
        },
{
    if data.len() < 4 {
        return None;
    }
    let id: u16 = data[2] as u16 * 256 + data[3] as u16;
    let mut out: Vec<u8> = data;
    out.set(2, (conn_id / 256) as u8);
    out.set(3, (conn_id % 256) as u8);
    Some((out, id))
}

/// The pipeline after a query was sent.
pub open spec fn query_sent(v: PipelineView, conn_id: u16, p: Pending) -> PipelineView {
    PipelineView {
        pending: v.pending.insert(conn_id, p),
        sent: if v.sent == u32::MAX {
            0
        } else {
            (v.sent + 1) as u32
        },
    }
}

/// The identifier of a response.
pub open spec fn response_id(response: Seq<u8>) -> u16 {
    pair(response[0], response[1]) as u16
}

/// Who gets a response, and in what form; none where nobody waits for it.
pub open spec fn delivery(v: PipelineView, response: Seq<u8>) -> Option<(u64, Seq<u8>)> {
    if response.len() >= 2 && v.pending.contains_key(response_id(response)) {
        let p = v.pending[response_id(response)];
        Some((p.token, with_id(response, p.original_id)))
    } else {
        None
    }
}

/// The pipeline after a response came.
pub open spec fn response_taken(v: PipelineView, response: Seq<u8>) -> PipelineView {
    if response.len() >= 2 {
        PipelineView { pending: v.pending.remove(response_id(response)), ..v }
    } else {
        v
    }
}

impl DotPipeline {
    /// A pipeline without queries.
    pub fn new() -> (r: DotPipeline)
        ensures
            r@ == (PipelineView { pending: Map::empty(), sent: 0 }),
    {
        DotPipeline { pending: HashMap::new(), sent: 0 }
    }

    /// Notes that a query was sent under the identifier `conn_id`. Gives the one that had waited
    /// under the same identifier, if any, and whether it is time to forget the queries that nobody
    /// waits for.
    pub fn query_sent(&mut self, conn_id: u16, token: u64, original_id: u16) -> (r: (
        Option<u64>,
        bool,
    ))
        ensures
            final(self)@ == query_sent(old(self)@, conn_id, Pending { token, original_id }),
            r.0 == (if old(self)@.pending.contains_key(conn_id) {
                Some(old(self)@.pending[conn_id].token)
            } else {
                None
            }),
            r.1 == (final(self)@.sent % SWEEP_INTERVAL == 0),
    {
        let replaced: Option<u64> = match self.pending.get(&conn_id) {
            Some(p) => Some(p.token),
            None => None,
        };
        self.pending.insert(conn_id, Pending { token, original_id });
        self.sent = self.sent.wrapping_add(1);
        assert(self@ =~= query_sent(old(self)@, conn_id, Pending { token, original_id }));
        (replaced, self.sent % SWEEP_INTERVAL == 0)
    }

    /// Who gets a response, and in what form: with the identifier that the query came with. None
    /// where nobody waits for it; it is dropped then.
    pub fn response_received(&mut self, response: Vec<u8>) -> (r: Option<(u64, Vec<u8>)>)
        ensures
            final(self)@ == response_taken(old(self)@, response@),
            match r {
                Some((token, b)) => delivery(old(self)@, response@) == Some((token, b@)),
                None => delivery(old(self)@, response@) is None,
            },
    {
        if response.len() < 2 {
            return None;
        }
        let id: u16 = response[0] as u16 * 256 + response[1] as u16;
        let found: Option<Pending> = match self.pending.get(&id) {
            Some(p) => Some(*p),
            None => None,
        };
        self.pending.remove(&id);
        assert(self@ =~= response_taken(old(self)@, response@));
        match found {
            None => None,
            Some(p) => {
                let mut out: Vec<u8> = response;
                set_id(&mut out, p.original_id);
                Some((p.token, out))
            },
        }
    }

    /// The identifiers under which queries wait.
    pub fn waiting(&self) -> (r: Vec<(u16, u64)>)
        ensures
            forall|i: int|
                0 <= i < r@.len() ==> {
                    let (id, token) = #[trigger] r@[i];
                    self@.pending.contains_key(id) && self@.pending[id].token == token
                },
            forall|id: u16| #[trigger]
                self@.pending.contains_key(id) ==> exists|i: int|
                    0 <= i < r@.len() && (#[trigger] r@[i]).0 == id,
            forall|i: int, j: int|
                0 <= i < j < r@.len() ==> (#[trigger] r@[i]).0 != (#[trigger] r@[j]).0,
    {
        let keys = tables::keys_of(&self.pending);
        let mut out: Vec<(u16, u64)> = Vec::new();
        let mut i: usize = 0;
        while i < keys.len()
            invariant
                i <= keys@.len(),
                out@.len() == i,
                forall|k: u16| #[trigger] self.pending@.contains_key(k) <==> keys@.contains(k),
                forall|k: int| 0 <= k < i ==> (#[trigger] out@[k]).0 == keys@[k],
                forall|k: int|
                    0 <= k < i ==> self@.pending.contains_key((#[trigger] out@[k]).0)
                        && self@.pending[out@[k].0].token == out@[k].1,
            decreases keys@.len() - i,
        {
            assert(keys@.contains(keys@[i as int]));
            match self.pending.get(&keys[i]) {
                Some(p) => {
                    out.push((keys[i], p.token));
                },
                None => {
                    assert(false);
                },
            }
            i += 1;
        }
        proof {
            assert forall|id: u16| #[trigger] self@.pending.contains_key(id) implies exists|i: int|
                0 <= i < out@.len() && (#[trigger] out@[i]).0 == id by {
                assert(keys@.contains(id));
                let k = choose|k: int| 0 <= k < keys@.len() && keys@[k] == id;
                assert(out@[k].0 == id);
            }
        }
        out
    }

    /// Forgets the queries with the given identifiers: nobody waits for them any more.
    pub fn forget(&mut self, ids: &Vec<u16>)
        ensures
            final(self)@ == (PipelineView {
                pending: old(self)@.pending.remove_keys(ids@.to_set()),
                ..old(self)@
            }),
    {
        let ghost a = self@;
        let mut i: usize = 0;
        assert(a.pending.remove_keys(ids@.subrange(0, 0).to_set()) =~= a.pending);
        while i < ids.len()
            invariant
                i <= ids@.len(),
                self@ == (PipelineView {
                    pending: a.pending.remove_keys(ids@.subrange(0, i as int).to_set()),
                    ..a
                }),
            decreases ids@.len() - i,
        {
            self.pending.remove(&ids[i]);
            proof {
                let before = ids@.subrange(0, i as int);
                let longer = ids@.subrange(0, i + 1);
                assert(longer =~= before.push(ids@[i as int]));
                assert forall|k: u16| longer.to_set().contains(k) <==> before.to_set().contains(k)
                    || k == ids@[i as int] by {
                    if before.contains(k) {
                        let j = choose|j: int| 0 <= j < before.len() && before[j] == k;
                        assert(longer[j] == k);
                    }
                    assert(longer[i as int] == ids@[i as int]);
                }
                assert(self@.pending =~= a.pending.remove_keys(longer.to_set()));
            }
            i += 1;
            assert(self@ =~= (PipelineView {
                pending: a.pending.remove_keys(ids@.subrange(0, i as int).to_set()),
                ..a
            }));
        }
        assert(ids@.subrange(0, ids@.len() as int) =~= ids@);
    }

    /// Gives up every query, because the connection is gone; says who waited.
    pub fn fail_all(&mut self) -> (r: Vec<u64>)
        ensures
            final(self)@ == (PipelineView { pending: Map::empty(), ..old(self)@ }),
            r@.len() == old(self)@.pending.dom().len(),
            forall|id: u16| #[trigger]
                old(self)@.pending.contains_key(id) ==> r@.contains(old(self)@.pending[id].token),
            forall|i: int| 0 <= i < r@.len() ==> old(self)@.waits(#[trigger] r@[i]),
    {
        let list = self.waiting();
        let mut out: Vec<u64> = Vec::new();
        let mut i: usize = 0;
        while i < list.len()
            invariant
                i <= list@.len(),
                out@.len() == i,
                forall|k: int| 0 <= k < i ==> #[trigger] out@[k] == list@[k].1,
            decreases list@.len() - i,
        {
            out.push(list[i].1);
            i += 1;
        }
        proof {
            let ids = list@.map_values(|e: (u16, u64)| e.0);
            assert(ids.no_duplicates()) by {
                assert forall|x: int, y: int| 0 <= x < ids.len() && 0 <= y < ids.len() && x
                    != y implies ids[x] != ids[y] by {
                    if x < y {
                        assert(list@[x].0 != list@[y].0);
                    } else {
                        assert(list@[y].0 != list@[x].0);
                    }
                }
            }
            assert(ids.to_set() =~= self@.pending.dom()) by {
                assert forall|k: u16| ids.to_set().contains(k) <==> self@.pending.dom().contains(
                    k,
                ) by {
                    if ids.contains(k) {
                        let j = choose|j: int| 0 <= j < ids.len() && ids[j] == k;
                        assert(list@[j].0 == k);
                    }
                    if self@.pending.contains_key(k) {
                        let j = choose|j: int| 0 <= j < list@.len() && (#[trigger] list@[j]).0 == k;
                        assert(ids[j] == k);
                    }
                }
            }
            ids.unique_seq_to_set();
            assert forall|id: u16| #[trigger] self@.pending.contains_key(id) implies out@.contains(
                self@.pending[id].token,
            ) by {
                let j = choose|j: int| 0 <= j < list@.len() && (#[trigger] list@[j]).0 == id;
                assert(out@[j] == list@[j].1);
            }
            assert forall|i: int| 0 <= i < out@.len() implies self@.waits(#[trigger] out@[i]) by {
                assert(self@.pending.contains_key(list@[i].0));
            }
        }
        self.pending.clear();
        assert(self@ =~= (PipelineView { pending: Map::empty(), ..old(self)@ }));
        out
    }
}

/// A query that was sent under an identifier of the connection gets the response that has this
/// identifier, and finds its own identifier in it. The rest of the response is unchanged.
pub proof fn law_response_comes_back_under_its_identifier(
    v: PipelineView,
    frame: Seq<u8>,
    conn_id: u16,
    token: u64,
    response: Seq<u8>,
)
    requires
        frame.len() >= 4,
        response.len() >= 2,
        response_id(response) == framed_id(relabelled(frame, conn_id)),
    ensures
        ({
            let p = Pending { token, original_id: framed_id(frame) };
            let got = delivery(query_sent(v, conn_id, p), response);
            &&& got matches Some((to, b)) && to == token && b.len() == response.len()
                && response_id(b) == framed_id(frame) && b.subrange(2, b.len() as int)
                == response.subrange(2, response.len() as int)
        }),
{
    let p = Pending { token, original_id: framed_id(frame) };
    let id = framed_id(frame);
    let b = with_id(response, id);
    assert(framed_id(relabelled(frame, conn_id)) == conn_id);
    assert(response_id(b) == id);
    assert(b.subrange(2, b.len() as int) =~= response.subrange(2, response.len() as int));
}

/// Queries that wait under different identifiers do not get each other's responses: taking one
/// response leaves the delivery of the other as it was.
pub proof fn law_responses_are_not_mixed_up(v: PipelineView, one: Seq<u8>, other: Seq<u8>)
    requires
        one.len() >= 2,
        other.len() >= 2,
        response_id(one) != response_id(other),
    ensures
        delivery(response_taken(v, one), other) == delivery(v, other),
{
}

/// A response is delivered once: a second one with the same identifier is dropped.
pub proof fn law_response_is_delivered_once(v: PipelineView, one: Seq<u8>, again: Seq<u8>)
    requires
        one.len() >= 2,
        again.len() >= 2,
        response_id(one) == response_id(again),
    ensures
        delivery(response_taken(v, one), again) is None,
{
}

/// A query goes over TLS only to a server that speaks it, with its length in front; to another it is not
/// sent, and the answer is an error of the handshake.
pub proof fn law_plain_servers_get_nothing_over_tls(
    upstream: &DnsUpstream,
    query: &[u8],
    r: Result<Vec<u8>, DotError>,
)
    requires
        dot_frame.ensures((upstream, query), r),
        query@.len() < 0x1_0000,
    ensures
        upstream is Plain ==> r is Err && r->Err_0 is TlsHandshake,
        upstream is Tls ==> r is Ok && r->Ok_0@.len() == query@.len() + 2 && r->Ok_0@[0] * 256
            + r->Ok_0@[1] == query@.len() && r->Ok_0@.subrange(2, r->Ok_0@.len() as int) == query@,
{
    crate::dns::frame::law_frame_is_read_back(query@);
}

/// How a query over TLS ends: in time with what the keeper answered, and else in the error for what
/// happened; never in a success that nobody gave.
pub proof fn law_waits_end_as_they_end(wait: DotWait, r: Result<Vec<u8>, DotError>)
    requires
        query_result.ensures((wait,), r),
    ensures
        wait is TimedOut ==> r is Err && r->Err_0 is Timeout,
        wait is NotTaken ==> r is Err && r->Err_0 is QueueFull,
        wait is Abandoned ==> r is Err && r->Err_0 is ConnectionClosed,
        wait matches DotWait::Answered(a) ==> r == a,
        r is Ok ==> wait is Answered,
{
}

/// An identifier comes again only after all others: of 65536 that follow each other no two are the same.
pub proof fn law_identifiers_come_round(id: u16, m: nat, n: nat)
    requires
        m < n < m + 0x1_0000,
    ensures
        later_id(id, m) != later_id(id, n),
{
    lemma_later_id(id, m);
    lemma_later_id(id, n);
    let (a, b) = (id + m, id + n);
    assert(a % 0x1_0000 != b % 0x1_0000) by {
        if a % 0x1_0000 == b % 0x1_0000 {
            assert((b - a) % 0x1_0000 == 0) by (nonlinear_arith)
                requires
                    a % 0x1_0000 == b % 0x1_0000,
            ;
        }
    }
}

proof fn lemma_later_id(id: u16, n: nat)
    ensures
        later_id(id, n) == (id + n) % 0x1_0000,
    decreases n,
{
    if n > 0 {
        lemma_later_id(id, (n - 1) as nat);
    }
}

/// An error says what failed, and why.
pub proof fn law_tls_errors_say_what_failed(e: &DotError, r: String)
    requires
        DotError::message.ensures((e,), r),
    ensures
        e matches DotError::TlsHandshake(m) ==> r@ == "TLS handshake failed: "@ + m@,
        e matches DotError::Io(m) ==> r@ == "I/O error: "@ + m@,
        e is ConnectionClosed ==> r@ == "Connection closed"@,
        e is Timeout ==> r@ == "Timeout"@,
        e is QueueFull ==> r@ == "Queue full"@,
{
}

} // verus!
