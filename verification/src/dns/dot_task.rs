//! The keeper of one connection to an upstream server: what it does when something happens. Where the
//! connection is lost, those who wait are told, and a new one is made.

use crate::dns::dot::{
    delivery, following, framed_id, query_sent, relabel, relabelled, response_id, response_taken,
    DotError, DotPipeline, IdSource, Pending, PipelineView, RECONNECT_SECS, SWEEP_INTERVAL,
};
use crate::dns::frame::framed;
use crate::dns::reply::with_id;
use vstd::prelude::*;

verus! {

broadcast use vstd::string::group_string_axioms;

/// What may happen.
#[derive(Debug)]
pub enum DotEvent {
    /// A connection could not be made.
    ConnectFailed,
    /// A connection was made.
    Connected,
    /// Somebody asks; the token says who.
    Query { token: u64, frame: Vec<u8> },
    /// A frame was written to the connection.
    Sent { conn_id: u16, token: u64, original_id: u16 },
    /// A frame could not be written to the connection.
    SendFailed { token: u64, reason: String },
    /// A response was read from the connection.
    Received(Vec<u8>),
    /// The connection cannot be read any more.
    ReadFailed,
    /// Nobody will ask any more.
    ChannelClosed,
}

/// What is done next.
#[derive(Debug)]
pub enum DotNext {
    /// Nothing: wait for what happens.
    Wait,
    /// Write the frame to the connection.
    Send { frame: Vec<u8>, conn_id: u16, token: u64, original_id: u16 },
    /// Look who does not wait any more.
    Sweep,
    /// Make a connection, after some seconds.
    Reconnect(u64),
    /// Come to an end.
    Stop,
}

/// What somebody is told.
pub type DotReply = (u64, Result<Vec<u8>, DotError>);

/// What is done after an event: who is told what, and what comes next.
#[derive(Debug)]
pub struct DotStep {
    pub replies: Vec<DotReply>,
    pub next: DotNext,
}

/// The reply says that the connection is closed.
pub open spec fn says_closed(r: DotReply) -> bool {
    r.1 matches Err(e) && e is ConnectionClosed
}

/// Everybody who waits is told that the connection is closed, from the place `from` of the replies
/// on.
pub open spec fn all_told(v: PipelineView, replies: Seq<DotReply>, from: int) -> bool {
    &&& replies.len() == from + v.pending.dom().len()
    &&& forall|i: int|
        from <= i < replies.len() ==> says_closed(#[trigger] replies[i]) && v.waits(replies[i].0)
    &&& forall|id: u16| #[trigger]
        v.pending.contains_key(id) ==> exists|i: int|
            from <= i < replies.len() && (#[trigger] replies[i]).0 == v.pending[id].token
}

/// What is done after an event.
pub open spec fn handled(
    a: PipelineView,
    upcoming: u16,
    event: DotEvent,
    b: PipelineView,
    r: DotStep,
) -> bool {
    match event {
        DotEvent::ConnectFailed => {
            &&& b == a
            &&& r.replies@.len() == 0
            &&& r.next matches DotNext::Reconnect(s) && s == RECONNECT_SECS
        },
        DotEvent::Connected => {
            &&& b == (PipelineView { pending: Map::empty(), sent: 0 })
            &&& r.replies@.len() == 0
            &&& r.next is Wait
        },
        DotEvent::Query { token, frame } => {
            &&& b == a
            &&& if frame@.len() < 4 {
                &&& r.replies@.len() == 1 && r.replies@[0].0 == token && says_closed(r.replies@[0])
                &&& r.next is Wait
            } else {
                &&& r.replies@.len() == 0
                &&& r.next matches DotNext::Send { frame: f, conn_id, token: t, original_id } && f@
                    == relabelled(frame@, upcoming) && conn_id == upcoming && t == token
                    && original_id == framed_id(frame@)
            }
        },
        DotEvent::Sent { conn_id, token, original_id } => {
            &&& b == query_sent(a, conn_id, Pending { token, original_id })
            &&& if a.pending.contains_key(conn_id) {
                r.replies@.len() == 1 && r.replies@[0].0 == a.pending[conn_id].token
                    && says_closed(r.replies@[0])
            } else {
                r.replies@.len() == 0
            }
            &&& if b.sent % SWEEP_INTERVAL == 0 {
                r.next is Sweep
            } else {
                r.next is Wait
            }
        },
        DotEvent::SendFailed { token, reason } => {
            &&& b == (PipelineView { pending: Map::empty(), ..a })
            &&& r.replies@.len() > 0 && r.replies@[0].0 == token
            &&& r.replies@[0].1 matches Err(DotError::Io(m)) && m@ == reason@
            &&& all_told(a, r.replies@, 1)
            &&& r.next matches DotNext::Reconnect(s) && s == 0
        },
        DotEvent::Received(response) => {
            &&& b == response_taken(a, response@)
            &&& match delivery(a, response@) {
                Some((token, bytes)) => r.replies@.len() == 1 && r.replies@[0].0 == token && (
                r.replies@[0].1 matches Ok(d) && d@ == bytes),
                None => r.replies@.len() == 0,
            }
            &&& r.next is Wait
        },
        DotEvent::ReadFailed => {
            &&& b == (PipelineView { pending: Map::empty(), ..a })
            &&& all_told(a, r.replies@, 0)
            &&& r.next matches DotNext::Reconnect(s) && s == 0
        },
        DotEvent::ChannelClosed => {
            &&& b == (PipelineView { pending: Map::empty(), ..a })
            &&& all_told(a, r.replies@, 0)
            &&& r.next is Stop
        },
    }
}

fn tell_all(pipeline: &mut DotPipeline, replies: &mut Vec<DotReply>)
    ensures
        final(pipeline)@ == (PipelineView { pending: Map::empty(), ..old(pipeline)@ }),
        all_told(old(pipeline)@, final(replies)@, old(replies)@.len() as int),
        forall|i: int| 0 <= i < old(replies)@.len() ==> final(replies)@[i] == old(replies)@[i],
{
    let ghost a = pipeline@;
    let ghost from = replies@.len();
    let tokens = pipeline.fail_all();
    let mut i: usize = 0;
    while i < tokens.len()
        invariant
            i <= tokens@.len(),
            from == old(replies)@.len(),
            replies@.len() == from + i,
            forall|k: int| 0 <= k < from ==> replies@[k] == old(replies)@[k],
            forall|k: int|
                from <= k < replies@.len() ==> says_closed(#[trigger] replies@[k]) && replies@[k].0
                    == tokens@[k - from],
        decreases tokens@.len() - i,
    {
        replies.push((tokens[i], Err(DotError::ConnectionClosed)));
        i += 1;
    }
    proof {
        assert forall|id: u16| #[trigger] a.pending.contains_key(id) implies exists|i: int|
            from <= i < replies@.len() && (#[trigger] replies@[i]).0 == a.pending[id].token by {
            let k = choose|k: int| 0 <= k < tokens@.len() && tokens@[k] == a.pending[id].token;
            assert(replies@[from + k].0 == a.pending[id].token);
        }
        assert forall|i: int| from <= i < replies@.len() implies says_closed(#[trigger] replies@[i])
            && a.waits(replies@[i].0) by {
            assert(a.waits(tokens@[i - from]));
        }
    }
}

/// The keeper of one connection.
pub struct DotTask {
    pub pipeline: DotPipeline,
}

impl DotTask {
    /// A keeper without connection.
    pub fn new() -> (r: DotTask)
        ensures
            r.pipeline@ == (PipelineView { pending: Map::empty(), sent: 0 }),
    {
        DotTask { pipeline: DotPipeline::new() }
    }

    /// Says what is done after an event. The identifiers come from a source that all connections
    /// share; a query takes the next one.
    pub fn handle(&mut self, ids: &mut IdSource, event: DotEvent) -> (r: DotStep)
        ensures
            handled(old(self).pipeline@, old(ids).upcoming(), event, final(self).pipeline@, r),
            final(ids).upcoming() == (if event is Query {
                ((old(ids).upcoming() + 1) % 0x1_0000) as u16
            } else {
                old(ids).upcoming()
            }),
            event is Query ==> final(ids).upcoming() == following(old(ids).upcoming()),
    {
        let mut replies: Vec<DotReply> = Vec::new();
        match event {
            DotEvent::ConnectFailed => DotStep {
                replies,
                next: DotNext::Reconnect(RECONNECT_SECS),
            },
            DotEvent::Connected => {
                self.pipeline = DotPipeline::new();
                DotStep { replies, next: DotNext::Wait }
            },
            DotEvent::Query { token, frame } => {
                let conn_id: u16 = ids.next_conn_id();
                match relabel(frame, conn_id) {
                    None => {
                        replies.push((token, Err(DotError::ConnectionClosed)));
                        DotStep { replies, next: DotNext::Wait }
                    },
                    Some((f, original_id)) => DotStep {
                        replies,
                        next: DotNext::Send { frame: f, conn_id, token, original_id },
                    },
                }
            },
            DotEvent::Sent { conn_id, token, original_id } => {
                let (replaced, due): (Option<u64>, bool) = self.pipeline.query_sent(
                    conn_id,
                    token,
                    original_id,
                );
                match replaced {
                    Some(t) => {
                        replies.push((t, Err(DotError::ConnectionClosed)));
                    },
                    None => {},
                }
                let next = if due {
                    DotNext::Sweep
                } else {
                    DotNext::Wait
                };
                DotStep { replies, next }
            },
            DotEvent::SendFailed { token, reason } => {
                replies.push((token, Err(DotError::Io(reason))));
                tell_all(&mut self.pipeline, &mut replies);
                DotStep { replies, next: DotNext::Reconnect(0) }
            },
            DotEvent::Received(response) => {
                match self.pipeline.response_received(response) {
                    Some((token, bytes)) => {
                        replies.push((token, Ok(bytes)));
                    },
                    None => {},
                }
                DotStep { replies, next: DotNext::Wait }
            },
            DotEvent::ReadFailed => {
                tell_all(&mut self.pipeline, &mut replies);
                DotStep { replies, next: DotNext::Reconnect(0) }
            },
            DotEvent::ChannelClosed => {
                tell_all(&mut self.pipeline, &mut replies);
                DotStep { replies, next: DotNext::Stop }
            },
        }
    }
}

/// The event ends the connection.
pub open spec fn ends_connection(event: DotEvent) -> bool {
    event is SendFailed || event is ReadFailed || event is ChannelClosed
}

/// When a connection is lost, nobody is left waiting for it: whoever waited is told, and nobody gets
/// a response.
pub proof fn law_lost_connection_leaves_nobody_waiting(
    a: PipelineView,
    upcoming: u16,
    event: DotEvent,
    b: PipelineView,
    r: DotStep,
    token: u64,
)
    requires
        handled(a, upcoming, event, b, r),
        ends_connection(event),
    ensures
        !b.waits(token),
        a.waits(token) ==> exists|i: int|
            0 <= i < r.replies@.len() && (#[trigger] r.replies@[i]).0 == token && says_closed(
                r.replies@[i],
            ),
        forall|i: int| 0 <= i < r.replies@.len() ==> (#[trigger] r.replies@[i]).1 is Err,
{
    if a.waits(token) {
        let id = choose|id: u16| #[trigger]
            a.pending.contains_key(id) && a.pending[id].token == token;
        assert(a.pending.contains_key(id));
    }
}

/// One event in the life of a keeper: the state before it, the identifier that came next, the state
/// after it and what was done.
pub struct Moment {
    pub before: PipelineView,
    pub upcoming: u16,
    pub event: DotEvent,
    pub after: PipelineView,
    pub step: DotStep,
}

/// The keeper asked at this moment for a frame to be written under the identifier.
pub open spec fn asks_to_send(m: Moment, conn_id: u16, token: u64, original_id: u16) -> bool {
    m.step.next matches DotNext::Send { frame: _, conn_id: c, token: t, original_id: o } && c
        == conn_id && t == token && o == original_id
}

/// The life of a keeper. It starts with nobody waiting; every event is handled; between two events
/// nothing is done but to forget some who wait; and a frame is reported as written only where the
/// keeper had asked for that.
pub open spec fn is_life(life: Seq<Moment>) -> bool {
    &&& life.len() > 0 ==> life[0].before.pending == Map::<u16, Pending>::empty()
    &&& forall|i: int|
        0 <= i < life.len() ==> {
            let m = #[trigger] life[i];
            handled(m.before, m.upcoming, m.event, m.after, m.step)
        }
    &&& forall|i: int|
        0 < i < life.len() ==> (#[trigger] life[i]).before.pending.submap_of(
            life[i - 1].after.pending,
        )
    &&& forall|i: int|
        0 <= i < life.len() ==> ((#[trigger] life[i]).event matches DotEvent::Sent {
            conn_id,
            token,
            original_id,
        } ==> exists|j: int|
            0 <= j < i && asks_to_send(#[trigger] life[j], conn_id, token, original_id))
}

/// The event leaves the query that waits under the identifier where it is.
pub open spec fn leaves(event: DotEvent, id: u16) -> bool {
    match event {
        DotEvent::Connected => false,
        DotEvent::Sent { conn_id, .. } => conn_id != id,
        DotEvent::Received(response) => !(response@.len() >= 2 && response_id(response@) == id),
        _ => !ends_connection(event),
    }
}

/// The query that waits under the identifier `id` at the end of the moment `n` was written at the
/// moment `s`, and nothing has touched it since.
spec fn waits_since(life: Seq<Moment>, n: int, s: int, id: u16, p: Pending) -> bool {
    &&& 0 <= s <= n
    &&& life[s].event matches DotEvent::Sent { conn_id, token, original_id } && conn_id == id
        && token == p.token && original_id == p.original_id
    &&& forall|m: int| s < m <= n ==> leaves((#[trigger] life[m]).event, id)
}

proof fn lemma_who_waits_was_sent(life: Seq<Moment>, n: int, id: u16)
    requires
        is_life(life),
        0 <= n < life.len(),
        life[n].after.pending.contains_key(id),
    ensures
        exists|s: int| #[trigger] waits_since(life, n, s, id, life[n].after.pending[id]),
    decreases n,
{
    let m = life[n];
    let p = m.after.pending[id];
    assert(handled(m.before, m.upcoming, m.event, m.after, m.step));
    if leaves(m.event, id) {
        assert(m.before.pending.contains_key(id) && m.before.pending[id] == p);
        assert(n > 0);
        assert(life[n - 1].after.pending.contains_key(id));
        assert(life[n - 1].after.pending[id] == p);
        lemma_who_waits_was_sent(life, n - 1, id);
        let s = choose|s: int| #[trigger] waits_since(life, n - 1, s, id, p);
        assert(waits_since(life, n, s, id, p));
    } else {
        assert(m.event is Sent);
        assert(waits_since(life, n, n, id, p));
    }
}

/// The bytes `d` are the answer to the query that was asked at the moment `j` and written at the
/// moment `s`: they came at the moment `i` as a response under the identifier that the query was
/// written under, on the same connection, while no other query had this identifier; and they are
/// that response, but for the identifier, which is the one that the query came with.
pub open spec fn is_answer(life: Seq<Moment>, i: int, j: int, s: int, token: u64, d: Seq<u8>) -> bool {
    &&& 0 <= j < s < i < life.len()
    &&& life[j].event matches DotEvent::Query { token: t, frame } && t == token && frame@.len() >= 4
        && d.len() >= 2 && response_id(d) == framed_id(frame@)
    &&& life[s].event matches DotEvent::Sent { conn_id, token: t, .. } && t == token && conn_id
        == life[j].upcoming
    &&& life[i].event matches DotEvent::Received(response) && response@.len() == d.len()
        && response_id(response@) == life[j].upcoming && d.subrange(2, d.len() as int)
        == response@.subrange(2, d.len() as int)
    &&& forall|m: int| s < m < i ==> leaves((#[trigger] life[m]).event, life[j].upcoming)
}

/// Whoever gets a response gets the answer to the own query, under the identifier of that query, and
/// never one to another query, however many are under way.
pub proof fn law_only_the_own_answer_comes_back(life: Seq<Moment>, i: int, k: int)
    requires
        is_life(life),
        0 <= i < life.len(),
        0 <= k < life[i].step.replies@.len(),
        life[i].step.replies@[k].1 is Ok,
    ensures
        exists|j: int, s: int| #[trigger]
            is_answer(
                life,
                i,
                j,
                s,
                life[i].step.replies@[k].0,
                life[i].step.replies@[k].1->Ok_0@,
            ),
{
    let m = life[i];
    let (token, d) = (m.step.replies@[k].0, m.step.replies@[k].1->Ok_0@);
    assert(handled(m.before, m.upcoming, m.event, m.after, m.step));
    assert(m.event is Received);
    let response = m.event->Received_0@;
    let id = response_id(response);
    let p = m.before.pending[id];
    assert(m.before.pending.contains_key(id) && p.token == token && d == with_id(
        response,
        p.original_id,
    ));
    assert(i > 0);
    assert(m.before.pending.submap_of(life[i - 1].after.pending));
    assert(m.before.pending.dom().contains(id));
    assert(life[i - 1].after.pending.contains_key(id));
    assert(life[i - 1].after.pending[id] == p);
    lemma_who_waits_was_sent(life, i - 1, id);
    let s = choose|s: int| #[trigger] waits_since(life, i - 1, s, id, p);
    assert(life[s].event is Sent);
    let j = choose|j: int|
        0 <= j < s && asks_to_send(#[trigger] life[j], id, token, p.original_id);
    let asked = life[j];
    assert(handled(asked.before, asked.upcoming, asked.event, asked.after, asked.step));
    assert(asked.event is Query);
    assert(response_id(d) == p.original_id);
    assert(d.subrange(2, d.len() as int) =~= response.subrange(2, d.len() as int));
    assert(is_answer(life, i, j, s, token, d));
}

/// The identifier in the frame of a query is that of the query.
pub proof fn law_frame_holds_the_identifier(query: Seq<u8>)
    requires
        query.len() >= 2,
    ensures
        framed(query).len() >= 4,
        framed_id(framed(query)) == response_id(query),
{
}

/// A connection that could not be made is tried again after five seconds; one that was lost is made
/// again at once. After every 64th frame that was sent, those who do not wait any more are looked for.
pub proof fn law_keeper_keeps_its_times(
    a: PipelineView,
    upcoming: u16,
    event: DotEvent,
    b: PipelineView,
    r: DotStep,
)
    requires
        handled(a, upcoming, event, b, r),
    ensures
        event is ConnectFailed ==> (r.next matches DotNext::Reconnect(s) && s == 5) && b == a,
        event is SendFailed || event is ReadFailed ==> (r.next matches DotNext::Reconnect(s) && s
            == 0),
        event is ChannelClosed ==> r.next is Stop,
        event is Sent ==> (r.next is Sweep <==> b.sent % 64 == 0),
        event is Sent && a.sent < u32::MAX ==> b.sent == a.sent + 1,
        event is Connected ==> b.sent == 0 && b.pending == Map::<u16, Pending>::empty(),
        crate::dns::dot::TLS_HANDSHAKE_TIMEOUT_SECS == 10,
        crate::dns::dot::CHANNEL_BOUND == 128,
{
}

/// A query is sent under the identifier that comes next, which is not its own: the frame is the one
/// that was asked for but for the two bytes of the identifier behind its length.
pub proof fn law_query_is_sent_under_the_next_identifier(
    a: PipelineView,
    upcoming: u16,
    event: DotEvent,
    b: PipelineView,
    r: DotStep,
)
    requires
        handled(a, upcoming, event, b, r),
        event is Query,
        event->frame@.len() >= 4,
    ensures
        b == a,
        r.replies@.len() == 0,
        r.next matches DotNext::Send { frame, conn_id, token, original_id } && {
            let asked = event->frame@;
            &&& conn_id == upcoming
            &&& token == event->Query_token
            &&& original_id == asked[2] * 256 + asked[3]
            &&& frame@.len() == asked.len()
            &&& frame@[2] * 256 + frame@[3] == upcoming
            &&& forall|i: int|
                0 <= i < asked.len() && i != 2 && i != 3 ==> #[trigger] frame@[i] == asked[i]
        },
{
}

} // verus!
