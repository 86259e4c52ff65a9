//! What the listeners do with datagrams, connections and results.

use crate::dns::frame::{frame, framed};
use crate::dns::message::{self, cut, decoded_head, rewritten, REFUSED, SERVFAIL};
use crate::dns::reply::{
    self, bare_error, payload_limit, truncated_form, QueryResult, ResultView,
};
use vstd::prelude::*;

verus! {

/// Seconds for which a connection may be silent.
pub const IDLE_TIMEOUT_SECS: u64 = 10;

/// The length of datagram of a client that does not say what it takes.
pub const DEFAULT_PAYLOAD: u16 = 512;

/// Bounds the number of queries that are worked on at the same time.
pub struct QueryLimiter {
    free: usize,
    total: usize,
}

/// A place is taken where one is free, and only there: `before` places were free, `after` are.
pub open spec fn is_taken(before: int, after: int, taken: bool) -> bool {
    taken == (before > 0) && after == before - (if taken {
        1int
    } else {
        0
    })
}

impl QueryLimiter {
    /// How many queries may still start.
    pub closed spec fn available(&self) -> int {
        self.free as int
    }

    /// How many queries may be worked on at the same time.
    pub closed spec fn capacity(&self) -> int {
        self.total as int
    }

    /// The type's invariant: there is room for at least one query, and no more places are free than
    /// there are.
    pub open spec fn well_formed(&self) -> bool {
        0 <= self.available() <= self.capacity() && self.capacity() >= 1
    }

    /// A limiter for so many queries; for one where the number is zero, so that the server never
    /// stands still.
    pub fn new(max_concurrent: usize) -> (r: QueryLimiter)
        ensures
            r.well_formed(),
            r.capacity() == (if max_concurrent == 0 {
                1
            } else {
                max_concurrent as int
            }),
            r.available() == r.capacity(),
    {
        let n: usize = if max_concurrent == 0 {
            1
        } else {
            max_concurrent
        };
        QueryLimiter { free: n, total: n }
    }

    /// Takes a place, if one is free.
    pub fn try_acquire(&mut self) -> (r: bool)
        ensures
            r == (old(self).available() > 0),
            final(self).available() == (if r {
                old(self).available() - 1
            } else {
                old(self).available()
            }),
            final(self).capacity() == old(self).capacity(),
            old(self).well_formed() ==> final(self).well_formed(),
            is_taken(old(self).available(), final(self).available(), r),
    {
        if self.free == 0 {
            false
        } else {
            self.free = self.free - 1;
            true
        }
    }

    /// Gives a place back.
    pub fn release(&mut self)
        requires
            old(self).available() < old(self).capacity(),
        ensures
            final(self).available() == old(self).available() + 1,
            final(self).capacity() == old(self).capacity(),
            old(self).well_formed() ==> final(self).well_formed(),
    {
        self.free = self.free + 1;
    }
}

/// Whether a response is too long for a client; a client takes at least 512 bytes.
pub fn needs_truncation(bytes_len: usize, max_payload: usize) -> (r: bool)
    ensures
        r == (bytes_len > payload_limit(max_payload)),
        r == (bytes_len > 512 && bytes_len > max_payload),
{
    let limit: usize = if max_payload < 512 {
        512
    } else {
        max_payload
    };
    bytes_len > limit
}

/// The identifier of a query and the length of datagram that its client takes; none where the bytes
/// are no message.
pub fn query_origin(query: &[u8]) -> (r: Option<(u16, usize)>)
    ensures
        match r {
            Some((id, max)) => decoded_head(query@) matches Some(h) && id == h.id && max == (
            match h.edns {
                Some(e) => e.max_payload,
                None => 512,
            }),
            None => decoded_head(query@) is None,
        },
{
    match message::decode_head(query) {
        None => None,
        Some(head) => {
            let max: u16 = match head.edns {
                Some(e) => e.max_payload,
                None => DEFAULT_PAYLOAD,
            };
            Some((head.id, max as usize))
        },
    }
}

/// The bytes that a result is sent in: a response as it is, any other as a bare error.
pub open spec fn reply_bytes(result: ResultView, id: u16) -> Seq<u8> {
    match result {
        ResultView::Response(b) => b,
        ResultView::ServerFailure => bare_error(id, SERVFAIL),
        ResultView::Refused => bare_error(id, REFUSED),
    }
}

/// The datagram that a result is sent in: a response that is too long for the client is cut down.
pub open spec fn datagram(result: ResultView, id: u16, max_payload: usize) -> Seq<u8> {
    let b = reply_bytes(result, id);
    if result is Response && b.len() > payload_limit(max_payload) {
        match truncated_form(b, max_payload) {
            Some(t) => t,
            None => b,
        }
    } else {
        b
    }
}

fn bytes_of(result: QueryResult, id: u16) -> (r: Vec<u8>)
    ensures
        r@ == reply_bytes(result@, id),
{
    match result {
        QueryResult::Response(b) => b,
        QueryResult::ServerFailure => reply::make_bare_error(id, SERVFAIL),
        QueryResult::Refused => reply::make_bare_error(id, REFUSED),
    }
}

/// The datagram that a result is sent in to a client.
pub fn udp_reply(result: QueryResult, id: u16, max_payload: usize) -> (r: Vec<u8>)
    ensures
        r@ == datagram(result@, id, max_payload),
{
    let bytes = bytes_of(result, id);
    if needs_truncation(bytes.len(), max_payload) {
        match reply::truncate_if_needed(bytes.as_slice(), max_payload) {
            Some(t) => t,
            None => bytes,
        }
    } else {
        bytes
    }
}

/// The bytes that a result is sent in over a connection.
pub fn tcp_reply(result: QueryResult, id: u16) -> (r: Vec<u8>)
    ensures
        r@ == framed(reply_bytes(result@, id)),
{
    let bytes = bytes_of(result, id);
    frame(bytes.as_slice())
}

/// A response of 512 bytes or less is sent as it is, whatever the client says that it takes.
pub proof fn law_short_responses_are_sent_whole(b: Seq<u8>, id: u16, max_payload: usize)
    requires
        b.len() <= 512,
    ensures
        datagram(ResultView::Response(b), id, max_payload) == b,
{
}

/// A response is sent whole where the client takes datagrams of its length, and a client takes at least
/// 512 bytes. A longer one is sent in the form that it is cut down to, where there is one; and what
/// would fit once written anew is not cut down.
pub proof fn law_long_responses_are_cut_down(b: Seq<u8>, id: u16, max_payload: usize)
    ensures
        ({
            let sent = datagram(ResultView::Response(b), id, max_payload);
            let takes = |n: int| n <= 512 || n <= max_payload;
            &&& takes(b.len() as int) ==> sent == b
            &&& !takes(b.len() as int) && decoded_head(b) is None ==> sent == b
            &&& !takes(b.len() as int) && decoded_head(b) is Some && rewritten(b) is Some && takes(
                rewritten(b)->0.len() as int,
            ) ==> sent == b
            &&& !takes(b.len() as int) && decoded_head(b) is Some && cut(b) is Some && (rewritten(
                b,
            ) is None || !takes(rewritten(b)->0.len() as int)) ==> sent == cut(b)->0
        }),
{
}

/// What is no response is sent as a header alone: twelve bytes with the identifier of the query, the
/// mark of a response, and the code 2 for a failure or 5 for a refusal.
pub proof fn law_bare_errors_are_headers(id: u16, max_payload: usize)
    ensures
        ({
            let failed = datagram(ResultView::ServerFailure, id, max_payload);
            let refused = datagram(ResultView::Refused, id, max_payload);
            &&& failed.len() == 12 && refused.len() == 12
            &&& failed[0] * 256 + failed[1] == id && refused[0] * 256 + refused[1] == id
            &&& failed[2] == 128 && refused[2] == 128
            &&& failed[3] == 2 && refused[3] == 5
            &&& forall|i: int| 4 <= i < 12 ==> failed[i] == 0 && refused[i] == 0
            &&& reply_bytes(ResultView::ServerFailure, id) == failed
            &&& reply_bytes(ResultView::Refused, id) == refused
        }),
{
}

/// The times and lengths of the listeners: a connection may be silent for ten seconds, and a client
/// that says nothing takes 512 bytes.
pub proof fn law_limits_of_the_listeners()
    ensures
        IDLE_TIMEOUT_SECS == 10,
        DEFAULT_PAYLOAD == 512,
{
}

/// How many of the attempts to start a query were successful.
pub open spec fn started(taken: Seq<bool>) -> nat
    decreases taken.len(),
{
    if taken.len() == 0 {
        0
    } else {
        started(taken.drop_last()) + (if taken.last() {
            1nat
        } else {
            0
        })
    }
}

/// No more queries are worked on at the same time than there is room for: while none ends, an attempt to
/// start one succeeds exactly where fewer have started before it than there is room for.
pub proof fn law_only_so_many_queries_at_a_time(
    capacity: int,
    free: Seq<int>,
    taken: Seq<bool>,
    n: int,
)
    requires
        capacity >= 1,
        free.len() == taken.len() + 1,
        free[0] == capacity,
        forall|i: int|
            0 <= i < taken.len() ==> is_taken(free[i], #[trigger] free[i + 1], taken[i]),
        0 <= n <= taken.len(),
    ensures
        started(taken.subrange(0, n)) <= capacity,
        free[n] == capacity - started(taken.subrange(0, n)),
        n < taken.len() ==> (taken[n] <==> started(taken.subrange(0, n)) < capacity),
    decreases n,
{
    if n > 0 {
        law_only_so_many_queries_at_a_time(capacity, free, taken, n - 1);
        assert(taken.subrange(0, n).drop_last() =~= taken.subrange(0, n - 1));
        assert(taken.subrange(0, n).last() == taken[n - 1]);
        assert(is_taken(free[n - 1], free[n - 1 + 1], taken[n - 1]));
    }
    if n < taken.len() {
        assert(is_taken(free[n], free[n + 1], taken[n]));
    }
}

/// There is room for as many queries as is configured, and for one where that is none.
pub proof fn law_there_is_always_room(max: usize, r: QueryLimiter)
    requires
        QueryLimiter::new.ensures((max,), r),
    ensures
        r.capacity() >= 1,
        max >= 1 ==> r.capacity() == max,
        max == 0 ==> r.capacity() == 1,
        r.available() == r.capacity(),
{
}

/// A response goes out as it is: over a connection with its length in front, in a datagram where the
/// client takes its length, which is at least 512 bytes.
pub proof fn law_responses_go_out_as_they_are(
    result: QueryResult,
    id: u16,
    max_payload: usize,
    over_tcp: Vec<u8>,
    over_udp: Vec<u8>,
)
    requires
        tcp_reply.ensures((result, id), over_tcp),
        udp_reply.ensures((result, id, max_payload), over_udp),
        result is Response,
        result->Response_0@.len() < 0x1_0000,
    ensures
        ({
            let b = result->Response_0@;
            &&& over_tcp@.len() == b.len() + 2
            &&& over_tcp@[0] * 256 + over_tcp@[1] == b.len()
            &&& over_tcp@.subrange(2, over_tcp@.len() as int) == b
            &&& b.len() <= 512 || b.len() <= max_payload ==> over_udp@ == b
        }),
{
    crate::dns::frame::law_frame_is_read_back(result->Response_0@);
}

/// A query comes with its identifier and with the length of datagram that its client takes, 512 where it
/// says none.
pub proof fn law_clients_say_what_they_take(query: &[u8], r: Option<(u16, usize)>)
    requires
        query_origin.ensures((query,), r),
    ensures
        r is Some <==> decoded_head(query@) is Some,
        r is Some ==> (r->0).0 == decoded_head(query@)->0.id,
        r is Some && decoded_head(query@)->0.edns is None ==> (r->0).1 == 512,
        r is Some && decoded_head(query@)->0.edns is Some ==> (r->0).1 == decoded_head(
            query@,
        )->0.edns->0.max_payload,
{
}

} // verus!
