//! What is done with a query, in order: too many queries of a client are refused, blocked domains
//! are answered as the mode says, cached answers are served, and the rest goes to the upstream
//! servers.

use crate::address::IpAddr;
use crate::blocking::lists::{decision, BlockingEngine, ListsView};
use crate::clock;
use crate::config::BlockingMode;
use crate::database::queries::StoredQuery;
use crate::database::status::QueryStatus;
use crate::dns::cache::{
    insert_outcome, lookup, since, CacheKey, CacheView, CachedResponse, DnsCache, EntryView, SECOND,
};
use crate::dns::cache_table::KeyView;
use crate::dns::message::{
    self, decoded_head, decoded_records, name_text, rewritten, HeadView, MessageHead, CLASS_IN,
    FORMERR, REFUSED, SERVFAIL,
};
use crate::dns::rate_limit::{limited, LimiterView, RateLimiter};
use crate::dns::reply::{
    self, aged_ttl, blocked_plan, blocked_result, cache_ttl, carries, error_plan, error_result,
    served, QueryResult, ResultView,
};
use crate::over_time::{query_recorded, OverTime};
use crate::text;
use vstd::prelude::*;

verus! {

broadcast use vstd::string::group_string_axioms;

/// Nanoseconds that the upstream servers have for an answer.
pub const DEFAULT_TIMEOUT: u64 = 5_000_000_000;

/// Nanoseconds in a millisecond.
pub const MILLISECOND: u64 = 1_000_000;

/// The settings that a query is routed by. They are read anew for every query.
#[derive(Debug, Clone, Copy)]
pub struct RouteSettings {
    pub blocking_mode: BlockingMode,
    pub blocking_ip: IpAddr,
}

/// Routes queries.
pub struct QueryRouter {
    pub cache: DnsCache,
    pub rate_limiter: RateLimiter,
    pub blocking: BlockingEngine,
}

/// The contents of a `QueryRouter`.
#[verifier::ext_equal]
pub struct RouterView {
    pub cache: CacheView,
    pub limiter: LimiterView,
    pub lists: ListsView,
}

impl View for QueryRouter {
    type V = RouterView;

    open spec fn view(&self) -> RouterView {
        RouterView {
            cache: self.cache@,
            limiter: self.rate_limiter@,
            lists: self.blocking.lists@,
        }
    }
}

/// What the log gets to know of a query.
#[derive(Debug)]
pub struct QueryNote {
    pub domain: String,
    pub qtype: u16,
    pub status: QueryStatus,
}

/// The contents of a `QueryNote`.
pub struct NoteView {
    pub domain: Seq<char>,
    pub qtype: u16,
    pub status: QueryStatus,
}

impl View for QueryNote {
    type V = NoteView;

    open spec fn view(&self) -> NoteView {
        NoteView { domain: self.domain@, qtype: self.qtype, status: self.status }
    }
}

/// A query that the upstream servers have to answer.
#[derive(Debug)]
pub struct Forwarding {
    pub id: u16,
    pub domain: String,
    pub key: CacheKey,
    /// When the query came.
    pub started: u64,
}

/// The contents of a `Forwarding`.
pub struct ForwardingView {
    pub id: u16,
    pub domain: Seq<char>,
    pub key: KeyView,
    pub started: u64,
}

impl View for Forwarding {
    type V = ForwardingView;

    open spec fn view(&self) -> ForwardingView {
        ForwardingView {
            id: self.id,
            domain: self.domain@,
            key: self.key@,
            started: self.started,
        }
    }
}

/// What a query leads to.
#[derive(Debug)]
pub enum RouteStep {
    /// The bytes are no message.
    Ignore,
    /// The query is answered; a query without question is not logged.
    Answer(QueryResult, Option<QueryNote>),
    /// The upstream servers have to answer.
    Forward(Forwarding),
}

/// The contents of a `RouteStep`.
pub enum StepView {
    Ignore,
    Answer(ResultView, Option<NoteView>),
    Forward(ForwardingView),
}

impl View for RouteStep {
    type V = StepView;

    open spec fn view(&self) -> StepView {
        match *self {
            RouteStep::Ignore => StepView::Ignore,
            RouteStep::Answer(r, None) => StepView::Answer(r@, None),
            RouteStep::Answer(r, Some(n)) => StepView::Answer(r@, Some(n@)),
            RouteStep::Forward(f) => StepView::Forward(f@),
        }
    }
}

/// What the answer to a query is cached by. Upper and lower case do not matter, nor does the class.
pub open spec fn key_of(head: HeadView, domain: Seq<char>, qtype: u16) -> KeyView {
    (
        text::lowercase(domain),
        qtype,
        CLASS_IN,
        match head.edns {
            Some(e) => e.dnssec_ok,
            None => false,
        },
        None,
    )
}

/// Whole seconds from one time to another, as a number of 32 bits.
pub open spec fn whole_seconds(from: u64, to: u64) -> u32 {
    ((since(from, to) / (SECOND as int)) % 0x1_0000_0000) as u32
}

fn seconds_between(from: u64, to: u64) -> (r: u32)
    ensures
        r == whole_seconds(from, to),
{
    let whole: u64 = to.saturating_sub(from) / SECOND;
    (whole % 0x1_0000_0000) as u32
}

/// What a query with a question leads to behind the limit, and the router after it.
pub open spec fn routed_question(
    a: RouterView,
    s: RouteSettings,
    query: Seq<u8>,
    head: HeadView,
    now: u64,
) -> (RouterView, StepView) {
    let q = head.questions[0];
    let domain = name_text(q.name);
    let note = |status: QueryStatus| NoteView { domain, qtype: q.qtype, status };
    if s.blocking_mode != BlockingMode::Disabled && decision(a.lists, domain).blocks() {
        (
            a,
            StepView::Answer(
                blocked_result(query, head.id, head, s.blocking_mode, q.qtype, s.blocking_ip),
                Some(note(QueryStatus::Blocked)),
            ),
        )
    } else {
        let key = key_of(head, domain, q.qtype);
        let (cache, hit) = lookup(a.cache, key, now);
        let b = RouterView { cache, ..a };
        match hit {
            Some(e) => (
                b,
                StepView::Answer(
                    ResultView::Response(
                        served(e.data, head.id, whole_seconds(e.cached_at, now)),
                    ),
                    Some(note(QueryStatus::Cached)),
                ),
            ),
            None => (
                b,
                StepView::Forward(ForwardingView { id: head.id, domain, key, started: now }),
            ),
        }
    }
}

/// What a query leads to, and the router after it.
pub open spec fn routed(
    a: RouterView,
    s: RouteSettings,
    query: Seq<u8>,
    client: IpAddr,
    now: u64,
) -> (RouterView, StepView) {
    match decoded_head(query) {
        None => (a, StepView::Ignore),
        Some(head) => if head.questions.len() == 0 {
            (a, StepView::Answer(error_result(query, head.id, FORMERR), None))
        } else {
            let (limiter, over) = limited(a.limiter, client, now);
            let b = RouterView { limiter, ..a };
            if over {
                let q = head.questions[0];
                (
                    b,
                    StepView::Answer(
                        error_result(query, head.id, REFUSED),
                        Some(
                            NoteView {
                                domain: name_text(q.name),
                                qtype: q.qtype,
                                status: QueryStatus::RateLimited,
                            },
                        ),
                    ),
                )
            } else {
                routed_question(b, s, query, head, now)
            }
        },
    }
}

/// A client that asked a hundred questions at most can read the answer to a blocked or refused
/// query: it has the identifier and the questions of the query, and what the mode says.
pub open spec fn readable_answer(s: RouteSettings, query: Seq<u8>, step: StepView) -> bool {
    let h = decoded_head(query)->0;
    step matches StepView::Answer(result, Some(note)) ==> h.questions.len() <= 100 ==> {
        &&& note.status == QueryStatus::Blocked ==> carries(
            result,
            blocked_plan(h.id, h, s.blocking_mode, h.questions[0].qtype, s.blocking_ip),
            h.questions,
        )
        &&& note.status == QueryStatus::RateLimited ==> carries(
            result,
            error_plan(h.id, REFUSED),
            h.questions,
        )
    }
}

/// The result of a forwarded query: a server failure where no upstream server answered.
pub open spec fn finished(
    f: ForwardingView,
    query: Seq<u8>,
    upstream: Option<Seq<u8>>,
) -> (ResultView, NoteView) {
    let failed = (
        error_result(query, f.id, SERVFAIL),
        NoteView { domain: f.domain, qtype: f.key.1, status: QueryStatus::Servfail },
    );
    match upstream {
        None => failed,
        Some(data) => match rewritten(data) {
            None => failed,
            Some(b) => (
                ResultView::Response(b),
                NoteView { domain: f.domain, qtype: f.key.1, status: QueryStatus::Forwarded },
            ),
        },
    }
}

/// For how many seconds the answer to a forwarded query is cached: what it says, less the time that
/// it took. Zero where it is not.
pub open spec fn kept_for(f: ForwardingView, upstream: Option<Seq<u8>>, now: u64) -> u32 {
    match upstream {
        None => 0,
        Some(data) => if rewritten(data) is Some && decoded_head(data) is Some && decoded_records(
            data,
        ) is Some {
            aged_ttl(
                cache_ttl(decoded_head(data)->0.response_code, decoded_records(data)->0),
                whole_seconds(f.started, now),
            )
        } else {
            0
        },
    }
}

/// The entry under which an answer is cached.
pub open spec fn entry_for(data: Seq<u8>, ttl: u32, qtype: u16, now: u64) -> EntryView {
    EntryView {
        data,
        cached_at: now,
        original_ttl: ttl,
        ttl,
        qtype,
        qclass: CLASS_IN,
        hits: 0,
    }
}

/// The cache after a forwarded query came to its end at the time `now`.
pub open spec fn cache_finished(
    a: CacheView,
    f: ForwardingView,
    upstream: Option<Seq<u8>>,
    now: u64,
    b: CacheView,
) -> bool {
    let ttl = kept_for(f, upstream, now);
    if ttl > 0 {
        insert_outcome(a, f.key, entry_for(rewritten(upstream->0)->0, ttl, f.key.1, now), now, b)
    } else {
        b == a
    }
}

/// For how many seconds a response may be cached; none where the bytes are no message.
pub fn response_ttl(data: &[u8]) -> (r: Option<u32>)
    ensures
        match r {
            Some(ttl) => decoded_head(data@) is Some && decoded_records(data@) is Some && ttl
                == cache_ttl(decoded_head(data@)->0.response_code, decoded_records(data@)->0),
            None => decoded_head(data@) is None || decoded_records(data@) is None,
        },
{
    match message::decode_head(data) {
        None => None,
        Some(head) => match message::decode_records(data) {
            None => None,
            Some(records) => Some(reply::cache_ttl_secs(head.response_code, &records)),
        },
    }
}

fn note_of(domain: &String, qtype: u16, status: QueryStatus) -> (r: QueryNote)
    ensures
        r@ == (NoteView { domain: domain@, qtype, status }),
{
    QueryNote { domain: domain.clone(), qtype, status }
}

impl QueryRouter {
    /// A router with an empty cache, made at the time `now`.
    pub fn new(
        cache_size: usize,
        rate_limit: u32,
        blocking: BlockingEngine,
        now: u64,
    ) -> (r: QueryRouter)
        ensures
            r@.cache == (CacheView { entries: Map::empty(), max: cache_size, hits: 0, misses: 0 }),
            r@.cache.well_formed(),
            r@.limiter == (LimiterView { max: rate_limit, clients: Map::empty(), last_cleanup: now }),
            r.blocking == blocking,
    {
        QueryRouter {
            cache: DnsCache::new(cache_size),
            rate_limiter: RateLimiter::new(rate_limit, now),
            blocking,
        }
    }

    /// Answers a query as far as the server can do so itself.
    pub fn route(
        &mut self,
        settings: RouteSettings,
        query: &[u8],
        client: IpAddr,
        now: u64,
    ) -> (r: RouteStep)
        ensures
            final(self)@ == routed(old(self)@, settings, query@, client, now).0,
            r@ == routed(old(self)@, settings, query@, client, now).1,
            final(self).blocking == old(self).blocking,
            old(self)@.cache.well_formed() ==> final(self)@.cache.well_formed(),
            readable_answer(settings, query@, r@),
    {
        let ghost a = self@;
        let head: MessageHead = match message::decode_head(query) {
            Some(h) => h,
            None => {
                return RouteStep::Ignore;
            },
        };
        let ghost h = head@;
        assert(h.questions.len() == head.questions@.len());
        let id: u16 = head.id;
        if head.questions.len() == 0 {
            return RouteStep::Answer(reply::make_error_response(id, query, FORMERR), None);
        }
        assert(h.questions[0] == head.questions@[0]@);
        let domain: String = message::text_of_name(&head.questions[0].name);
        let qtype: u16 = head.questions[0].qtype;
        let over: bool = self.rate_limiter.is_rate_limited(client, now);
        let ghost b = self@;
        assert(b =~= (RouterView { limiter: limited(a.limiter, client, now).0, ..a }));
        if over {
            return RouteStep::Answer(
                reply::make_error_response(id, query, REFUSED),
                Some(note_of(&domain, qtype, QueryStatus::RateLimited)),
            );
        }
        if reply::blocking_applies(settings.blocking_mode) && self.blocking.is_blocked(
            domain.as_str(),
        ) {
            let result = reply::make_blocked_response(
                id,
                query,
                &head,
                settings.blocking_mode,
                qtype,
                settings.blocking_ip,
            );
            return RouteStep::Answer(
                result,
                Some(note_of(&domain, qtype, QueryStatus::Blocked)),
            );
        }
        let key = CacheKey {
            domain: text::to_lowercase(domain.as_str()),
            qtype,
            qclass: CLASS_IN,
            dnssec_ok: match head.edns {
                Some(e) => e.dnssec_ok,
                None => false,
            },
            ecs_subnet: None,
        };
        assert(key@ == key_of(h, domain@, qtype));
        match self.cache.get(&key, now) {
            Some(cached) => {
                assert(self@ =~= (RouterView { cache: lookup(b.cache, key@, now).0, ..b }));
                let elapsed: u32 = seconds_between(cached.cached_at, now);
                RouteStep::Answer(
                    QueryResult::Response(reply::serve_cached(cached.data, id, elapsed)),
                    Some(note_of(&domain, qtype, QueryStatus::Cached)),
                )
            },
            None => {
                assert(self@ =~= (RouterView { cache: lookup(b.cache, key@, now).0, ..b }));
                RouteStep::Forward(Forwarding { id, domain, key, started: now })
            },
        }
    }

    /// Takes the answer of the upstream servers to a query, or that there was none, and caches it
    /// where it may be cached.
    pub fn finish(
        &mut self,
        forwarding: Forwarding,
        query: &[u8],
        upstream: Option<&[u8]>,
        now: u64,
    ) -> (r: (QueryResult, QueryNote))
        requires
            old(self)@.cache.well_formed(),
        ensures
            ({
                let data = match upstream {
                    Some(d) => Some(d@),
                    None => None,
                };
                let (result, note) = finished(forwarding@, query@, data);
                &&& r.0@ == result
                &&& r.1@ == note
                &&& cache_finished(old(self)@.cache, forwarding@, data, now, final(self)@.cache)
            }),
            final(self)@ == (RouterView { cache: final(self)@.cache, ..old(self)@ }),
            final(self).blocking == old(self).blocking,
            final(self)@.cache.well_formed(),
            r.1.status == QueryStatus::Forwarded ==> (r.0@ matches ResultView::Response(b)
                && upstream is Some && message::same_id(upstream->0@, b)),
            r.1.status == QueryStatus::Servfail && decoded_head(query@) is Some && decoded_head(
                query@,
            )->0.questions.len() <= 100 ==> carries(
                r.0@,
                error_plan(forwarding.id, SERVFAIL),
                decoded_head(query@)->0.questions,
            ),
    {
        let qtype: u16 = forwarding.key.qtype;
        match upstream {
            None => {},
            Some(data) => match message::rewrite(data) {
                None => {},
                Some(bytes) => {
                    let whole: u32 = match response_ttl(data) {
                        Some(ttl) => ttl,
                        None => 0,
                    };
                    let ttl: u32 = whole.saturating_sub(seconds_between(forwarding.started, now));
                    assert(ttl == kept_for(forwarding@, Some(data@), now));
                    let note = note_of(&forwarding.domain, qtype, QueryStatus::Forwarded);
                    if ttl > 0 {
                        let entry = CachedResponse {
                            data: crate::dns::cache::copy_bytes(&bytes),
                            cached_at: now,
                            original_ttl: ttl,
                            ttl,
                            qtype,
                            qclass: CLASS_IN,
                            hits: 0,
                        };
                        assert(entry@ =~= entry_for(bytes@, ttl, qtype, now));
                        self.cache.insert(forwarding.key, entry, now);
                    }
                    return (QueryResult::Response(bytes), note);
                },
            },
        }
        (
            reply::make_error_response(forwarding.id, query, SERVFAIL),
            note_of(&forwarding.domain, qtype, QueryStatus::Servfail),
        )
    }
}

/// The attempts to get an answer out of the upstream servers, one after the other. Together they
/// end by a deadline, so that slow servers cannot add up their delays.
#[derive(Debug, Clone, Copy)]
pub struct Attempts {
    /// How many upstream servers there are.
    pub count: usize,
    /// The server that is asked next.
    pub next: usize,
    /// The longest time for one server.
    pub per_attempt: u64,
    pub deadline: u64,
}

/// The attempt that is made at the time `now`, if any: the next server and the time that it has, which
/// does not go beyond the deadline. The attempts after it.
pub open spec fn attempt(a: Attempts, now: u64) -> (Attempts, Option<(usize, u64)>) {
    if a.next >= a.count || now >= a.deadline {
        (a, None)
    } else {
        let budget = if a.per_attempt <= a.deadline - now {
            a.per_attempt
        } else {
            (a.deadline - now) as u64
        };
        (Attempts { next: (a.next + 1) as usize, ..a }, Some((a.next, budget)))
    }
}

impl Attempts {
    /// Attempts that start at the time `now` and end `overall` nanoseconds later.
    pub fn start(count: usize, per_attempt: u64, overall: u64, now: u64) -> (r: Attempts)
        ensures
            r.count == count,
            r.next == 0,
            r.per_attempt == per_attempt,
            r.deadline == (if now + overall > u64::MAX {
                u64::MAX as int
            } else {
                now + overall
            }),
    {
        Attempts { count, next: 0, per_attempt, deadline: now.saturating_add(overall) }
    }

    /// The server to ask at the time `now` and the time that it has; none when every server was
    /// asked or the deadline is reached.
    pub fn step(&mut self, now: u64) -> (r: Option<(usize, u64)>)
        ensures
            match r {
                Some((server, budget)) => {
                    &&& old(self).next < old(self).count
                    &&& now < old(self).deadline
                    &&& server == old(self).next
                    &&& budget == (if old(self).per_attempt <= old(self).deadline - now {
                        old(self).per_attempt as int
                    } else {
                        old(self).deadline - now
                    })
                    &&& now + budget <= old(self).deadline
                    &&& *final(self) == (Attempts { next: (server + 1) as usize, ..*old(self) })
                },
                None => {
                    &&& old(self).next >= old(self).count || now >= old(self).deadline
                    &&& *final(self) == *old(self)
                },
            },
            (*final(self), r) == attempt(*old(self), now),
    {
        if self.next >= self.count || now >= self.deadline {
            return None;
        }
        let server: usize = self.next;
        let left: u64 = self.deadline - now;
        self.next = server + 1;
        Some(
            (
                server,
                if self.per_attempt <= left {
                    self.per_attempt
                } else {
                    left
                },
            ),
        )
    }
}

/// The entry that the log gets for a query.
pub open spec fn is_log_entry(
    r: StoredQuery,
    note: NoteView,
    client: Seq<char>,
    elapsed: u64,
    now: i64,
) -> bool {
    &&& r.timestamp == now
    &&& r.domain@ == note.domain
    &&& r.client is Some && r.client->0@ == client
    &&& r.forward is None
    &&& r.query_type == note.qtype
    &&& r.status == note.status
    &&& r.reply_time is None
    &&& r.reply_type == 0
    &&& r.flags == 0
    &&& r.interface is None
    &&& r.elapsed_ms == Some((elapsed / MILLISECOND) as i64)
    &&& r.adlist_id is None
    &&& r.cache_id is None
    &&& r.regex_id is None
    &&& r.upstream_id is None
}

/// What becomes of a logged query: the counts over time always have it, the log only where it is
/// switched on.
pub open spec fn is_logged(
    a: OverTime,
    b: OverTime,
    query_log: bool,
    note: NoteView,
    client: Seq<char>,
    elapsed: u64,
    now: i64,
    r: Option<StoredQuery>,
) -> bool {
    &&& b@ == query_recorded(a@, now, Some(client), note.status)
    &&& b.well_formed()
    &&& r is Some == query_log
    &&& r matches Some(e) ==> is_log_entry(e, note, client, elapsed, now)
}

/// Counts a query at the unix time `now`; the entry for the log where it is switched on.
pub fn log_query_at(
    over_time: &mut OverTime,
    query_log: bool,
    note: &QueryNote,
    client: &str,
    elapsed: u64,
    now: i64,
) -> (r: Option<StoredQuery>)
    requires
        old(over_time).well_formed(),
    ensures
        is_logged(*old(over_time), *final(over_time), query_log, note@, client@, elapsed, now, r),
{
    over_time.record_query(now, Some(client), note.status);
    if !query_log {
        return None;
    }
    Some(
        StoredQuery {
            timestamp: now,
            domain: note.domain.clone(),
            client: Some(client.to_owned()),
            forward: None,
            query_type: note.qtype as i32,
            status: note.status,
            reply_time: None,
            reply_type: 0,
            flags: 0,
            interface: None,
            elapsed_ms: Some((elapsed / MILLISECOND) as i64),
            adlist_id: None,
            cache_id: None,
            regex_id: None,
            upstream_id: None,
        },
    )
}

/// Counts a query now; the entry for the log where it is switched on.
pub fn log_query(
    over_time: &mut OverTime,
    query_log: bool,
    note: &QueryNote,
    client: &str,
    elapsed: u64,
) -> (r: Option<StoredQuery>)
    requires
        old(over_time).well_formed(),
    ensures
        exists|now: i64|
            clock::is_timestamp(now as int) && #[trigger] is_logged(
                *old(over_time),
                *final(over_time),
                query_log,
                note@,
                client@,
                elapsed,
                now,
                r,
            ),
{
    let now: i64 = clock::unix_now();
    log_query_at(over_time, query_log, note, client, elapsed, now)
}

} // verus!
