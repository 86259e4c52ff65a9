//! What holds of routing, whatever the query.

use crate::address::IpAddr;
use crate::blocking::lists::decision;
use crate::config::BlockingMode;
use crate::database::queries::StoredQuery;
use crate::database::status::QueryStatus;
use crate::dns::cache::{expired, CacheView, EntryView};
use crate::dns::cache_laws::law_cached_answer_is_found;
use crate::dns::cache_table::KeyView;
use crate::dns::message::{
    decoded_head, decoded_records, name_text, plain_answer, rewritten, with_ttls, HeadView,
    QuestionView, RecordView, RecordsView, SERVFAIL,
};
use crate::dns::rate_limit::limited;
use crate::dns::reply::{
    aged, aged_records, cache_ttl, carries, error_plan, error_result, least_ttl, serve_cached, served,
    soa_records, ttls, with_id, ResultView,
};
use crate::dns::router::{
    attempt, cache_finished, entry_for, finished, is_logged, kept_for, key_of, readable_answer, routed,
    routed_question, whole_seconds, Attempts, ForwardingView, NoteView, RouteSettings, RouterView, StepView,
};
use crate::over_time::OverTime;
use crate::text;
use vstd::prelude::*;

verus! {

/// With blocking disabled no query is answered as blocked.
pub proof fn law_disabled_blocks_nothing(
    a: RouterView,
    s: RouteSettings,
    query: Seq<u8>,
    client: IpAddr,
    now: u64,
)
    requires
        s.blocking_mode == BlockingMode::Disabled,
    ensures
        routed(a, s, query, client, now).1 matches StepView::Answer(_, Some(n)) ==> n.status
            != QueryStatus::Blocked,
{
}

/// A blocked query is never forwarded and leaves the cache alone.
pub proof fn law_blocked_query_stays_here(
    a: RouterView,
    s: RouteSettings,
    query: Seq<u8>,
    client: IpAddr,
    now: u64,
)
    requires
        s.blocking_mode != BlockingMode::Disabled,
        decoded_head(query) is Some,
        decoded_head(query)->0.questions.len() > 0,
        decision(a.lists, name_text(decoded_head(query)->0.questions[0].name)).blocks(),
    ensures
        routed(a, s, query, client, now).1 is Answer,
        routed(a, s, query, client, now).0.cache == a.cache,
{
}

/// A query over the limit is refused, whatever it asks for: it is not forwarded and leaves the cache
/// alone.
pub proof fn law_query_over_the_limit_is_refused(
    a: RouterView,
    s: RouteSettings,
    query: Seq<u8>,
    client: IpAddr,
    now: u64,
)
    requires
        decoded_head(query) is Some,
        decoded_head(query)->0.questions.len() > 0,
        limited(a.limiter, client, now).1,
    ensures
        routed(a, s, query, client, now).1 matches StepView::Answer(r, Some(n)) && r
            == error_result(query, decoded_head(query)->0.id, crate::dns::message::REFUSED)
            && n.status == QueryStatus::RateLimited,
        routed(a, s, query, client, now).0.cache == a.cache,
{
}

/// Routing never changes the lists.
pub proof fn law_routing_keeps_the_lists(
    a: RouterView,
    s: RouteSettings,
    query: Seq<u8>,
    client: IpAddr,
    now: u64,
)
    ensures
        routed(a, s, query, client, now).0.lists == a.lists,
{
}

/// An answer that was forwarded and may be cached is served from the cache to the next query for the
/// same name, type and security mark, in whatever case the name is written, until its time is over.
pub proof fn law_forwarded_answer_is_served_again(
    a: RouterView,
    f: ForwardingView,
    upstream: Seq<u8>,
    now: u64,
    b: RouterView,
    s: RouteSettings,
    query: Seq<u8>,
    head: HeadView,
    later: u64,
)
    requires
        cache_finished(a.cache, f, Some(upstream), now, b.cache),
        kept_for(f, Some(upstream), now) > 0,
        head.questions.len() > 0,
        key_of(head, name_text(head.questions[0].name), head.questions[0].qtype) == f.key,
        s.blocking_mode == BlockingMode::Disabled || !decision(
            b.lists,
            name_text(head.questions[0].name),
        ).blocks(),
        !expired(now, kept_for(f, Some(upstream), now), later),
    ensures
        routed_question(b, s, query, head, later).1 == StepView::Answer(
            ResultView::Response(
                served(rewritten(upstream)->0, head.id, whole_seconds(now, later)),
            ),
            Some(
                NoteView {
                    domain: name_text(head.questions[0].name),
                    qtype: head.questions[0].qtype,
                    status: QueryStatus::Cached,
                },
            ),
        ),
{
    let ttl = kept_for(f, Some(upstream), now);
    let e = entry_for(rewritten(upstream)->0, ttl, f.key.1, now);
    law_cached_answer_is_found(a.cache, f.key, e, now, b.cache, later);
}

/// Two names that differ only in case are cached under one key.
pub proof fn law_case_does_not_matter_to_the_cache(
    head: HeadView,
    x: Seq<char>,
    y: Seq<char>,
    qtype: u16,
)
    requires
        text::lowercase(x) == text::lowercase(y),
    ensures
        key_of(head, x, qtype) == key_of(head, y, qtype),
{
}

/// A failure of the upstream server is never cached.
pub proof fn law_server_failure_is_not_cached(
    a: CacheView,
    f: ForwardingView,
    upstream: Seq<u8>,
    now: u64,
    b: CacheView,
)
    requires
        decoded_head(upstream) is Some,
        decoded_head(upstream)->0.response_code == SERVFAIL,
        cache_finished(a, f, Some(upstream), now, b),
    ensures
        b == a,
{
}

/// A response without answer and without start of authority is never cached.
pub proof fn law_bare_denial_is_not_cached(
    a: CacheView,
    f: ForwardingView,
    upstream: Seq<u8>,
    now: u64,
    b: CacheView,
)
    requires
        decoded_records(upstream) is Some,
        decoded_records(upstream)->0.answers.len() == 0,
        soa_records(decoded_records(upstream)->0.authorities).len() == 0,
        cache_finished(a, f, Some(upstream), now, b),
    ensures
        b == a,
{
}

/// No answer is kept for longer than any of its records lives.
pub proof fn law_cached_no_longer_than_any_record(response_code: u16, r: RecordsView, i: int)
    requires
        0 <= i < r.answers.len(),
    ensures
        cache_ttl(response_code, r) <= r.answers[i].ttl,
{
    lemma_least(r.answers, i);
}

proof fn lemma_least(s: Seq<RecordView>, i: int)
    requires
        0 <= i < s.len(),
    ensures
        least_ttl(s) <= s[i].ttl,
    decreases s.len(),
{
    if s.len() > 1 && i < s.len() - 1 {
        lemma_least(s.drop_last(), i);
        assert(s.drop_last()[i] == s[i]);
    }
}

/// Time adds up: records that age twice have aged by the sum. Names, types and contents stay.
pub proof fn law_aging_adds_up(r: RecordsView, x: u32, y: u32)
    requires
        x + y <= u32::MAX,
    ensures
        aged_records(aged_records(r, x), y) == aged_records(r, (x + y) as u32),
{
    let z = (x + y) as u32;
    assert(aged(aged(r.answers, x), y) =~= aged(r.answers, z));
    assert(aged(aged(r.authorities, x), y) =~= aged(r.authorities, z));
    assert(aged(aged(r.additionals, x), y) =~= aged(r.additionals, z));
}

/// An answer that was cached just now is served as it is, but for the identifier of the query.
pub proof fn law_fresh_answer_is_served_unchanged(data: Seq<u8>, id: u16)
    requires
        data.len() >= 2,
    ensures
        served(data, id, 0).len() == data.len(),
        served(data, id, 0).subrange(2, data.len() as int) == data.subrange(2, data.len() as int),
        served(data, id, 0)[0] == id / 256,
        served(data, id, 0)[1] == id % 256,
{
}

/// Whether a query asks for the records of the security extensions.
pub open spec fn security_mark(h: HeadView) -> bool {
    h.edns is Some && h.edns->0.dnssec_ok
}

/// Answers are cached by the question: two queries share an answer exactly where their names are the
/// same in lowercase, their types are the same, and both ask for the records of the security
/// extensions or neither does.
pub proof fn law_cache_tells_questions_apart(
    a: HeadView,
    x: Seq<char>,
    s: u16,
    b: HeadView,
    y: Seq<char>,
    t: u16,
)
    ensures
        key_of(a, x, s) == key_of(b, y, t) <==> text::lowercase(x) == text::lowercase(y) && s == t
            && security_mark(a) == security_mark(b),
{
}

/// What happens to a router: a query is routed, or an answer to a query that it forwarded comes. The
/// states before and after it are part of it.
pub enum Act {
    Routed {
        settings: RouteSettings,
        query: Seq<u8>,
        client: IpAddr,
        now: u64,
        step: StepView,
        before: RouterView,
        after: RouterView,
    },
    Finished {
        asked: int,
        upstream: Option<Seq<u8>>,
        now: u64,
        before: RouterView,
        after: RouterView,
    },
}

impl Act {
    /// The cache before it.
    pub open spec fn cache_before(self) -> CacheView {
        match self {
            Act::Routed { before, .. } => before.cache,
            Act::Finished { before, .. } => before.cache,
        }
    }

    /// The cache after it.
    pub open spec fn cache_after(self) -> CacheView {
        match self {
            Act::Routed { after, .. } => after.cache,
            Act::Finished { after, .. } => after.cache,
        }
    }
}

/// The act at the place `i` is what the router does: it routes a query, or takes the answer to one
/// that it forwarded before.
pub open spec fn is_act(life: Seq<Act>, i: int) -> bool {
    match life[i] {
        Act::Routed { settings, query, client, now, step, before, after } => (after, step)
            == routed(before, settings, query, client, now),
        Act::Finished { asked, upstream, now, before, after } => {
            &&& 0 <= asked < i
            &&& life[asked] matches Act::Routed { step: StepView::Forward(f), .. }
                && cache_finished(before.cache, f, upstream, now, after.cache)
        },
    }
}

/// The life of a router. Its cache is empty at first; between two acts nothing happens to the cache
/// but that answers are forgotten.
pub open spec fn is_router_life(life: Seq<Act>) -> bool {
    &&& life.len() > 0 ==> life[0].cache_before().entries == Map::<KeyView, EntryView>::empty()
    &&& forall|i: int| 0 <= i < life.len() ==> #[trigger] is_act(life, i)
    &&& forall|i: int|
        0 < i < life.len() ==> (#[trigger] life[i]).cache_before().entries.submap_of(
            life[i - 1].cache_after().entries,
        )
}

/// The entry with the key was cached at the act `k`, as the answer to the query of the act `j`.
spec fn came_from(life: Seq<Act>, n: int, j: int, k: int, key: KeyView, e: EntryView) -> bool {
    &&& 0 <= j < k <= n
    &&& match (life[j], life[k]) {
        (
            Act::Routed { step: StepView::Forward(f), .. },
            Act::Finished { asked, upstream: Some(u), now, .. },
        ) => {
            &&& f.key == key
            &&& asked == j
            &&& rewritten(u) is Some
            &&& e.data == rewritten(u)->0
            &&& e.cached_at == now
            &&& e.ttl == kept_for(f, Some(u), now)
            &&& e.ttl > 0
        },
        _ => false,
    }
}

proof fn lemma_entries_came_from(life: Seq<Act>, n: int, key: KeyView)
    requires
        is_router_life(life),
        0 <= n < life.len(),
        life[n].cache_after().entries.contains_key(key),
    ensures
        exists|j: int, k: int| #[trigger]
            came_from(life, n, j, k, key, life[n].cache_after().entries[key]),
    decreases n,
{
    let e = life[n].cache_after().entries[key];
    let before = life[n].cache_before();
    assert(is_act(life, n));
    let fresh = match life[n] {
        Act::Finished { asked, upstream, now, .. } => match life[asked] {
            Act::Routed { step: StepView::Forward(f), .. } => f.key == key && kept_for(
                f,
                upstream,
                now,
            ) > 0,
            _ => false,
        },
        _ => false,
    };
    if fresh {
        match life[n] {
            Act::Finished { asked, upstream, now, .. } => {
                assert(came_from(life, n, asked, n, key, e));
            },
            _ => {},
        }
    } else {
        assert(before.entries.contains_key(key));
        let was = before.entries[key];
        assert(e.data == was.data && e.cached_at == was.cached_at && e.ttl == was.ttl);
        assert(n > 0);
        assert(life[n].cache_before().entries.submap_of(life[n - 1].cache_after().entries));
        assert(before.entries.dom().contains(key));
        assert(life[n - 1].cache_after().entries.contains_key(key));
        assert(life[n - 1].cache_after().entries[key] == was);
        lemma_entries_came_from(life, n - 1, key);
        let (j, k) = choose|j: int, k: int| #[trigger] came_from(life, n - 1, j, k, key, was);
        assert(came_from(life, n, j, k, key, e));
    }
}

/// The answer `r` to the query of the act `i` is the one that an upstream server gave at the act `k`
/// to the query of the act `j`. That query asked the same: the same name in lowercase, the same type,
/// the same security mark. The answer is served with the identifier of the query that gets it, and
/// with the seconds taken off that it spent in the cache; and it is served only while each of its
/// records lives.
pub open spec fn is_answer_of_another(
    life: Seq<Act>,
    i: int,
    j: int,
    k: int,
    r: ResultView,
) -> bool {
    &&& 0 <= j < k < i < life.len()
    &&& match (life[i], life[j], life[k]) {
        (
            Act::Routed { query: mine, now: served_at, .. },
            Act::Routed { query: first, .. },
            Act::Finished { asked, upstream: Some(u), now: came_at, .. },
        ) => {
            let (h, g) = (decoded_head(mine)->0, decoded_head(first)->0);
            &&& asked == j
            &&& decoded_head(mine) is Some && h.questions.len() > 0
            &&& decoded_head(first) is Some && g.questions.len() > 0
            &&& h.questions[0].qtype == g.questions[0].qtype
            &&& text::lowercase(name_text(h.questions[0].name)) == text::lowercase(
                name_text(g.questions[0].name),
            )
            &&& security_mark(h) == security_mark(g)
            &&& rewritten(u) is Some && decoded_records(u) is Some
            &&& r == ResultView::Response(
                served(rewritten(u)->0, h.id, whole_seconds(came_at, served_at)),
            )
            &&& forall|x: int|
                0 <= x < decoded_records(u)->0.answers.len() ==> served_at <= came_at
                    + 1_000_000_000 * (#[trigger] decoded_records(u)->0.answers[x]).ttl
        },
        _ => false,
    }
}

/// What the cache serves was forwarded: an answer from the cache is one that an upstream server gave
/// earlier to a query with the same question.
pub proof fn law_cache_serves_answers_to_the_same_question(life: Seq<Act>, i: int)
    requires
        is_router_life(life),
        0 <= i < life.len(),
        life[i] matches Act::Routed { step: StepView::Answer(_, Some(note)), .. } && note.status
            == QueryStatus::Cached,
    ensures
        life[i] matches Act::Routed { step: StepView::Answer(r, _), .. } && exists|j: int, k: int|
            #[trigger] is_answer_of_another(life, i, j, k, r),
{
    assert(is_act(life, i));
    match life[i] {
        Act::Routed { settings, query, client, now, step, before, after } => {
            let h = decoded_head(query)->0;
            let q = h.questions[0];
            let key = key_of(h, name_text(q.name), q.qtype);
            assert(before.cache.entries.contains_key(key));
            let e = before.cache.entries[key];
            assert(life[i].cache_before().entries.dom().contains(key));
            assert(i > 0);
            assert(life[i].cache_before().entries.submap_of(life[i - 1].cache_after().entries));
            assert(life[i - 1].cache_after().entries.contains_key(key));
            assert(life[i - 1].cache_after().entries[key] == e);
            lemma_entries_came_from(life, i - 1, key);
            let (j, k) = choose|j: int, k: int| #[trigger] came_from(life, i - 1, j, k, key, e);
            assert(is_act(life, j));
            match (life[j], life[k]) {
                (
                    Act::Routed { query: first, step: StepView::Forward(f), .. },
                    Act::Finished { upstream: Some(u), now: came_at, .. },
                ) => {
                    let g = decoded_head(first)->0;
                    assert(f.key == key_of(g, name_text(g.questions[0].name), g.questions[0].qtype));
                    let records = decoded_records(u)->0;
                    let code = decoded_head(u)->0.response_code;
                    assert forall|x: int| 0 <= x < records.answers.len() implies now <= came_at
                        + 1_000_000_000 * (#[trigger] records.answers[x]).ttl by {
                        law_cached_no_longer_than_any_record(code, records, x);
                        assert(e.ttl <= cache_ttl(code, records));
                        assert(e.ttl * 1_000_000_000 <= records.answers[x].ttl * 1_000_000_000)
                            by (nonlinear_arith)
                            requires
                                e.ttl <= records.answers[x].ttl,
                        ;
                    }
                    match step {
                        StepView::Answer(r, _) => {
                            assert(is_answer_of_another(life, i, j, k, r));
                        },
                        _ => {},
                    }
                },
                _ => {},
            }
        },
        _ => {},
    }
}

/// An answer in the cache lives for as many seconds as it may, to the last nanosecond of the last one,
/// and not longer.
pub proof fn law_answers_live_for_their_seconds(cached_at: u64, ttl: u32, now: u64)
    ensures
        expired(cached_at, ttl, now) <==> now > cached_at + ttl * 1_000_000_000,
{
}

/// Whole seconds are thousands of millions of nanoseconds that have passed completely.
pub proof fn law_whole_seconds_have_passed(from: u64, to: u64)
    requires
        from <= to,
        to - from < 0x1_0000_0000 * 1_000_000_000,
    ensures
        whole_seconds(from, to) * 1_000_000_000 <= to - from < (whole_seconds(from, to) + 1)
            * 1_000_000_000,
{
}

/// Every record of an answer ages by the seconds that have passed, down to zero; nothing else of it
/// changes, and none is lost. This holds of all three sections.
pub proof fn law_every_record_ages(r: RecordsView, seconds: u32, i: int)
    ensures
        ({
            let s = aged_records(r, seconds);
            let grows_old = |a: RecordView, b: RecordView|
                {
                    &&& b.name == a.name && b.rtype == a.rtype && b.address == a.address
                    &&& a.ttl >= seconds ==> b.ttl + seconds == a.ttl
                    &&& a.ttl < seconds ==> b.ttl == 0
                };
            &&& s.answers.len() == r.answers.len()
            &&& s.authorities.len() == r.authorities.len()
            &&& s.additionals.len() == r.additionals.len()
            &&& 0 <= i < r.answers.len() ==> grows_old(r.answers[i], s.answers[i])
            &&& 0 <= i < r.authorities.len() ==> grows_old(r.authorities[i], s.authorities[i])
            &&& 0 <= i < r.additionals.len() ==> grows_old(r.additionals[i], s.additionals[i])
        }),
{
}

proof fn lemma_least_is_one(s: Seq<RecordView>)
    requires
        s.len() > 0,
    ensures
        exists|i: int| 0 <= i < s.len() && (#[trigger] s[i]).ttl == least_ttl(s),
    decreases s.len(),
{
    if s.len() == 1 {
        assert(s[0].ttl == least_ttl(s));
    } else {
        let t = s.drop_last();
        lemma_least_is_one(t);
        let i = choose|i: int| 0 <= i < t.len() && (#[trigger] t[i]).ttl == least_ttl(t);
        assert(s[i] == t[i]);
        assert(s[s.len() - 1] == s.last());
    }
}

proof fn lemma_soa_records(s: Seq<RecordView>, i: int)
    requires
        0 <= i < s.len(),
        s[i].rtype == 6,
    ensures
        soa_records(s).contains(s[i]),
    decreases s.len(),
{
    let t = s.drop_last();
    if i < t.len() {
        assert(t[i] == s[i]);
        lemma_soa_records(t, i);
        let j = choose|j: int| 0 <= j < soa_records(t).len() && soa_records(t)[j] == s[i];
        assert(soa_records(s)[j] == s[i]);
    } else {
        assert(soa_records(s)[soa_records(t).len() as int] == s[i]);
    }
}

proof fn lemma_soa_records_rev(s: Seq<RecordView>, j: int)
    requires
        0 <= j < soa_records(s).len(),
    ensures
        soa_records(s)[j].rtype == 6,
        s.contains(soa_records(s)[j]),
    decreases s.len(),
{
    let t = s.drop_last();
    if j < soa_records(t).len() {
        lemma_soa_records_rev(t, j);
        let i = choose|i: int| 0 <= i < t.len() && t[i] == soa_records(t)[j];
        assert(s[i] == soa_records(s)[j]);
    } else {
        assert(s[s.len() - 1] == s.last());
    }
}

/// For how long a response may be cached. A failure of the server (code 2) not at all; an answer for
/// the least time to live among its records, as one of them says; a response without answers for the
/// least among its starts of authority (type 6), and not at all where it has none.
pub proof fn law_cached_for_the_least_time(code: u16, r: RecordsView)
    ensures
        ({
            let ttl = cache_ttl(code, r);
            &&& code == 2 ==> ttl == 0
            &&& code != 2 && r.answers.len() > 0 ==> (forall|i: int|
                0 <= i < r.answers.len() ==> ttl <= (#[trigger] r.answers[i]).ttl) && (exists|i: int|
                0 <= i < r.answers.len() && (#[trigger] r.answers[i]).ttl == ttl)
            &&& code != 2 && r.answers.len() == 0 ==> (forall|i: int|
                0 <= i < r.authorities.len() && (#[trigger] r.authorities[i]).rtype == 6 ==> ttl
                    <= r.authorities[i].ttl) && (ttl > 0 ==> exists|i: int|
                0 <= i < r.authorities.len() && (#[trigger] r.authorities[i]).rtype == 6
                    && r.authorities[i].ttl == ttl)
        }),
{
    if code != 2 {
        if r.answers.len() > 0 {
            lemma_least_is_one(r.answers);
            assert forall|i: int| 0 <= i < r.answers.len() implies cache_ttl(code, r) <= (
            #[trigger] r.answers[i]).ttl by {
                lemma_least(r.answers, i);
            }
        } else {
            let a = r.authorities;
            let soa = soa_records(a);
            assert forall|i: int| 0 <= i < a.len() && (#[trigger] a[i]).rtype == 6 implies cache_ttl(
                code,
                r,
            ) <= a[i].ttl by {
                lemma_soa_records(a, i);
                let j = choose|j: int| 0 <= j < soa.len() && soa[j] == a[i];
                lemma_least(soa, j);
            }
            if soa.len() > 0 {
                lemma_least_is_one(soa);
                let j = choose|j: int| 0 <= j < soa.len() && (#[trigger] soa[j]).ttl == least_ttl(soa);
                lemma_soa_records_rev(a, j);
                let i = choose|i: int| 0 <= i < a.len() && a[i] == soa[j];
                assert(a[i].rtype == 6 && a[i].ttl == cache_ttl(code, r));
            }
        }
    }
}

/// An answer that was forwarded is kept for the time that it may be cached, less the whole seconds
/// that it took to come; one that took longer than that, and a response that was not understood, is
/// not kept at all.
pub proof fn law_waiting_counts_against_the_cache(f: ForwardingView, upstream: Seq<u8>, now: u64)
    ensures
        ({
            let whole = cache_ttl(
                decoded_head(upstream)->0.response_code,
                decoded_records(upstream)->0,
            );
            let waited = whole_seconds(f.started, now);
            let understood = rewritten(upstream) is Some && decoded_head(upstream) is Some
                && decoded_records(upstream) is Some;
            let kept = kept_for(f, Some(upstream), now);
            &&& understood && whole >= waited ==> kept + waited == whole
            &&& understood && whole < waited ==> kept == 0
            &&& !understood ==> kept == 0
            &&& kept_for(f, None, now) == 0
        }),
{
}

/// What is done with a query, in order. One without question is answered and not logged. One over the
/// limit is refused. One for a blocked name is answered as blocked, unless blocking is disabled. One
/// whose answer is in the cache and lives is answered from there. Any other is forwarded under the
/// name and identifier of the query. The log gets the name and the type of the query.
pub proof fn law_queries_are_routed_in_order(
    a: RouterView,
    s: RouteSettings,
    query: Seq<u8>,
    client: IpAddr,
    now: u64,
)
    requires
        decoded_head(query) is Some,
    ensures
        ({
            let h = decoded_head(query)->0;
            let q = h.questions[0];
            let name = name_text(q.name);
            let (b, step) = routed(a, s, query, client, now);
            let over = limited(a.limiter, client, now).1;
            let blocked = s.blocking_mode != BlockingMode::Disabled && decision(
                a.lists,
                name,
            ).blocks();
            let key = (text::lowercase(name), q.qtype, 1u16, security_mark(h), None::<u32>);
            let cached = a.cache.entries.contains_key(key) && now <= a.cache.entries[key].cached_at
                + a.cache.entries[key].ttl * 1_000_000_000;
            if h.questions.len() == 0 {
                step == StepView::Answer(error_result(query, h.id, 1), None) && b == a
            } else {
                &&& b.limiter == limited(a.limiter, client, now).0
                &&& b.lists == a.lists
                &&& match step {
                    StepView::Answer(r, Some(note)) => {
                        &&& note.domain == name && note.qtype == q.qtype
                        &&& over ==> note.status == QueryStatus::RateLimited
                        &&& !over && blocked ==> note.status == QueryStatus::Blocked
                        &&& !over && !blocked ==> cached && note.status == QueryStatus::Cached
                        &&& over || blocked ==> b.cache == a.cache
                    },
                    StepView::Forward(f) => {
                        &&& !over && !blocked && !cached
                        &&& f.id == h.id
                        &&& f.domain == name
                        &&& f.key == key
                        &&& f.started == now
                    },
                    _ => false,
                }
            }
        }),
{
}

/// What is no message is passed over.
pub proof fn law_garbage_is_passed_over(
    a: RouterView,
    s: RouteSettings,
    query: Seq<u8>,
    client: IpAddr,
    now: u64,
)
    requires
        decoded_head(query) is None,
    ensures
        routed(a, s, query, client, now) == (a, StepView::Ignore),
{
}

/// The result of a forwarded query is what the upstream server answered, written anew. Where none
/// answered, or the answer cannot be written, it is an error, and the log gets to know of a failure.
/// The log has the name of the query and its type.
pub proof fn law_forwarded_answer_goes_to_the_client(
    f: ForwardingView,
    query: Seq<u8>,
    upstream: Option<Seq<u8>>,
)
    ensures
        ({
            let (r, note) = finished(f, query, upstream);
            let answered = upstream is Some && rewritten(upstream->0) is Some;
            &&& note.domain == f.domain && note.qtype == f.key.1
            &&& answered ==> r == ResultView::Response(rewritten(upstream->0)->0) && note.status
                == QueryStatus::Forwarded
            &&& !answered ==> r == error_result(query, f.id, 2) && note.status
                == QueryStatus::Servfail
        }),
{
}

/// A reader finds the error in a reply that reports one: the identifier, the error and the questions
/// of the query, no records, and the extension record of the server, which takes datagrams of 4096
/// bytes.
pub proof fn law_error_reply_says_the_error(
    r: ResultView,
    id: u16,
    code: u16,
    questions: Seq<QuestionView>,
)
    requires
        carries(r, error_plan(id, code), questions),
    ensures
        r matches ResultView::Response(b) && {
            let h = decoded_head(b)->0;
            let records = decoded_records(b)->0;
            &&& decoded_head(b) is Some && decoded_records(b) is Some
            &&& h.id == id && h.response_code == code && !h.truncated
            &&& h.questions == questions
            &&& h.edns matches Some(e) && e.version == 0 && e.max_payload == 4096 && e.dnssec_ok
            &&& records.answers.len() == 0 && records.authorities.len() == 0
                && records.additionals.len() == 0
        },
{
}

/// The addresses that answer a blocked query: the null address of the kind that was asked for, in mode
/// `Null` and in mode `Ip` with an address of the other kind; the given address in mode `Ip`; else
/// none.
pub open spec fn stands_in(mode: BlockingMode, qtype: u16, ip: IpAddr) -> Option<IpAddr> {
    match (mode, ip) {
        (BlockingMode::Null, _) => if qtype == 1 {
            Some(IpAddr::V4(0))
        } else if qtype == 28 {
            Some(IpAddr::V6(0))
        } else {
            None
        },
        (BlockingMode::Ip, IpAddr::V4(x)) => if qtype == 1 {
            Some(IpAddr::V4(x))
        } else if qtype == 28 {
            Some(IpAddr::V6(0))
        } else {
            None
        },
        (BlockingMode::Ip, IpAddr::V6(x)) => if qtype == 1 {
            Some(IpAddr::V4(0))
        } else if qtype == 28 {
            Some(IpAddr::V6(x))
        } else {
            None
        },
        _ => None,
    }
}

/// A client reads in the answer to a blocked query what the mode says. It has the identifier and the
/// questions of the query. Its code is 3 (no such name) in mode `Nxdomain`, 5 (refused) in mode
/// `Refused`, and 0 in every other. Where an address stands in for the name, the answer is one record
/// for the name that was asked for, of the type that was asked for, with that address, to be kept for
/// two seconds; else there is no record.
pub proof fn law_blocked_query_is_answered_in_its_mode(
    a: RouterView,
    s: RouteSettings,
    query: Seq<u8>,
    client: IpAddr,
    now: u64,
)
    requires
        readable_answer(s, query, routed(a, s, query, client, now).1),
        decoded_head(query) is Some,
        0 < decoded_head(query)->0.questions.len() <= 100,
        !limited(a.limiter, client, now).1,
        s.blocking_mode != BlockingMode::Disabled,
        decision(a.lists, name_text(decoded_head(query)->0.questions[0].name)).blocks(),
    ensures
        routed(a, s, query, client, now).1 matches StepView::Answer(ResultView::Response(b), _) && {
            let asked = decoded_head(query)->0;
            let q = asked.questions[0];
            let h = decoded_head(b)->0;
            let records = decoded_records(b)->0;
            let address = stands_in(s.blocking_mode, q.qtype, s.blocking_ip);
            &&& decoded_head(b) is Some && decoded_records(b) is Some
            &&& h.id == asked.id && h.questions == asked.questions && h.recursion_available
                && h.recursion_desired == asked.recursion_desired && !h.truncated
            &&& h.response_code == (if s.blocking_mode == BlockingMode::Nxdomain {
                3u16
            } else if s.blocking_mode == BlockingMode::Refused {
                5
            } else {
                0
            })
            &&& address is Some ==> records.answers.len() == 1 && records.answers[0].name == q.name
                && records.answers[0].rtype == q.qtype && records.answers[0].ttl == 2
                && records.answers[0].address == address
            &&& address is None ==> records.answers.len() == 0
            &&& records.authorities.len() == 0 && records.additionals.len() == 0
        },
{
}

/// A client over the limit reads that it is refused (code 5), in an answer to its own query.
pub proof fn law_client_over_the_limit_reads_a_refusal(
    a: RouterView,
    s: RouteSettings,
    query: Seq<u8>,
    client: IpAddr,
    now: u64,
)
    requires
        readable_answer(s, query, routed(a, s, query, client, now).1),
        decoded_head(query) is Some,
        0 < decoded_head(query)->0.questions.len() <= 100,
        limited(a.limiter, client, now).1,
    ensures
        routed(a, s, query, client, now).1 matches StepView::Answer(ResultView::Response(b), _) && {
            let asked = decoded_head(query)->0;
            let h = decoded_head(b)->0;
            &&& decoded_head(b) is Some && decoded_records(b) is Some
            &&& h.id == asked.id && h.questions == asked.questions && h.response_code == 5
            &&& decoded_records(b)->0.answers.len() == 0
        },
{
}

/// An answer from the cache has the identifier of the query in its first two bytes, the higher first;
/// where no second has passed, the rest is as it was cached.
pub proof fn law_served_answer_has_the_identifier(data: Seq<u8>, id: u16)
    requires
        data.len() >= 2,
    ensures
        with_id(data, id).len() == data.len(),
        with_id(data, id)[0] * 256 + with_id(data, id)[1] == id,
        forall|i: int| 2 <= i < data.len() ==> with_id(data, id)[i] == data[i],
        served(data, id, 0) == with_id(data, id),
{
}

/// The log gets to know of a query when it came, for what name and of what type, from whom, what
/// became of it, and how many whole milliseconds it took. The counts over time have it in any case.
pub proof fn law_log_tells_of_a_query(
    a: OverTime,
    b: OverTime,
    query_log: bool,
    note: NoteView,
    client: Seq<char>,
    elapsed: u64,
    now: i64,
    r: Option<StoredQuery>,
)
    requires
        is_logged(a, b, query_log, note, client, elapsed, now, r),
        a@.total < i64::MAX,
    ensures
        b@.total == a@.total + 1,
        b@.clients.contains_key(client),
        r is Some <==> query_log,
        r matches Some(e) ==> {
            &&& e.timestamp == now && e.domain@ == note.domain && e.query_type == note.qtype
            &&& e.client matches Some(c) && c@ == client
            &&& e.status == note.status
            &&& e.elapsed_ms matches Some(ms) && ms * 1_000_000 <= elapsed < (ms + 1) * 1_000_000
        },
{
}

/// An answer that was cached for some seconds is served with these taken off every time to live, down to
/// zero: whatever times are that much less than those of its records, the answer is served with them,
/// where it can be written with them.
pub proof fn law_served_answer_is_aged(
    data: Seq<u8>,
    id: u16,
    seconds: u32,
    a: Seq<u32>,
    b: Seq<u32>,
    c: Seq<u32>,
)
    requires
        seconds > 0,
        decoded_records(with_id(data, id)) is Some,
        less_by(decoded_records(with_id(data, id))->0.answers, seconds, a),
        less_by(decoded_records(with_id(data, id))->0.authorities, seconds, b),
        less_by(decoded_records(with_id(data, id))->0.additionals, seconds, c),
    ensures
        with_ttls(with_id(data, id), a, b, c) is Some ==> served(data, id, seconds) == with_ttls(
            with_id(data, id),
            a,
            b,
            c,
        )->0,
        with_ttls(with_id(data, id), a, b, c) is None ==> served(data, id, seconds) == with_id(
            data,
            id,
        ),
{
    let r = decoded_records(with_id(data, id))->0;
    let s = aged_records(r, seconds);
    assert(ttls(s.answers) =~= a);
    assert(ttls(s.authorities) =~= b);
    assert(ttls(s.additionals) =~= c);
}

/// The times are those of the records less the seconds, none below zero.
pub open spec fn less_by(records: Seq<RecordView>, seconds: u32, times: Seq<u32>) -> bool {
    &&& times.len() == records.len()
    &&& forall|i: int|
        0 <= i < records.len() ==> (#[trigger] times[i]) == (if records[i].ttl >= seconds {
            records[i].ttl - seconds
        } else {
            0
        })
}

/// A client reads in a cached answer of addresses the times that are left: each less by the seconds that
/// have passed, down to zero.
pub proof fn law_client_reads_the_times_left(
    data: Vec<u8>,
    id: u16,
    seconds: u32,
    r: Vec<u8>,
    i: int,
)
    requires
        serve_cached.ensures((data, id, seconds), r),
        plain_answer(with_id(data@, id)),
        decoded_records(with_id(data@, id)) is Some,
        0 <= i < decoded_records(with_id(data@, id))->0.answers.len(),
    ensures
        decoded_records(r@) is Some,
        ({
            let (was, now) = (
                decoded_records(with_id(data@, id))->0.answers[i],
                decoded_records(r@)->0.answers[i],
            );
            &&& now.name == was.name && now.rtype == was.rtype && now.address == was.address
            &&& was.ttl >= seconds ==> now.ttl + seconds == was.ttl
            &&& was.ttl < seconds ==> now.ttl == 0
        }),
{
}

/// What is cached of an answer: its bytes, when it came, for how long it may be served, and its type; it
/// was not used yet.
pub proof fn law_cached_answer_is_the_answer(data: Seq<u8>, ttl: u32, qtype: u16, now: u64)
    ensures
        ({
            let e = entry_for(data, ttl, qtype, now);
            &&& e.data == data && e.cached_at == now && e.ttl == ttl && e.original_ttl == ttl
            &&& e.qtype == qtype && e.qclass == 1 && e.hits == 0
        }),
{
}

/// The upstream servers have five seconds together.
pub proof fn law_upstreams_have_five_seconds()
    ensures
        crate::dns::router::DEFAULT_TIMEOUT == 5_000_000_000,
{
}

/// The upstream servers are asked one after the other, each once, none after the deadline; each has the
/// time for one attempt, but never longer than to the deadline.
pub proof fn law_upstreams_are_asked_in_turn(a: Attempts, now: u64)
    ensures
        ({
            let (b, r) = attempt(a, now);
            &&& b.count == a.count && b.per_attempt == a.per_attempt && b.deadline == a.deadline
            &&& r is Some <==> a.next < a.count && now < a.deadline
            &&& r is Some ==> (r->0).0 == a.next && b.next == a.next + 1 && (r->0).1 <= a.per_attempt
                && now + (r->0).1 <= a.deadline && ((r->0).1 == a.per_attempt || now + (r->0).1
                == a.deadline)
            &&& r is None ==> b == a
        }),
{
}

} // verus!
