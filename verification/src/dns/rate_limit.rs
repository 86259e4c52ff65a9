//! How many queries a client may send in a second.
//!
//! Times are nanoseconds of a clock that never goes back.

use crate::address::IpAddr;
use crate::dns::cache::{since, SECOND};
use dashmap::DashMap;
use vstd::prelude::*;

verus! {

/// What a client is found by: whether the address has six bytes or four, and its number.
pub type ClientKey = (bool, u128);

/// The queries of the current second, and when that second began.
pub type ClientEntry = (u32, u64);

/// The clients that a table holds.
pub uninterp spec fn clients(m: DashMap<ClientKey, ClientEntry>) -> Map<ClientKey, ClientEntry>;

/// No clients.
pub open spec fn no_clients() -> Map<ClientKey, ClientEntry> {
    Map::empty()
}

/// `DashMap::new`: a table that holds nothing.
#[verifier::external_body]
fn new_table() -> (r: DashMap<ClientKey, ClientEntry>)
    ensures
        clients(r) == no_clients(),
{
    DashMap::new()
}

/// `DashMap::get`, and a copy of the entry that it finds.
#[verifier::external_body]
fn get(m: &DashMap<ClientKey, ClientEntry>, key: &ClientKey) -> (r: Option<ClientEntry>)
    ensures
        match r {
            Some(e) => clients(*m).contains_key(*key) && clients(*m)[*key] == e,
            None => !clients(*m).contains_key(*key),
        },
{
    m.get(key).map(|e| *e)
}

/// `DashMap::insert`: the entry stands under the key afterwards.
#[verifier::external_body]
fn insert(m: &mut DashMap<ClientKey, ClientEntry>, key: ClientKey, entry: ClientEntry)
    ensures
        clients(*final(m)) == clients(*old(m)).insert(key, entry),
{
    m.insert(key, entry);
}

/// The clients whose second began less than two seconds ago.
pub open spec fn recent_clients(m: Map<ClientKey, ClientEntry>, now: u64) -> Map<
    ClientKey,
    ClientEntry,
> {
    Map::new(
        |k: ClientKey| m.contains_key(k) && since(m[k].1, now) < 2 * SECOND,
        |k: ClientKey| m[k],
    )
}

/// Whether a second that began at `seen` began less than two seconds ago.
fn is_recent(seen: u64, now: u64) -> (r: bool)
    ensures
        r == (since(seen, now) < 2 * SECOND),
{
    now.saturating_sub(seen) < 2 * SECOND
}

/// `DashMap::retain` with a test of each entry: just the entries that pass it stay.
#[verifier::external_body]
fn keep_recent(m: &mut DashMap<ClientKey, ClientEntry>, now: u64)
    ensures
        clients(*final(m)) == recent_clients(clients(*old(m)), now),
{
    m.retain(|_, e| is_recent(e.1, now));
}

/// Counts the queries of each client.
pub struct RateLimiter {
    max_qps: u32,
    table: DashMap<ClientKey, ClientEntry>,
    last_cleanup: u64,
}

/// The contents of a `RateLimiter`.
#[verifier::ext_equal]
pub struct LimiterView {
    pub max: u32,
    pub clients: Map<ClientKey, ClientEntry>,
    pub last_cleanup: u64,
}

impl View for RateLimiter {
    type V = LimiterView;

    closed spec fn view(&self) -> LimiterView {
        LimiterView {
            max: self.max_qps,
            clients: clients(self.table),
            last_cleanup: self.last_cleanup,
        }
    }
}

/// What a client is found by.
pub open spec fn client_key(ip: IpAddr) -> ClientKey {
    match ip {
        IpAddr::V4(n) => (false, n as u128),
        IpAddr::V6(n) => (true, n),
    }
}

/// The limiter at the time `now` before a query is counted: once a minute the clients that were
/// not seen lately are forgotten.
pub open spec fn cleaned(v: LimiterView, now: u64) -> LimiterView {
    if since(v.last_cleanup, now) > 60 * SECOND {
        LimiterView { clients: recent_clients(v.clients, now), last_cleanup: now, ..v }
    } else {
        v
    }
}

/// The entry of a client after one more query at the time `now`. The count starts anew when more
/// than a second has passed.
pub open spec fn counted(v: LimiterView, key: ClientKey, now: u64) -> ClientEntry {
    if v.clients.contains_key(key) {
        let e = v.clients[key];
        if since(e.1, now) > SECOND {
            (1, now)
        } else if e.0 == u32::MAX {
            (0, e.1)
        } else {
            ((e.0 + 1) as u32, e.1)
        }
    } else {
        (1, now)
    }
}

/// The query is one too many. A query that starts a new count never is.
pub open spec fn too_many(v: LimiterView, key: ClientKey, now: u64) -> bool {
    let restarts = v.clients.contains_key(key) && since(v.clients[key].1, now) > SECOND;
    !restarts && counted(v, key, now).0 > v.max
}

/// The limiter after a query of the client at the time `now`, and whether it was one too many.
pub open spec fn limited(v: LimiterView, ip: IpAddr, now: u64) -> (LimiterView, bool) {
    let c = cleaned(v, now);
    let key = client_key(ip);
    (
        LimiterView { clients: c.clients.insert(key, counted(c, key, now)), ..c },
        too_many(c, key, now),
    )
}

impl RateLimiter {
    /// A limiter for `max_qps` queries per second and client, made at the time `now`.
    pub fn new(max_qps: u32, now: u64) -> (r: RateLimiter)
        ensures
            r@ == (LimiterView { max: max_qps, clients: Map::empty(), last_cleanup: now }),
    {
        RateLimiter { max_qps, table: new_table(), last_cleanup: now }
    }

    /// Counts a query of the client at the time `now`; says whether it is one too many.
    pub fn is_rate_limited(&mut self, client: IpAddr, now: u64) -> (r: bool)
        ensures
            (final(self)@, r) == limited(old(self)@, client, now),
    {
        if now.saturating_sub(self.last_cleanup) > 60 * SECOND {
            keep_recent(&mut self.table, now);
            self.last_cleanup = now;
        }
        let ghost c = self@;
        assert(c =~= cleaned(old(self)@, now));
        let key: ClientKey = match client {
            IpAddr::V4(n) => (false, n as u128),
            IpAddr::V6(n) => (true, n),
        };
        let entry: ClientEntry = match get(&self.table, &key) {
            Some(e) => e,
            None => (0, now),
        };
        if now.saturating_sub(entry.1) > SECOND {
            insert(&mut self.table, key, (1, now));
            assert(self@ =~= limited(old(self)@, client, now).0);
            false
        } else {
            let count: u32 = entry.0.wrapping_add(1);
            insert(&mut self.table, key, (count, entry.1));
            assert(self@ =~= limited(old(self)@, client, now).0);
            count > self.max_qps
        }
    }
}

/// A query of one client does not change what is decided of another.
pub proof fn law_clients_are_counted_apart(v: LimiterView, a: IpAddr, b: IpAddr, now: u64)
    requires
        a != b,
    ensures
        limited(limited(v, a, now).0, b, now).1 == limited(v, b, now).1,
{
    let w = limited(v, a, now).0;
    assert(client_key(a) != client_key(b));
    let (cv, cw) = (cleaned(v, now), cleaned(w, now));
    let k = client_key(b);
    assert(cw.clients.contains_key(k) == cv.clients.contains_key(k));
    assert(cw.clients.contains_key(k) ==> cw.clients[k] == cv.clients[k]);
}

/// Within a second the queries of a client are counted one by one, and a query is one too many
/// just where its number in that second is above the limit.
pub proof fn law_limit_is_reached_by_count(v: LimiterView, ip: IpAddr, now: u64)
    requires
        v.clients.contains_key(client_key(ip)),
        since(v.clients[client_key(ip)].1, now) <= SECOND,
        v.clients[client_key(ip)].0 < u32::MAX,
    ensures
        limited(v, ip, now).1 == (v.clients[client_key(ip)].0 + 1 > v.max),
        limited(v, ip, now).0.clients[client_key(ip)].0 == v.clients[client_key(ip)].0 + 1,
        limited(v, ip, now).0.clients[client_key(ip)].1 == v.clients[client_key(ip)].1,
{
}

/// The first query of a client, and its first after more than a second, is never one too many
/// where the limit is above zero.
pub proof fn law_first_query_passes(v: LimiterView, ip: IpAddr, now: u64)
    requires
        v.max > 0,
        v.clients.contains_key(client_key(ip)) ==> since(v.clients[client_key(ip)].1, now) > SECOND,
    ensures
        !limited(v, ip, now).1,
        limited(v, ip, now).0.clients[client_key(ip)] == (1u32, now),
{
}

/// The limiter after queries, each of a client at a time.
pub open spec fn after_queries(v: LimiterView, queries: Seq<(IpAddr, u64)>) -> LimiterView
    decreases queries.len(),
{
    if queries.len() == 0 {
        v
    } else {
        limited(after_queries(v, queries.drop_last()), queries.last().0, queries.last().1).0
    }
}

/// The times of the queries do not go back, and none is later than `now`.
pub open spec fn in_order(queries: Seq<(IpAddr, u64)>, now: u64) -> bool
    decreases queries.len(),
{
    queries.len() == 0 || (queries.last().1 <= now && in_order(
        queries.drop_last(),
        queries.last().1,
    ))
}

/// The current window of a client: when its first query came, and how many came in it. A window
/// starts with the first query of the client, and anew with each that comes more than a second
/// after the start of the one before.
pub open spec fn window_of(queries: Seq<(IpAddr, u64)>, ip: IpAddr) -> Option<(u64, nat)>
    decreases queries.len(),
{
    if queries.len() == 0 {
        None
    } else if queries.last().0 != ip {
        window_of(queries.drop_last(), ip)
    } else {
        match window_of(queries.drop_last(), ip) {
            Some((start, n)) => if queries.last().1 <= start + 1_000_000_000 {
                Some((start, n + 1))
            } else {
                Some((queries.last().1, 1))
            },
            None => Some((queries.last().1, 1)),
        }
    }
}

/// What is kept of a client is its current window. One that is no longer kept is over.
proof fn lemma_window_is_kept(max: u32, made: u64, queries: Seq<(IpAddr, u64)>, ip: IpAddr, now: u64)
    requires
        in_order(queries, now),
    ensures
        ({
            let v = after_queries(
                LimiterView { max, clients: Map::empty(), last_cleanup: made },
                queries,
            );
            &&& v.max == max
            &&& v.clients.contains_key(client_key(ip)) ==> match window_of(queries, ip) {
                Some((start, n)) => {
                    let e = v.clients[client_key(ip)];
                    e.1 == start && (n <= u32::MAX ==> e.0 == n)
                },
                None => false,
            }
            &&& !v.clients.contains_key(client_key(ip)) ==> match window_of(queries, ip) {
                Some((start, _)) => now >= start + 2 * SECOND,
                None => true,
            }
        }),
    decreases queries.len(),
{
    if queries.len() > 0 {
        let (who, at) = queries.last();
        lemma_window_is_kept(max, made, queries.drop_last(), ip, at);
        if who != ip {
            assert(client_key(who) != client_key(ip));
        }
    }
}

/// The limit over a whole window: the query that is the n-th of its client in the current window is
/// one too many exactly where n is above the limit. What other clients asked in between, and what
/// the client asked in earlier windows, plays no part.
pub proof fn law_limit_holds_in_every_window(
    max: u32,
    made: u64,
    queries: Seq<(IpAddr, u64)>,
    ip: IpAddr,
    now: u64,
)
    requires
        max >= 1,
        in_order(queries, now),
        window_of(queries.push((ip, now)), ip) matches Some((_, n)) && n <= u32::MAX,
    ensures
        ({
            let v = after_queries(
                LimiterView { max, clients: Map::empty(), last_cleanup: made },
                queries,
            );
            window_of(queries.push((ip, now)), ip) matches Some((_, n)) && limited(v, ip, now).1
                == (n > max)
        }),
{
    lemma_window_is_kept(max, made, queries, ip, now);
    assert(queries.push((ip, now)).drop_last() =~= queries);
}


/// Once more than a minute has passed since the last time, the clients are forgotten whose count began
/// two seconds ago or earlier; all others are kept as they were, and at any other time all are.
pub proof fn law_idle_clients_are_forgotten(v: LimiterView, now: u64, k: ClientKey)
    ensures
        ({
            let w = cleaned(v, now);
            let due = now > v.last_cleanup + 60_000_000_000;
            &&& w.max == v.max
            &&& w.last_cleanup == (if due {
                now
            } else {
                v.last_cleanup
            })
            &&& w.clients.contains_key(k) <==> v.clients.contains_key(k) && (!due || now
                < v.clients[k].1 + 2_000_000_000)
            &&& w.clients.contains_key(k) ==> w.clients[k] == v.clients[k]
        }),
{
}

/// Clients are told apart by their addresses, those of four bytes from those of sixteen too.
pub proof fn law_addresses_are_told_apart(a: IpAddr, b: IpAddr)
    ensures
        client_key(a) == client_key(b) <==> a == b,
{
}

} // verus!
