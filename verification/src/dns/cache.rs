//! The cache of answers.
//!
//! Times are nanoseconds of a clock that never goes back.

use crate::dns::cache_table::{self, entries, key_view, KeyView, TableKey};
use dashmap::DashMap;
use vstd::prelude::*;

verus! {

broadcast use vstd::string::group_string_axioms;

/// Nanoseconds in a second.
pub const SECOND: u64 = 1_000_000_000;

/// An answer in the cache.
#[derive(Debug, Clone)]
pub struct CachedResponse {
    /// The bytes of the answer.
    pub data: Vec<u8>,
    /// When the answer was cached.
    pub cached_at: u64,
    /// Seconds that the answer was to live for.
    pub original_ttl: u32,
    /// Seconds that the entry lives for.
    pub ttl: u32,
    pub qtype: u16,
    pub qclass: u16,
    /// How often the entry was used.
    pub hits: u64,
}

/// The contents of a `CachedResponse`.
#[verifier::ext_equal]
pub struct EntryView {
    pub data: Seq<u8>,
    pub cached_at: u64,
    pub original_ttl: u32,
    pub ttl: u32,
    pub qtype: u16,
    pub qclass: u16,
    pub hits: u64,
}

impl View for CachedResponse {
    type V = EntryView;

    open spec fn view(&self) -> EntryView {
        EntryView {
            data: self.data@,
            cached_at: self.cached_at,
            original_ttl: self.original_ttl,
            ttl: self.ttl,
            qtype: self.qtype,
            qclass: self.qclass,
            hits: self.hits,
        }
    }
}

/// The time from `then` to `now`; none where `then` is the later.
pub open spec fn since(then: u64, now: u64) -> int {
    if now >= then {
        now - then
    } else {
        0
    }
}

/// The entry has lived for longer than it may.
pub open spec fn expired(cached_at: u64, ttl: u32, now: u64) -> bool {
    since(cached_at, now) > ttl * SECOND
}

fn has_expired(cached_at: u64, ttl: u32, now: u64) -> (r: bool)
    ensures
        r == expired(cached_at, ttl, now),
{
    now.saturating_sub(cached_at) > ttl as u64 * SECOND
}

impl EntryView {
    /// The entry after it was used once more.
    pub open spec fn used(self) -> EntryView {
        EntryView {
            hits: if self.hits == u64::MAX {
                0
            } else {
                (self.hits + 1) as u64
            },
            ..self
        }
    }
}

impl CachedResponse {
    /// Whether the entry has lived for longer than it may.
    pub fn is_expired(&self, now: u64) -> (r: bool)
        ensures
            r == expired(self.cached_at, self.ttl, now),
    {
        has_expired(self.cached_at, self.ttl, now)
    }

    /// The nanoseconds that the entry may still live for.
    pub fn remaining_ttl(&self, now: u64) -> (r: u64)
        ensures
            r == (if since(self.cached_at, now) >= self.ttl * SECOND {
                0
            } else {
                self.ttl * SECOND - since(self.cached_at, now)
            }),
    {
        let max: u64 = self.ttl as u64 * SECOND;
        max.saturating_sub(now.saturating_sub(self.cached_at))
    }

    /// Counts a use; the count starts again at zero behind the greatest number.
    pub fn record_hit(&mut self)
        ensures
            final(self)@ == old(self)@.used(),
    {
        self.hits = self.hits.wrapping_add(1);
    }
}

/// What an answer is found by.
#[derive(Debug, Clone, Hash, PartialEq, Eq)]
pub struct CacheKey {
    pub domain: String,
    pub qtype: u16,
    pub qclass: u16,
    pub dnssec_ok: bool,
    pub ecs_subnet: Option<u32>,
}

impl View for CacheKey {
    type V = KeyView;

    open spec fn view(&self) -> KeyView {
        (self.domain@, self.qtype, self.qclass, self.dnssec_ok, self.ecs_subnet)
    }
}

impl CacheKey {
    /// A key with the same contents.
    pub fn copy(&self) -> (r: CacheKey)
        ensures
            r@ == self@,
    {
        CacheKey {
            domain: self.domain.clone(),
            qtype: self.qtype,
            qclass: self.qclass,
            dnssec_ok: self.dnssec_ok,
            ecs_subnet: self.ecs_subnet,
        }
    }

    fn table_key(&self) -> (r: TableKey)
        ensures
            key_view(r) == self@,
    {
        (self.domain.clone(), self.qtype, self.qclass, self.dnssec_ok, self.ecs_subnet)
    }
}

/// Numbers about the cache.
#[derive(Debug, Clone, Copy, PartialEq, Eq, Structural)]
pub struct CacheStats {
    pub entries: usize,
    pub hits: u64,
    pub misses: u64,
    pub max_entries: usize,
}

/// A cache of answers that forgets them when their time is over, and the oldest when it is full.
pub struct DnsCache {
    table: DashMap<TableKey, CachedResponse>,
    max_entries: usize,
    total_hits: u64,
    total_misses: u64,
}

/// The contents of a `DnsCache`.
#[verifier::ext_equal]
pub struct CacheView {
    pub entries: Map<KeyView, EntryView>,
    pub max: usize,
    pub hits: u64,
    pub misses: u64,
}

impl View for DnsCache {
    type V = CacheView;

    closed spec fn view(&self) -> CacheView {
        CacheView {
            entries: entries(self.table),
            max: self.max_entries,
            hits: self.total_hits,
            misses: self.total_misses,
        }
    }
}

/// A count that starts again at zero behind the greatest number.
pub open spec fn next_count(n: u64) -> u64 {
    if n == u64::MAX {
        0
    } else {
        (n + 1) as u64
    }
}

/// The result of a lookup at the time `now`, and the cache after it. An entry whose time is over
/// is forgotten and counted as a miss; any other is used and counted as a hit. A key without entry
/// is not counted.
pub open spec fn lookup(v: CacheView, key: KeyView, now: u64) -> (CacheView, Option<EntryView>) {
    if !v.entries.contains_key(key) {
        (v, None)
    } else {
        let e = v.entries[key];
        if expired(e.cached_at, e.ttl, now) {
            (
                CacheView {
                    entries: v.entries.remove(key),
                    misses: next_count(v.misses),
                    ..v
                },
                None,
            )
        } else {
            (
                CacheView {
                    entries: v.entries.insert(key, e.used()),
                    hits: next_count(v.hits),
                    ..v
                },
                Some(e.used()),
            )
        }
    }
}

/// The entries whose time is not over.
pub open spec fn unexpired(m: Map<KeyView, EntryView>, now: u64) -> Map<KeyView, EntryView> {
    Map::new(
        |k: KeyView| m.contains_key(k) && !expired(m[k].cached_at, m[k].ttl, now),
        |k: KeyView| m[k],
    )
}

/// No entry was cached before the one with the key `k`.
pub open spec fn oldest(m: Map<KeyView, EntryView>, k: KeyView) -> bool {
    &&& m.contains_key(k)
    &&& forall|j: KeyView| #[trigger] m.contains_key(j) ==> m[k].cached_at <= m[j].cached_at
}

/// The entries that stay when an entry with the key `key` is about to come in: not the one with
/// that key and, if the cache is full without it, not those whose time is over.
pub open spec fn kept(v: CacheView, key: KeyView, now: u64) -> Map<KeyView, EntryView> {
    let m = v.entries.remove(key);
    if m.dom().len() >= v.max {
        unexpired(m, now)
    } else {
        m
    }
}

/// The cache `b` after the entry `e` came into `a` at the time `now`. If the cache is still full
/// then, an oldest entry goes.
pub open spec fn insert_outcome(
    a: CacheView,
    key: KeyView,
    e: EntryView,
    now: u64,
    b: CacheView,
) -> bool {
    let m = kept(a, key, now);
    &&& b == CacheView { entries: b.entries, ..a }
    &&& if m.dom().len() >= a.max && m.dom().len() > 0 {
        exists|k: KeyView| #[trigger] oldest(m, k) && b.entries == m.remove(k).insert(key, e)
    } else {
        b.entries == m.insert(key, e)
    }
}

/// The entries of another domain.
pub open spec fn other_domains(m: Map<KeyView, EntryView>, domain: Seq<char>) -> Map<
    KeyView,
    EntryView,
> {
    Map::new(|k: KeyView| m.contains_key(k) && k.0 != domain, |k: KeyView| m[k])
}

impl CacheView {
    /// A cache holds finitely many entries.
    pub open spec fn well_formed(self) -> bool {
        self.entries.dom().finite()
    }
}

impl DnsCache {
    /// An empty cache for up to `max_entries` answers.
    pub fn new(max_entries: usize) -> (r: DnsCache)
        ensures
            r@ == (CacheView { entries: Map::empty(), max: max_entries, hits: 0, misses: 0 }),
            r@.well_formed(),
    {
        DnsCache {
            table: cache_table::new_table(),
            max_entries,
            total_hits: 0,
            total_misses: 0,
        }
    }

    /// Looks an answer up at the time `now`.
    pub fn get(&mut self, key: &CacheKey, now: u64) -> (r: Option<CachedResponse>)
        ensures
            final(self)@ == lookup(old(self)@, key@, now).0,
            match r {
                Some(e) => lookup(old(self)@, key@, now).1 == Some(e@),
                None => lookup(old(self)@, key@, now).1 is None,
            },
            old(self)@.well_formed() ==> final(self)@.well_formed(),
    {
        let k = key.table_key();
        match cache_table::get(&self.table, &k) {
            None => None,
            Some(found) => {
                let mut e = found;
                if e.is_expired(now) {
                    cache_table::remove(&mut self.table, &k);
                    self.total_misses = self.total_misses.wrapping_add(1);
                    assert(self@ =~= lookup(old(self)@, key@, now).0);
                    return None;
                }
                e.record_hit();
                let kept = CachedResponse {
                    data: copy_bytes(&e.data),
                    cached_at: e.cached_at,
                    original_ttl: e.original_ttl,
                    ttl: e.ttl,
                    qtype: e.qtype,
                    qclass: e.qclass,
                    hits: e.hits,
                };
                assert(kept@ =~= e@);
                cache_table::insert(&mut self.table, k, kept);
                self.total_hits = self.total_hits.wrapping_add(1);
                assert(self@ =~= lookup(old(self)@, key@, now).0);
                Some(e)
            },
        }
    }

    /// Forgets the entries whose time is over.
    fn drop_expired(&mut self, now: u64)
        ensures
            final(self)@ == (CacheView {
                entries: unexpired(old(self)@.entries, now),
                ..old(self)@
            }),
            final(self)@.well_formed(),
    {
        let list = cache_table::stamps(&self.table);
        let ghost pre = self@.entries;
        let mut i: usize = 0;
        while i < list.len()
            invariant
                i <= list@.len(),
                pre == old(self)@.entries,
                self@ == (CacheView { entries: self@.entries, ..old(self)@ }),
                forall|j: int|
                    0 <= j < list@.len() ==> {
                        let k = key_view((#[trigger] list@[j]).0);
                        &&& pre.contains_key(k)
                        &&& pre[k].cached_at == list@[j].1
                        &&& pre[k].ttl == list@[j].2
                    },
                forall|k: KeyView| #[trigger]
                    self@.entries.contains_key(k) <==> pre.contains_key(k) && !(exists|j: int|
                        0 <= j < i && key_view((#[trigger] list@[j]).0) == k && expired(
                            pre[k].cached_at,
                            pre[k].ttl,
                            now,
                        )),
                forall|k: KeyView| #[trigger]
                    self@.entries.contains_key(k) ==> self@.entries[k] == pre[k],
            decreases list@.len() - i,
        {
            let ghost was = self@.entries;
            let ghost gone = key_view(list@[i as int].0);
            if has_expired(list[i].1, list[i].2, now) {
                cache_table::remove(&mut self.table, &list[i].0);
            }
            proof {
                assert forall|k: KeyView| #[trigger] self@.entries.contains_key(k)
                    <==> pre.contains_key(k) && !(exists|j: int|
                    0 <= j < i + 1 && key_view((#[trigger] list@[j]).0) == k && expired(
                        pre[k].cached_at,
                        pre[k].ttl,
                        now,
                    )) by {
                    assert(was.contains_key(k) <==> pre.contains_key(k) && !(exists|j: int|
                        0 <= j < i && key_view((#[trigger] list@[j]).0) == k && expired(
                            pre[k].cached_at,
                            pre[k].ttl,
                            now,
                        )));
                    if k == gone {
                        assert(key_view(list@[i as int].0) == k);
                    }
                }
            }
            i += 1;
        }
        proof {
            let want = unexpired(pre, now);
            assert(self@.entries =~= want) by {
                assert forall|k: KeyView| #[trigger] self@.entries.contains_key(k)
                    <==> want.contains_key(k) by {
                    if pre.contains_key(k) {
                        let j = choose|j: int|
                            0 <= j < list@.len() && key_view((#[trigger] list@[j]).0) == k;
                        assert(key_view(list@[j].0) == k);
                    }
                }
            }
            lemma_listed_finite(list@, pre);
            vstd::set_lib::lemma_len_subset(want.dom(), pre.dom());
        }
    }

    /// Forgets an oldest entry, if there is one.
    fn drop_oldest(&mut self)
        ensures
            if old(self)@.entries.dom().len() > 0 && old(self)@.well_formed() {
                exists|k: KeyView| #[trigger]
                    oldest(old(self)@.entries, k) && final(self)@ == (CacheView {
                        entries: old(self)@.entries.remove(k),
                        ..old(self)@
                    })
            } else {
                old(self)@.well_formed() ==> final(self)@ == old(self)@
            },
            old(self)@.well_formed() ==> final(self)@.well_formed(),
    {
        let list = cache_table::stamps(&self.table);
        let ghost pre = self@.entries;
        if list.len() == 0 {
            proof {
                assert(pre.dom() =~= Set::empty()) by {
                    assert forall|k: KeyView| !pre.dom().contains(k) by {
                        if pre.contains_key(k) {
                            let j = choose|j: int|
                                0 <= j < list@.len() && key_view((#[trigger] list@[j]).0) == k;
                        }
                    }
                }
            }
            return;
        }
        let mut best: usize = 0;
        let mut i: usize = 1;
        while i < list.len()
            invariant
                1 <= i <= list@.len(),
                best < i,
                forall|j: int| 0 <= j < i ==> list@[best as int].1 <= (#[trigger] list@[j]).1,
            decreases list@.len() - i,
        {
            if list[i].1 < list[best].1 {
                best = i;
            }
            i += 1;
        }
        let ghost k = key_view(list@[best as int].0);
        proof {
            assert(oldest(pre, k)) by {
                assert forall|j: KeyView| #[trigger] pre.contains_key(j) implies pre[k].cached_at
                    <= pre[j].cached_at by {
                    let x = choose|x: int|
                        0 <= x < list@.len() && key_view((#[trigger] list@[x]).0) == j;
                    assert(list@[best as int].1 <= list@[x].1);
                }
            }
            assert(pre.dom().contains(k));
            if pre.dom().finite() {
                if pre.dom().len() == 0 {
                    assert(pre.dom() =~= Set::empty());
                }
            }
        }
        cache_table::remove(&mut self.table, &list[best].0);
        assert(self@ =~= (CacheView { entries: pre.remove(k), ..old(self)@ }));
    }

    /// Puts an answer into the cache at the time `now`.
    pub fn insert(&mut self, key: CacheKey, response: CachedResponse, now: u64)
        requires
            old(self)@.well_formed(),
        ensures
            insert_outcome(old(self)@, key@, response@, now, final(self)@),
            final(self)@.well_formed(),
    {
        let k = key.table_key();
        let ghost a = self@;
        cache_table::remove(&mut self.table, &k);
        let ghost m0 = self@.entries;
        assert(m0 == a.entries.remove(key@));
        if cache_table::len(&self.table) >= self.max_entries {
            self.drop_expired(now);
        }
        let ghost m1 = self@.entries;
        assert(m1 == kept(a, key@, now));
        if cache_table::len(&self.table) >= self.max_entries {
            self.drop_oldest();
        }
        let ghost m2 = self@.entries;
        cache_table::insert(&mut self.table, k, response);
        proof {
            assert(self@.entries == m2.insert(key@, response@));
            assert(self@ =~= (CacheView { entries: self@.entries, ..a }));
            if m1.dom().len() >= a.max && m1.dom().len() > 0 {
                let gone = choose|x: KeyView| #[trigger] oldest(m1, x) && m2 == m1.remove(x);
                assert(oldest(m1, gone));
                assert(self@.entries == m1.remove(gone).insert(key@, response@));
            }
        }
    }

    /// Forgets every answer for a domain; says how many there were.
    pub fn remove_domain(&mut self, domain: &str) -> (r: usize)
        requires
            old(self)@.well_formed(),
        ensures
            final(self)@ == (CacheView {
                entries: other_domains(old(self)@.entries, domain@),
                ..old(self)@
            }),
            r + final(self)@.entries.dom().len() == old(self)@.entries.dom().len(),
            final(self)@.well_formed(),
    {
        let list = cache_table::stamps(&self.table);
        let ghost pre = self@.entries;
        let mut count: usize = 0;
        let mut i: usize = 0;
        while i < list.len()
            invariant
                i <= list@.len(),
                count <= i,
                pre == old(self)@.entries,
                self@ == (CacheView { entries: self@.entries, ..old(self)@ }),
                self@.entries.dom().finite(),
                count + self@.entries.dom().len() == pre.dom().len(),
                forall|j: int|
                    0 <= j < list@.len() ==> pre.contains_key(key_view((#[trigger] list@[j]).0)),
                forall|x: int, y: int|
                    0 <= x < y < list@.len() ==> key_view((#[trigger] list@[x]).0) != key_view(
                        (#[trigger] list@[y]).0,
                    ),
                forall|k: KeyView| #[trigger]
                    self@.entries.contains_key(k) <==> pre.contains_key(k) && !(exists|j: int|
                        0 <= j < i && key_view((#[trigger] list@[j]).0) == k && k.0 == domain@),
                forall|k: KeyView| #[trigger]
                    self@.entries.contains_key(k) ==> self@.entries[k] == pre[k],
            decreases list@.len() - i,
        {
            let ghost was = self@.entries;
            let ghost here = key_view(list@[i as int].0);
            proof {
                assert(was.contains_key(here)) by {
                    if exists|j: int| 0 <= j < i && key_view((#[trigger] list@[j]).0) == here && here.0
                        == domain@ {
                        let j = choose|j: int|
                            0 <= j < i && key_view((#[trigger] list@[j]).0) == here && here.0
                                == domain@;
                        assert(key_view(list@[j].0) != key_view(list@[i as int].0));
                    }
                }
            }
            if crate::text::same_text(list[i].0.0.as_str(), domain) {
                cache_table::remove(&mut self.table, &list[i].0);
                count += 1;
                assert(self@.entries.dom() =~= was.dom().remove(here));
            }
            proof {
                assert forall|k: KeyView| #[trigger] self@.entries.contains_key(k)
                    <==> pre.contains_key(k) && !(exists|j: int|
                    0 <= j < i + 1 && key_view((#[trigger] list@[j]).0) == k && k.0 == domain@) by {
                    assert(was.contains_key(k) <==> pre.contains_key(k) && !(exists|j: int|
                        0 <= j < i && key_view((#[trigger] list@[j]).0) == k && k.0 == domain@));
                    if k == here {
                        assert(key_view(list@[i as int].0) == k);
                    }
                }
            }
            i += 1;
        }
        proof {
            let want = other_domains(pre, domain@);
            assert(self@.entries =~= want) by {
                assert forall|k: KeyView| #[trigger] self@.entries.contains_key(k)
                    <==> want.contains_key(k) by {
                    if pre.contains_key(k) {
                        let j = choose|j: int|
                            0 <= j < list@.len() && key_view((#[trigger] list@[j]).0) == k;
                        assert(key_view(list@[j].0) == k);
                    }
                }
            }
        }
        count
    }

    /// Forgets everything; the counts stay.
    pub fn clear(&mut self)
        ensures
            final(self)@ == (CacheView { entries: Map::empty(), ..old(self)@ }),
            final(self)@.well_formed(),
    {
        cache_table::clear(&mut self.table);
        assert(self@ =~= (CacheView { entries: Map::empty(), ..old(self)@ }));
    }

    /// How many answers the cache holds.
    pub fn len(&self) -> (r: usize)
        ensures
            r == self@.entries.dom().len(),
    {
        cache_table::len(&self.table)
    }

    /// Whether the cache holds no answer.
    pub fn is_empty(&self) -> (r: bool)
        ensures
            r == (self@.entries.dom().len() == 0),
    {
        cache_table::len(&self.table) == 0
    }

    /// Numbers about the cache.
    pub fn stats(&self) -> (r: CacheStats)
        ensures
            r.entries == self@.entries.dom().len(),
            r.hits == self@.hits,
            r.misses == self@.misses,
            r.max_entries == self@.max,
    {
        CacheStats {
            entries: cache_table::len(&self.table),
            hits: self.total_hits,
            misses: self.total_misses,
            max_entries: self.max_entries,
        }
    }
}

proof fn lemma_listed_finite(list: Seq<(TableKey, u64, u32)>, m: Map<KeyView, EntryView>)
    requires
        forall|k: KeyView| #[trigger]
            m.contains_key(k) ==> exists|i: int|
                0 <= i < list.len() && key_view((#[trigger] list[i]).0) == k,
    ensures
        m.dom().finite(),
{
    let keys = list.map_values(|x: (TableKey, u64, u32)| key_view(x.0));
    assert(m.dom().subset_of(keys.to_set())) by {
        assert forall|k: KeyView| m.dom().contains(k) implies keys.to_set().contains(k) by {
            assert(m.contains_key(k));
            let i = choose|i: int| 0 <= i < list.len() && key_view((#[trigger] list[i]).0) == k;
            assert(keys[i] == k);
        }
    }
    vstd::seq_lib::seq_to_set_is_finite(keys);
    vstd::set_lib::lemma_set_subset_finite(keys.to_set(), m.dom());
}

/// A vector with the same bytes.
pub fn copy_bytes(v: &Vec<u8>) -> (r: Vec<u8>)
    ensures
        r@ == v@,
{
    let mut out: Vec<u8> = Vec::with_capacity(v.len());
    let mut i: usize = 0;
    while i < v.len()
        invariant
            i <= v@.len(),
            out@ == v@.subrange(0, i as int),
        decreases v@.len() - i,
    {
        out.push(v[i]);
        assert(v@.subrange(0, i + 1) =~= v@.subrange(0, i as int).push(v@[i as int]));
        i += 1;
    }
    assert(v@.subrange(0, v@.len() as int) =~= v@);
    out
}

} // verus!
