//! What holds of the cache across its operations.

use crate::dns::cache::{
    expired, insert_outcome, kept, lookup, oldest, other_domains, CacheView, EntryView,
};
use crate::dns::cache_table::KeyView;
use vstd::prelude::*;

verus! {

/// An answer that was cached is found as long as its time is not over: the same bytes, with one
/// use more.
pub proof fn law_cached_answer_is_found(
    a: CacheView,
    key: KeyView,
    e: EntryView,
    now: u64,
    b: CacheView,
    later: u64,
)
    requires
        insert_outcome(a, key, e, now, b),
        !expired(e.cached_at, e.ttl, later),
    ensures
        lookup(b, key, later).1 == Some(e.used()),
{
}

/// An answer whose time is over is not served, and is gone after the attempt.
pub proof fn law_expired_answer_is_not_served(v: CacheView, key: KeyView, now: u64)
    requires
        v.entries.contains_key(key),
        expired(v.entries[key].cached_at, v.entries[key].ttl, now),
    ensures
        lookup(v, key, now).1 is None,
        !lookup(v, key, now).0.entries.contains_key(key),
{
}

/// A cache for at least one answer never holds more answers than it is for.
pub proof fn law_cache_stays_within_its_size(
    a: CacheView,
    key: KeyView,
    e: EntryView,
    now: u64,
    b: CacheView,
)
    requires
        a.well_formed(),
        a.max > 0,
        a.entries.dom().len() <= a.max,
        insert_outcome(a, key, e, now, b),
    ensures
        b.max == a.max,
        b.entries.dom().len() <= b.max,
{
    let m = a.entries.remove(key);
    assert(m.dom() =~= a.entries.dom().remove(key));
    let k = kept(a, key, now);
    assert(k.dom().subset_of(m.dom()));
    vstd::set_lib::lemma_len_subset(k.dom(), m.dom());
    assert(k.dom().finite());
    if k.dom().len() >= a.max {
        let gone = choose|x: KeyView| #[trigger]
            oldest(k, x) && b.entries == k.remove(x).insert(key, e);
        assert(k.remove(gone).dom() =~= k.dom().remove(gone));
        assert(b.entries.dom() =~= k.dom().remove(gone).insert(key));
    } else {
        assert(b.entries.dom() =~= k.dom().insert(key));
    }
}

/// While there is room, caching an answer keeps every other answer as it is.
pub proof fn law_room_keeps_other_answers(
    a: CacheView,
    key: KeyView,
    e: EntryView,
    now: u64,
    b: CacheView,
    other: KeyView,
)
    requires
        a.well_formed(),
        a.entries.dom().len() < a.max,
        insert_outcome(a, key, e, now, b),
        other != key,
    ensures
        b.entries.contains_key(other) == a.entries.contains_key(other),
        a.entries.contains_key(other) ==> b.entries[other] == a.entries[other],
{
    let m = a.entries.remove(key);
    assert(m.dom() =~= a.entries.dom().remove(key));
    vstd::set_lib::lemma_len_subset(m.dom(), a.entries.dom());
}

/// A lookup changes no other entry.
pub proof fn law_lookup_keeps_other_answers(v: CacheView, key: KeyView, now: u64, other: KeyView)
    requires
        other != key,
    ensures
        lookup(v, key, now).0.entries.contains_key(other) == v.entries.contains_key(other),
        v.entries.contains_key(other) ==> lookup(v, key, now).0.entries[other]
            == v.entries[other],
{
}

/// A lookup finds what is there and lives, with the bytes that were cached, and counts a hit; what is
/// there and no longer lives it forgets, and counts a miss; of what is not there it counts nothing.
pub proof fn law_lookup_finds_what_lives(v: CacheView, key: KeyView, now: u64)
    requires
        v.hits < u64::MAX,
        v.misses < u64::MAX,
    ensures
        ({
            let (w, found) = lookup(v, key, now);
            let e = v.entries[key];
            let lives = now <= e.cached_at + e.ttl * 1_000_000_000;
            if !v.entries.contains_key(key) {
                found is None && w == v
            } else if lives {
                &&& found matches Some(f) && f.data == e.data && f.cached_at == e.cached_at && f.ttl
                    == e.ttl
                &&& w.entries.contains_key(key) && w.entries[key].data == e.data
                    && w.entries[key].cached_at == e.cached_at && w.entries[key].ttl == e.ttl
                &&& w.hits == v.hits + 1 && w.misses == v.misses && w.max == v.max
            } else {
                &&& found is None
                &&& !w.entries.contains_key(key)
                &&& w.hits == v.hits && w.misses == v.misses + 1 && w.max == v.max
            }
        }),
{
}

/// When an answer comes into a full cache in which everything lives, one answer goes: one that was
/// cached no later than any other. All others stay as they were.
pub proof fn law_full_cache_loses_an_oldest(
    a: CacheView,
    key: KeyView,
    e: EntryView,
    now: u64,
    b: CacheView,
)
    requires
        a.well_formed(),
        !a.entries.contains_key(key),
        a.max > 0,
        a.entries.dom().len() >= a.max,
        insert_outcome(a, key, e, now, b),
        forall|k: KeyView| #[trigger]
            a.entries.contains_key(k) ==> now <= a.entries[k].cached_at + a.entries[k].ttl
                * 1_000_000_000,
    ensures
        b.entries.contains_key(key) && b.entries[key] == e,
        exists|gone: KeyView|
            {
                &&& #[trigger] a.entries.contains_key(gone)
                &&& !b.entries.contains_key(gone)
                &&& forall|k: KeyView| #[trigger]
                    a.entries.contains_key(k) && k != gone ==> b.entries.contains_key(k)
                        && b.entries[k] == a.entries[k] && a.entries[gone].cached_at
                        <= a.entries[k].cached_at
            },
{
    let m = kept(a, key, now);
    assert(a.entries.remove(key) =~= a.entries);
    assert(m =~= a.entries);
    let gone = choose|x: KeyView| #[trigger]
        oldest(m, x) && b.entries == m.remove(x).insert(key, e);
    assert(a.entries.contains_key(gone));
    assert(!b.entries.contains_key(gone));
}

/// As long as what lives does not fill the cache, an answer that comes in takes the place of no other
/// that lives.
pub proof fn law_expired_answers_go_first(
    a: CacheView,
    key: KeyView,
    e: EntryView,
    now: u64,
    b: CacheView,
    other: KeyView,
)
    requires
        a.well_formed(),
        insert_outcome(a, key, e, now, b),
        other != key,
        a.entries.contains_key(other),
        now <= a.entries[other].cached_at + a.entries[other].ttl * 1_000_000_000,
        kept(a, key, now).dom().len() < a.max,
    ensures
        b.entries.contains_key(other) && b.entries[other] == a.entries[other],
        b.entries.contains_key(key) && b.entries[key] == e,
        forall|k: KeyView| #[trigger]
            kept(a, key, now).contains_key(k) ==> a.entries.contains_key(k) && k != key,
{
}

/// To forget a domain is to forget the answers for its name, of every type, and no others.
pub proof fn law_domain_is_forgotten(m: Map<KeyView, EntryView>, domain: Seq<char>, k: KeyView)
    ensures
        other_domains(m, domain).contains_key(k) <==> m.contains_key(k) && k.0 != domain,
        m.contains_key(k) && k.0 != domain ==> other_domains(m, domain)[k] == m[k],
{
}

} // verus!
