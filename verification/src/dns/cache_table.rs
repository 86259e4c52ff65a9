//! The table that the cache keeps its entries in.

use crate::dns::cache::{CachedResponse, EntryView};
use dashmap::DashMap;
use vstd::prelude::*;

verus! {

#[verifier::external_type_specification]
#[verifier::external_body]
#[verifier::reject_recursive_types(K)]
#[verifier::reject_recursive_types(V)]
#[verifier::reject_recursive_types(S)]
pub struct ExDashMap<K, V, S>(dashmap::DashMap<K, V, S>);

/// What an entry is found by: domain, record type, class, the mark for signatures, subnet.
pub type TableKey = (String, u16, u16, bool, Option<u32>);

/// The contents of a `TableKey`.
pub type KeyView = (Seq<char>, u16, u16, bool, Option<u32>);

/// The contents of a key.
pub open spec fn key_view(k: TableKey) -> KeyView {
    (k.0@, k.1, k.2, k.3, k.4)
}

/// The entries that a table holds.
pub uninterp spec fn entries(m: DashMap<TableKey, CachedResponse>) -> Map<KeyView, EntryView>;

/// No entries.
pub open spec fn no_entries() -> Map<KeyView, EntryView> {
    Map::empty()
}

/// `DashMap::new`: a table that holds nothing.
#[verifier::external_body]
pub(crate) fn new_table() -> (r: DashMap<TableKey, CachedResponse>)
    ensures
        entries(r) == no_entries(),
{
    DashMap::new()
}

/// `DashMap::get`, and a copy of the entry that it finds.
#[verifier::external_body]
pub(crate) fn get(m: &DashMap<TableKey, CachedResponse>, key: &TableKey) -> (r: Option<CachedResponse>)
    ensures
        match r {
            Some(e) => entries(*m).contains_key(key_view(*key)) && entries(*m)[key_view(*key)] == e@,
            None => !entries(*m).contains_key(key_view(*key)),
        },
{
    m.get(key).map(|e| CachedResponse {
        data: e.data.clone(),
        cached_at: e.cached_at,
        original_ttl: e.original_ttl,
        ttl: e.ttl,
        qtype: e.qtype,
        qclass: e.qclass,
        hits: e.hits,
    })
}

/// `DashMap::insert`: the entry stands under the key afterwards.
#[verifier::external_body]
pub(crate) fn insert(m: &mut DashMap<TableKey, CachedResponse>, key: TableKey, entry: CachedResponse)
    ensures
        entries(*final(m)) == entries(*old(m)).insert(key_view(key), entry@),
{
    m.insert(key, entry);
}

/// `DashMap::remove`: nothing stands under the key afterwards.
#[verifier::external_body]
pub(crate) fn remove(m: &mut DashMap<TableKey, CachedResponse>, key: &TableKey)
    ensures
        entries(*final(m)) == entries(*old(m)).remove(key_view(*key)),
{
    m.remove(key);
}

/// `DashMap::len`: how many entries the table holds.
#[verifier::external_body]
pub(crate) fn len(m: &DashMap<TableKey, CachedResponse>) -> (r: usize)
    ensures
        r == entries(*m).dom().len(),
{
    m.len()
}

/// `DashMap::clear`: the table holds nothing afterwards.
#[verifier::external_body]
pub(crate) fn clear(m: &mut DashMap<TableKey, CachedResponse>)
    ensures
        entries(*final(m)) == no_entries(),
{
    m.clear()
}

/// A walk over the table by `DashMap::iter`: of each entry its key, when it was cached and how long
/// it lives. Each entry occurs once; the order is that of the table.
#[verifier::external_body]
pub(crate) fn stamps(m: &DashMap<TableKey, CachedResponse>) -> (r: Vec<(TableKey, u64, u32)>)
    ensures
        forall|i: int|
            0 <= i < r@.len() ==> {
                let k = key_view((#[trigger] r@[i]).0);
                &&& entries(*m).contains_key(k)
                &&& entries(*m)[k].cached_at == r@[i].1
                &&& entries(*m)[k].ttl == r@[i].2
            },
        forall|k: KeyView| #[trigger]
            entries(*m).contains_key(k) ==> exists|i: int|
                0 <= i < r@.len() && key_view((#[trigger] r@[i]).0) == k,
        forall|i: int, j: int|
            0 <= i < j < r@.len() ==> key_view((#[trigger] r@[i]).0) != key_view(
                (#[trigger] r@[j]).0,
            ),
{
    m.iter().map(|e| (e.key().clone(), e.cached_at, e.ttl)).collect()
}

} // verus!
