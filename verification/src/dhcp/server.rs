//! The state of the DHCP server and what each message does to it.

use crate::clock;
use crate::config::DhcpConfig;
use crate::dhcp::mac::MacAddr;
use crate::dhcp::pool::IpPool;
use crate::tables;
use crate::text::{copy_optional, optional};
use std::collections::HashMap;
use vstd::prelude::*;

verus! {

broadcast use {vstd::std_specs::hash::group_hash_axioms, vstd::string::group_string_axioms};

/// Seconds that an offer stands.
pub const OFFER_TIMEOUT: i64 = 30;

/// Seconds that a declined address is kept back.
pub const QUARANTINE: i64 = 600;

/// The address of every host of the network.
pub const BROADCAST: u32 = 0xffff_ffff;

/// The address 192.168.1.1, which the server takes itself to have where none is configured.
pub const DEFAULT_SERVER: u32 = 0xc0a8_0101;

/// The start of the pool where none is configured: 192.168.1.100.
pub const DEFAULT_POOL_START: u32 = 0xc0a8_0164;

/// The end of the pool where none is configured: 192.168.1.200.
pub const DEFAULT_POOL_END: u32 = 0xc0a8_01c8;

/// An address that a client holds until `expires_at`.
#[derive(Debug, Clone)]
pub struct Lease {
    pub ip: u32,
    pub mac: MacAddr,
    pub hostname: Option<String>,
    pub expires_at: i64,
}

/// The contents of a `Lease`.
#[verifier::ext_equal]
pub struct LeaseView {
    pub ip: u32,
    pub mac: MacAddr,
    pub hostname: Option<Seq<char>>,
    pub expires_at: i64,
}

impl View for Lease {
    type V = LeaseView;

    open spec fn view(&self) -> LeaseView {
        LeaseView {
            ip: self.ip,
            mac: self.mac,
            hostname: optional(self.hostname),
            expires_at: self.expires_at,
        }
    }
}

impl Lease {
    /// A lease with the same contents.
    pub fn copy(&self) -> (r: Lease)
        ensures
            r@ == self@,
    {
        Lease {
            ip: self.ip,
            mac: self.mac,
            hostname: copy_optional(&self.hostname),
            expires_at: self.expires_at,
        }
    }
}

/// An address that was offered to a client and is kept for it until `expires_at`.
#[derive(Debug, Clone, Copy, PartialEq, Eq, Structural)]
pub struct Offer {
    pub expires_at: i64,
    pub mac: MacAddr,
}

/// The state of the server. Leases are found by the number of the client's hardware address,
/// offers and declined addresses by the address.
pub struct DhcpServer {
    pub config: DhcpConfig,
    pub leases: HashMap<u64, Lease>,
    pub pool: IpPool,
    pub offered: HashMap<u32, Offer>,
    /// Addresses that a client found in use, each with the time until which it is kept back.
    pub declined: HashMap<u32, i64>,
}

/// The contents of a `DhcpServer`, apart from its configuration.
#[verifier::ext_equal]
pub struct ServerView {
    pub leases: Map<u64, LeaseView>,
    pub start: u32,
    pub end: u32,
    pub allocated: Set<u32>,
    pub offered: Map<u32, Offer>,
    pub declined: Map<u32, i64>,
}

/// The contents of a table of leases.
pub open spec fn lease_views(m: Map<u64, Lease>) -> Map<u64, LeaseView> {
    m.map_values(|l: Lease| l@)
}

impl View for DhcpServer {
    type V = ServerView;

    open spec fn view(&self) -> ServerView {
        ServerView {
            leases: lease_views(self.leases@),
            start: self.pool.start,
            end: self.pool.end,
            allocated: self.pool.allocated@,
            offered: self.offered@,
            declined: self.declined@,
        }
    }
}

impl ServerView {
    /// Each lease stands under its own client, and only addresses of the pool are taken.
    pub open spec fn well_formed(self) -> bool {
        &&& forall|k: u64| #[trigger]
            self.leases.contains_key(k) ==> self.leases[k].mac.number() == k
        &&& forall|ip: u32| #[trigger] self.allocated.contains(ip) ==> self.in_pool(ip)
    }

    /// The address lies in the pool.
    pub open spec fn in_pool(self, ip: u32) -> bool {
        self.start <= ip <= self.end
    }

    /// The address can be offered: in the pool, not taken, not declined.
    pub open spec fn free(self, ip: u32) -> bool {
        self.in_pool(ip) && !self.allocated.contains(ip) && !self.declined.contains_key(ip)
    }

    /// The address is offered to the client, and the offer still stands.
    pub open spec fn live_offer(self, mac: MacAddr, now: i64, ip: u32) -> bool {
        self.offered.contains_key(ip) && self.offered[ip].mac == mac && self.offered[ip].expires_at
            > now
    }

    /// The lease is one of the leases.
    pub open spec fn holds(self, lease: LeaseView) -> bool {
        exists|k: u64| #[trigger] self.leases.contains_key(k) && self.leases[k] == lease
    }

    /// Another client holds the address.
    pub open spec fn conflict(self, mac: MacAddr, ip: u32, now: i64) -> bool {
        exists|k: u64| #[trigger]
            self.leases.contains_key(k) && self.leases[k].ip == ip && k != mac.number()
                && self.leases[k].expires_at > now
    }
}

/// The lease stands in the list.
pub open spec fn listed(list: Seq<Lease>, lease: LeaseView) -> bool {
    exists|i: int| 0 <= i < list.len() && (#[trigger] list[i])@ == lease
}

/// What a lease is committed as.
pub open spec fn with_lease(v: ServerView, lease: LeaseView) -> ServerView {
    ServerView { leases: v.leases.insert(lease.mac.number(), lease), ..v }
}

impl DhcpServer {
    /// Leases `ip` to `mac` at the time `now`, unless another client holds it.
    pub fn try_commit_lease_at(
        &mut self,
        mac: MacAddr,
        ip: u32,
        expires_at: i64,
        hostname: Option<String>,
        now: i64,
    ) -> (committed: bool)
        ensures
            committed == !old(self)@.conflict(mac, ip, now),
            committed ==> final(self)@ == with_lease(
                old(self)@,
                LeaseView { ip, mac, hostname: optional(hostname), expires_at },
            ),
            !committed ==> final(self)@ == old(self)@,
            final(self).config == old(self).config,
            old(self)@.well_formed() ==> final(self)@.well_formed(),
    {
        let keys = tables::keys_of(&self.leases);
        let key: u64 = mac.key();
        let mut i: usize = 0;
        while i < keys.len()
            invariant
                *self == *old(self),
                i <= keys@.len(),
                key == mac.number(),
                forall|k: u64| #[trigger] self.leases@.contains_key(k) <==> keys@.contains(k),
                forall|j: int|
                    0 <= j < i ==> !(self.leases@[#[trigger] keys@[j]].ip == ip && keys@[j] != key
                        && self.leases@[keys@[j]].expires_at > now),
            decreases keys@.len() - i,
        {
            let k: u64 = keys[i];
            assert(self.leases@.contains_key(k)) by {
                assert(keys@.contains(keys@[i as int]));
            }
            match self.leases.get(&k) {
                Some(l) => {
                    if l.ip == ip && k != key && l.expires_at > now {
                        proof {
                            assert(self@.leases.contains_key(k));
                            assert(self@.leases[k] == self.leases@[k]@);
                        }
                        return false;
                    }
                },
                None => {},
            }
            i += 1;
        }
        proof {
            assert forall|k: u64| #[trigger] self@.leases.contains_key(k) implies !(
            self@.leases[k].ip == ip && k != mac.number() && self@.leases[k].expires_at > now) by {
                assert(self.leases@.contains_key(k));
                let j = choose|j: int| 0 <= j < keys@.len() && keys@[j] == k;
                assert(keys@[j] == k);
            }
        }
        let ghost before = self@;
        let lease = Lease { ip, mac, hostname, expires_at };
        self.leases.insert(key, lease);
        proof {
            assert(self@ =~= with_lease(before, lease@));
        }
        true
    }

    /// Leases `ip` to `mac` until `expires_at`, unless another client holds it. The check is made
    /// at the time that the clock shows.
    pub fn try_commit_lease(
        &mut self,
        mac: MacAddr,
        ip: u32,
        expires_at: i64,
        hostname: Option<String>,
    ) -> (committed: bool)
        ensures
            exists|now: i64|
                {
                    &&& clock::is_timestamp(now as int)
                    &&& committed == !#[trigger] old(self)@.conflict(mac, ip, now)
                },
            committed ==> final(self)@ == with_lease(
                old(self)@,
                LeaseView { ip, mac, hostname: optional(hostname), expires_at },
            ),
            !committed ==> final(self)@ == old(self)@,
            final(self).config == old(self).config,
            old(self)@.well_formed() ==> final(self)@.well_formed(),
    {
        let now: i64 = clock::unix_now();
        self.try_commit_lease_at(mac, ip, expires_at, hostname, now)
    }
}

/// The leases that have not run out.
pub open spec fn live_leases(m: Map<u64, LeaseView>, now: i64) -> Map<u64, LeaseView> {
    Map::new(|k: u64| m.contains_key(k) && m[k].expires_at > now, |k: u64| m[k])
}

/// The addresses of the leases that have run out.
pub open spec fn expired_lease_ips(m: Map<u64, LeaseView>, now: i64) -> Set<u32> {
    Set::new(
        |ip: u32|
            exists|k: u64| #[trigger]
                m.contains_key(k) && m[k].expires_at <= now && m[k].ip == ip,
    )
}

/// The offers that still stand.
pub open spec fn live_offers(m: Map<u32, Offer>, now: i64) -> Map<u32, Offer> {
    Map::new(|k: u32| m.contains_key(k) && m[k].expires_at > now, |k: u32| m[k])
}

/// The addresses of the offers that no longer stand.
pub open spec fn expired_offers(m: Map<u32, Offer>, now: i64) -> Set<u32> {
    Set::new(|ip: u32| m.contains_key(ip) && m[ip].expires_at <= now)
}

/// The addresses that are still kept back.
pub open spec fn live_declined(m: Map<u32, i64>, now: i64) -> Map<u32, i64> {
    Map::new(|k: u32| m.contains_key(k) && m[k] > now, |k: u32| m[k])
}

/// The addresses that are no longer kept back.
pub open spec fn expired_declined(m: Map<u32, i64>, now: i64) -> Set<u32> {
    Set::new(|ip: u32| m.contains_key(ip) && m[ip] <= now)
}

/// The state after everything that ran out by `now` is gone: leases, offers and declined
/// addresses, and the address of each is free again.
pub open spec fn reclaimed(v: ServerView, now: i64) -> ServerView {
    ServerView {
        leases: live_leases(v.leases, now),
        offered: live_offers(v.offered, now),
        declined: live_declined(v.declined, now),
        allocated: v.allocated.difference(expired_lease_ips(v.leases, now)).difference(
            expired_offers(v.offered, now),
        ).difference(expired_declined(v.declined, now)),
        ..v
    }
}

impl DhcpServer {
    /// Drops the leases that have run out.
    fn reclaim_leases(&mut self, now: i64)
        ensures
            final(self)@ == (ServerView {
                leases: live_leases(old(self)@.leases, now),
                allocated: old(self)@.allocated.difference(
                    expired_lease_ips(old(self)@.leases, now),
                ),
                ..old(self)@
            }),
            final(self).config == old(self).config,
    {
        let keys = tables::keys_of(&self.leases);
        let ghost pre = self.leases@;
        let ghost taken = self.pool.allocated@;
        let mut i: usize = 0;
        while i < keys.len()
            invariant
                i <= keys@.len(),
                keys@.no_duplicates(),
                pre == old(self).leases@,
                taken == old(self).pool.allocated@,
                self.config == old(self).config,
                self.offered == old(self).offered,
                self.declined == old(self).declined,
                self.pool.start == old(self).pool.start,
                self.pool.end == old(self).pool.end,
                forall|k: u64| #[trigger] pre.contains_key(k) <==> keys@.contains(k),
                forall|k: u64| #[trigger]
                    self.leases@.contains_key(k) <==> pre.contains_key(k) && !(
                    pre[k].expires_at <= now && keys@.subrange(0, i as int).contains(k)),
                forall|k: u64| #[trigger]
                    self.leases@.contains_key(k) ==> self.leases@[k] == pre[k],
                forall|ip: u32| #[trigger]
                    self.pool.allocated@.contains(ip) <==> taken.contains(ip) && !(exists|j: int|
                        0 <= j < i && pre[#[trigger] keys@[j]].expires_at <= now
                            && pre[keys@[j]].ip == ip),
            decreases keys@.len() - i,
        {
            let k: u64 = keys[i];
            let ghost seen = keys@.subrange(0, i as int);
            let ghost next = keys@.subrange(0, i + 1);
            proof {
                assert(next =~= seen.push(k));
                assert(keys@.contains(keys@[i as int]));
                assert(!seen.contains(k)) by {
                    if seen.contains(k) {
                        let j = choose|j: int| 0 <= j < seen.len() && seen[j] == k;
                        assert(keys@[j] == keys@[i as int]);
                    }
                }
                assert forall|x: u64| next.contains(x) <==> seen.contains(x) || x == k by {
                    if seen.contains(x) {
                        let j = choose|j: int| 0 <= j < seen.len() && seen[j] == x;
                        assert(next[j] == x);
                    }
                    if x == k {
                        assert(next[i as int] == k);
                    }
                    if next.contains(x) {
                        let j = choose|j: int| 0 <= j < next.len() && next[j] == x;
                        if j < i {
                            assert(seen[j] == x);
                        }
                    }
                }
            }
            let gone: Option<u32> = match self.leases.get(&k) {
                Some(l) => {
                    if l.expires_at <= now {
                        Some(l.ip)
                    } else {
                        None
                    }
                },
                None => None,
            };
            let ghost was = self.pool.allocated@;
            match gone {
                Some(ip) => {
                    self.leases.remove(&k);
                    self.pool.release(ip);
                },
                None => {},
            }
            proof {
                assert(pre.contains_key(k));
                assert forall|ip: u32| #[trigger] self.pool.allocated@.contains(ip) <==> taken.contains(
                    ip,
                ) && !(exists|j: int|
                    0 <= j < i + 1 && pre[#[trigger] keys@[j]].expires_at <= now && pre[keys@[j]].ip
                        == ip) by {
                    if pre[k].expires_at <= now && pre[k].ip == ip {
                        assert(pre[keys@[i as int]].ip == ip);
                    }
                    assert(was.contains(ip) <==> taken.contains(ip) && !(exists|j: int|
                        0 <= j < i && pre[#[trigger] keys@[j]].expires_at <= now
                            && pre[keys@[j]].ip == ip));
                }
            }
            i += 1;
        }
        proof {
            assert(keys@.subrange(0, keys@.len() as int) =~= keys@);
            let a = old(self)@;
            assert(self@.leases =~= live_leases(a.leases, now)) by {
                assert forall|k: u64| #[trigger] self@.leases.contains_key(k) <==> live_leases(
                    a.leases,
                    now,
                ).contains_key(k) by {
                    assert(self.leases@.contains_key(k) <==> pre.contains_key(k) && !(
                    pre[k].expires_at <= now && keys@.contains(k)));
                    assert(pre.contains_key(k) <==> keys@.contains(k));
                }
            }
            assert(self@.allocated =~= a.allocated.difference(expired_lease_ips(a.leases, now)))
                by {
                assert forall|ip: u32| self@.allocated.contains(ip) <==> a.allocated.difference(
                    expired_lease_ips(a.leases, now),
                ).contains(ip) by {
                    if exists|j: int|
                        0 <= j < keys@.len() && pre[#[trigger] keys@[j]].expires_at <= now
                            && pre[keys@[j]].ip == ip {
                        let j = choose|j: int|
                            0 <= j < keys@.len() && pre[#[trigger] keys@[j]].expires_at <= now
                                && pre[keys@[j]].ip == ip;
                        assert(keys@.contains(keys@[j]));
                        assert(pre.contains_key(keys@[j]));
                        assert(a.leases.contains_key(keys@[j]));
                    }
                    if expired_lease_ips(a.leases, now).contains(ip) {
                        let k = choose|k: u64| #[trigger]
                            a.leases.contains_key(k) && a.leases[k].expires_at <= now
                                && a.leases[k].ip == ip;
                        assert(pre.contains_key(k));
                        let j = choose|j: int| 0 <= j < keys@.len() && keys@[j] == k;
                        assert(pre[keys@[j]].ip == ip);
                    }
                    assert(self.pool.allocated@.contains(ip) <==> taken.contains(ip) && !(exists|j: int|
                        0 <= j < keys@.len() && pre[#[trigger] keys@[j]].expires_at <= now
                            && pre[keys@[j]].ip == ip));
                }
            }
            assert(self@ =~= (ServerView {
                leases: live_leases(a.leases, now),
                allocated: a.allocated.difference(expired_lease_ips(a.leases, now)),
                ..a
            }));
        }
    }
}

pub proof fn lemma_push_contains(s: Seq<u32>, k: u32)
    ensures
        forall|x: u32| #[trigger] s.push(k).contains(x) <==> s.contains(x) || x == k,
{
    assert forall|x: u32| #[trigger] s.push(k).contains(x) <==> s.contains(x) || x == k by {
        if s.contains(x) {
            let j = choose|j: int| 0 <= j < s.len() && s[j] == x;
            assert(s.push(k)[j] == x);
        }
        if x == k {
            assert(s.push(k)[s.len() as int] == x);
        }
        if s.push(k).contains(x) {
            let j = choose|j: int| 0 <= j < s.push(k).len() && s.push(k)[j] == x;
            if j < s.len() {
                assert(s[j] == x);
            }
        }
    }
}

impl DhcpServer {
    /// Drops the offers that no longer stand.
    fn reclaim_offers(&mut self, now: i64)
        ensures
            final(self)@ == (ServerView {
                offered: live_offers(old(self)@.offered, now),
                allocated: old(self)@.allocated.difference(
                    expired_offers(old(self)@.offered, now),
                ),
                ..old(self)@
            }),
            final(self).config == old(self).config,
    {
        let keys = tables::keys_of(&self.offered);
        let ghost pre = self.offered@;
        let ghost taken = self.pool.allocated@;
        let mut i: usize = 0;
        while i < keys.len()
            invariant
                i <= keys@.len(),
                keys@.no_duplicates(),
                pre == old(self).offered@,
                taken == old(self).pool.allocated@,
                self.config == old(self).config,
                self.leases == old(self).leases,
                self.declined == old(self).declined,
                self.pool.start == old(self).pool.start,
                self.pool.end == old(self).pool.end,
                forall|k: u32| #[trigger] pre.contains_key(k) <==> keys@.contains(k),
                forall|k: u32| #[trigger]
                    self.offered@.contains_key(k) <==> pre.contains_key(k) && !(pre[k].expires_at
                        <= now && keys@.subrange(0, i as int).contains(k)),
                forall|k: u32| #[trigger]
                    self.offered@.contains_key(k) ==> self.offered@[k] == pre[k],
                forall|ip: u32| #[trigger]
                    self.pool.allocated@.contains(ip) <==> taken.contains(ip) && !(
                    pre.contains_key(ip) && pre[ip].expires_at <= now && keys@.subrange(0, i as int).contains(ip)),
            decreases keys@.len() - i,
        {
            let k: u32 = keys[i];
            let ghost seen = keys@.subrange(0, i as int);
            let ghost next = keys@.subrange(0, i + 1);
            proof {
                assert(next =~= seen.push(k));
                assert(keys@.contains(keys@[i as int]));
                lemma_push_contains(seen, k);
                assert(!seen.contains(k)) by {
                    if seen.contains(k) {
                        let j = choose|j: int| 0 <= j < seen.len() && seen[j] == k;
                        assert(keys@[j] == keys@[i as int]);
                    }
                }
            }
            let gone: bool = match self.offered.get(&k) {
                Some(x) => x.expires_at <= now,
                None => false,
            };
            if gone {
                self.offered.remove(&k);
                self.pool.release(k);
            }
            i += 1;
        }
        proof {
            assert(keys@.subrange(0, keys@.len() as int) =~= keys@);
            let a = old(self)@;
            assert(self@.offered =~= live_offers(a.offered, now));
            assert(self@.allocated =~= a.allocated.difference(expired_offers(a.offered, now)));
            assert(self@.leases =~= a.leases);
        }
    }

    /// Lets go of the declined addresses that were kept back long enough.
    fn reclaim_declined(&mut self, now: i64)
        ensures
            final(self)@ == (ServerView {
                declined: live_declined(old(self)@.declined, now),
                allocated: old(self)@.allocated.difference(
                    expired_declined(old(self)@.declined, now),
                ),
                ..old(self)@
            }),
            final(self).config == old(self).config,
    {
        let keys = tables::keys_of(&self.declined);
        let ghost pre = self.declined@;
        let ghost taken = self.pool.allocated@;
        let mut i: usize = 0;
        while i < keys.len()
            invariant
                i <= keys@.len(),
                keys@.no_duplicates(),
                pre == old(self).declined@,
                taken == old(self).pool.allocated@,
                self.config == old(self).config,
                self.leases == old(self).leases,
                self.offered == old(self).offered,
                self.pool.start == old(self).pool.start,
                self.pool.end == old(self).pool.end,
                forall|k: u32| #[trigger] pre.contains_key(k) <==> keys@.contains(k),
                forall|k: u32| #[trigger]
                    self.declined@.contains_key(k) <==> pre.contains_key(k) && !(pre[k]
                        <= now && keys@.subrange(0, i as int).contains(k)),
                forall|k: u32| #[trigger]
                    self.declined@.contains_key(k) ==> self.declined@[k] == pre[k],
                forall|ip: u32| #[trigger]
                    self.pool.allocated@.contains(ip) <==> taken.contains(ip) && !(
                    pre.contains_key(ip) && pre[ip] <= now && keys@.subrange(0, i as int).contains(ip)),
            decreases keys@.len() - i,
        {
            let k: u32 = keys[i];
            let ghost seen = keys@.subrange(0, i as int);
            let ghost next = keys@.subrange(0, i + 1);
            proof {
                assert(next =~= seen.push(k));
                assert(keys@.contains(keys@[i as int]));
                lemma_push_contains(seen, k);
                assert(!seen.contains(k)) by {
                    if seen.contains(k) {
                        let j = choose|j: int| 0 <= j < seen.len() && seen[j] == k;
                        assert(keys@[j] == keys@[i as int]);
                    }
                }
            }
            let gone: bool = match self.declined.get(&k) {
                Some(x) => *x <= now,
                None => false,
            };
            if gone {
                self.declined.remove(&k);
                self.pool.release(k);
            }
            i += 1;
        }
        proof {
            assert(keys@.subrange(0, keys@.len() as int) =~= keys@);
            let a = old(self)@;
            assert(self@.declined =~= live_declined(a.declined, now));
            assert(self@.allocated =~= a.allocated.difference(expired_declined(a.declined, now)));
            assert(self@.leases =~= a.leases);
        }
    }

    /// Drops what ran out by `now`: leases, offers and declined addresses. The address of each is
    /// free again.
    pub fn reclaim_expired_at(&mut self, now: i64)
        ensures
            final(self)@ == reclaimed(old(self)@, now),
            final(self).config == old(self).config,
            old(self)@.well_formed() ==> final(self)@.well_formed(),
    {
        self.reclaim_leases(now);
        self.reclaim_offers(now);
        self.reclaim_declined(now);
    }

    /// Drops what has run out by the time that the clock shows.
    pub fn reclaim_expired(&mut self)
        ensures
            exists|now: i64|
                clock::is_timestamp(now as int) && final(self)@ == #[trigger] reclaimed(
                    old(self)@,
                    now,
                ),
            final(self).config == old(self).config,
            old(self)@.well_formed() ==> final(self)@.well_formed(),
    {
        let now: i64 = clock::unix_now();
        self.reclaim_expired_at(now);
    }

    /// The leases that have not run out by `now`, each client's once; what ran out is dropped.
    pub fn get_leases_at(&mut self, now: i64) -> (r: Vec<Lease>)
        ensures
            final(self)@ == reclaimed(old(self)@, now),
            final(self).config == old(self).config,
            r@.len() == final(self)@.leases.dom().len(),
            forall|i: int| 0 <= i < r@.len() ==> final(self)@.holds((#[trigger] r@[i])@),
            forall|k: u64| #[trigger]
                final(self)@.leases.contains_key(k) ==> listed(r@, final(self)@.leases[k]),
    {
        self.reclaim_expired_at(now);
        let keys = tables::keys_of(&self.leases);
        let mut out: Vec<Lease> = Vec::new();
        let mut i: usize = 0;
        while i < keys.len()
            invariant
                i <= keys@.len(),
                out@.len() == i,
                forall|k: u64| #[trigger] self.leases@.contains_key(k) <==> keys@.contains(k),
                forall|j: int|
                    0 <= j < i ==> (#[trigger] out@[j])@ == self.leases@[keys@[j]]@,
            decreases keys@.len() - i,
        {
            let k: u64 = keys[i];
            assert(self.leases@.contains_key(k)) by {
                assert(keys@.contains(keys@[i as int]));
            }
            match self.leases.get(&k) {
                Some(l) => {
                    out.push(l.copy());
                },
                None => {},
            }
            i += 1;
        }
        proof {
            assert(keys@.to_set() =~= self@.leases.dom());
            keys@.unique_seq_to_set();
            assert forall|i: int| 0 <= i < out@.len() implies self@.holds((#[trigger] out@[i])@) by {
                assert(keys@.contains(keys@[i]));
                assert(self@.leases.contains_key(keys@[i]));
            }
            assert forall|k: u64| #[trigger] self@.leases.contains_key(k) implies listed(
                out@,
                self@.leases[k],
            ) by {
                assert(self.leases@.contains_key(k));
                let j = choose|j: int| 0 <= j < keys@.len() && keys@[j] == k;
                assert(out@[j]@ == self@.leases[k]);
            }
        }
        out
    }

    /// How many leases have not run out by `now`; what ran out is dropped.
    pub fn get_lease_count_at(&mut self, now: i64) -> (r: usize)
        ensures
            final(self)@ == reclaimed(old(self)@, now),
            final(self).config == old(self).config,
            r == final(self)@.leases.dom().len(),
    {
        self.reclaim_expired_at(now);
        proof {
            assert(self@.leases.dom() =~= self.leases@.dom());
        }
        self.leases.len()
    }
}

/// The leases that have not run out by the time that the clock shows.
pub fn get_leases(server: &mut DhcpServer) -> (r: Vec<Lease>)
    ensures
        exists|now: i64|
            clock::is_timestamp(now as int) && final(server)@ == #[trigger] reclaimed(
                old(server)@,
                now,
            ),
        final(server).config == old(server).config,
        r@.len() == final(server)@.leases.dom().len(),
        forall|i: int| 0 <= i < r@.len() ==> final(server)@.holds((#[trigger] r@[i])@),
        forall|k: u64| #[trigger]
            final(server)@.leases.contains_key(k) ==> listed(r@, final(server)@.leases[k]),
{
    let now: i64 = clock::unix_now();
    server.get_leases_at(now)
}

/// How many leases have not run out by the time that the clock shows.
pub fn get_lease_count(server: &mut DhcpServer) -> (r: usize)
    ensures
        exists|now: i64|
            clock::is_timestamp(now as int) && final(server)@ == #[trigger] reclaimed(
                old(server)@,
                now,
            ),
        final(server).config == old(server).config,
        r == final(server)@.leases.dom().len(),
{
    let now: i64 = clock::unix_now();
    server.get_lease_count_at(now)
}

} // verus!
