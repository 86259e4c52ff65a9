//! The leases that are kept on disk, and the start of the server with them.

use crate::config::DhcpConfig;
use crate::dhcp::mac::{mac_of_text, MacAddr};
use crate::dhcp::pool::IpPool;
use crate::dhcp::server::{
    lease_views, DhcpServer, Lease, LeaseView, ServerView, DEFAULT_POOL_END, DEFAULT_POOL_START,
};
use crate::tables;
use std::collections::HashMap;
use vstd::prelude::*;

verus! {

broadcast use {vstd::std_specs::hash::group_hash_axioms, vstd::string::group_string_axioms};

/// A lease as it is kept on disk: the hardware address as text, and no name as the empty text.
#[derive(Debug, Clone)]
pub struct LeaseRow {
    pub mac: String,
    pub ip: u32,
    pub hostname: String,
    pub expires_at: i64,
}

/// The contents of a `LeaseRow`.
pub struct RowView {
    pub mac: Seq<char>,
    pub ip: u32,
    pub hostname: Seq<char>,
    pub expires_at: i64,
}

impl View for LeaseRow {
    type V = RowView;

    open spec fn view(&self) -> RowView {
        RowView {
            mac: self.mac@,
            ip: self.ip,
            hostname: self.hostname@,
            expires_at: self.expires_at,
        }
    }
}

/// The contents of each row.
pub open spec fn row_views(rows: Seq<LeaseRow>) -> Seq<RowView> {
    rows.map_values(|r: LeaseRow| r@)
}

/// The lease of a row; none where it has run out, lies outside the pool, or has no readable
/// hardware address.
pub open spec fn row_lease(row: RowView, start: u32, end: u32, now: i64) -> Option<LeaseView> {
    if row.expires_at <= now || row.ip < start || row.ip > end {
        None
    } else {
        match mac_of_text(row.mac) {
            None => None,
            Some(mac) => Some(
                LeaseView {
                    ip: row.ip,
                    mac,
                    hostname: if row.hostname.len() == 0 {
                        None
                    } else {
                        Some(row.hostname)
                    },
                    expires_at: row.expires_at,
                },
            ),
        }
    }
}

/// The leases of the rows, by client; of two rows of one client the later counts.
pub open spec fn loaded(rows: Seq<RowView>, start: u32, end: u32, now: i64) -> Map<u64, LeaseView>
    decreases rows.len(),
{
    if rows.len() == 0 {
        Map::empty()
    } else {
        let before = loaded(rows.drop_last(), start, end, now);
        match row_lease(rows.last(), start, end, now) {
            Some(l) => before.insert(l.mac.number(), l),
            None => before,
        }
    }
}

/// Reads the leases from the rows.
pub fn load_persisted_leases(rows: &Vec<LeaseRow>, start: u32, end: u32, now: i64) -> (r: HashMap<
    u64,
    Lease,
>)
    ensures
        lease_views(r@) == loaded(row_views(rows@), start, end, now),
{
    let mut out: HashMap<u64, Lease> = HashMap::new();
    let ghost all = row_views(rows@);
    let mut i: usize = 0;
    assert(lease_views(out@) =~= Map::empty());
    while i < rows.len()
        invariant
            i <= rows@.len(),
            all == row_views(rows@),
            lease_views(out@) == loaded(all.subrange(0, i as int), start, end, now),
        decreases rows@.len() - i,
    {
        let row = &rows[i];
        proof {
            let longer = all.subrange(0, i + 1);
            assert(longer.drop_last() =~= all.subrange(0, i as int));
            assert(longer.last() == row@);
        }
        if row.expires_at > now && row.ip >= start && row.ip <= end {
            match MacAddr::from_text(row.mac.as_str()) {
                Some(mac) => {
                    let hostname: Option<String> = if row.hostname.as_str().is_empty() {
                        None
                    } else {
                        Some(row.hostname.clone())
                    };
                    let lease = Lease { ip: row.ip, mac, hostname, expires_at: row.expires_at };
                    let ghost before = out@;
                    out.insert(mac.key(), lease);
                    proof {
                        assert(lease_views(out@) =~= lease_views(before).insert(
                            mac.number(),
                            lease@,
                        ));
                    }
                },
                None => {},
            }
        }
        i += 1;
    }
    assert(all.subrange(0, all.len() as int) =~= all);
    out
}

/// The addresses of leases.
pub open spec fn leased_ips(m: Map<u64, LeaseView>) -> Set<u32> {
    Set::new(|ip: u32| exists|k: u64| #[trigger] m.contains_key(k) && m[k].ip == ip)
}

/// The state of a server that starts with the given leases.
pub open spec fn initial(c: DhcpConfig, rows: Seq<RowView>, now: i64) -> ServerView {
    let start = match c.pool_start {
        Some(s) => s,
        None => DEFAULT_POOL_START,
    };
    let end = match c.pool_end {
        Some(e) => e,
        None => DEFAULT_POOL_END,
    };
    let leases = loaded(rows, start, end, now);
    ServerView {
        leases,
        start,
        end,
        allocated: leased_ips(leases),
        offered: Map::empty(),
        declined: Map::empty(),
    }
}

proof fn lemma_loaded(rows: Seq<RowView>, start: u32, end: u32, now: i64)
    ensures
        forall|k: u64| #[trigger]
            loaded(rows, start, end, now).contains_key(k) ==> {
                let l = loaded(rows, start, end, now)[k];
                l.mac.number() == k && start <= l.ip <= end && l.expires_at > now
            },
    decreases rows.len(),
{
    if rows.len() > 0 {
        lemma_loaded(rows.drop_last(), start, end, now);
    }
}

impl DhcpServer {
    /// The server at its start: the leases on disk that still hold are taken, and nothing is
    /// offered or declined.
    pub fn start_with(config: DhcpConfig, rows: &Vec<LeaseRow>, now: i64) -> (r: DhcpServer)
        ensures
            r@ == initial(config, row_views(rows@), now),
            r.config == config,
            r@.well_formed(),
    {
        let start: u32 = match config.pool_start {
            Some(s) => s,
            None => DEFAULT_POOL_START,
        };
        let end: u32 = match config.pool_end {
            Some(e) => e,
            None => DEFAULT_POOL_END,
        };
        let leases = load_persisted_leases(rows, start, end, now);
        proof {
            lemma_loaded(row_views(rows@), start, end, now);
        }
        let mut pool = IpPool::new(start, end);
        let keys = tables::keys_of(&leases);
        let ghost views = lease_views(leases@);
        let mut i: usize = 0;
        while i < keys.len()
            invariant
                i <= keys@.len(),
                pool.start == start,
                pool.end == end,
                views == lease_views(leases@),
                forall|k: u64| #[trigger] leases@.contains_key(k) <==> keys@.contains(k),
                forall|k: u64| #[trigger]
                    views.contains_key(k) ==> start <= views[k].ip <= end,
                forall|ip: u32| #[trigger]
                    pool.allocated@.contains(ip) <==> exists|j: int|
                        0 <= j < i && leases@[#[trigger] keys@[j]].ip == ip,
            decreases keys@.len() - i,
        {
            let k: u64 = keys[i];
            assert(leases@.contains_key(k)) by {
                assert(keys@.contains(keys@[i as int]));
            }
            let ghost before = pool.allocated@;
            match leases.get(&k) {
                Some(l) => {
                    assert(views.contains_key(k));
                    pool.mark_allocated(l.ip);
                },
                None => {},
            }
            assert forall|ip: u32| #[trigger] pool.allocated@.contains(ip) <==> exists|j: int|
                0 <= j < i + 1 && leases@[#[trigger] keys@[j]].ip == ip by {
                if leases@[keys@[i as int]].ip == ip {
                    assert(pool.allocated@.contains(ip));
                }
                assert(before.contains(ip) <==> exists|j: int|
                    0 <= j < i && leases@[#[trigger] keys@[j]].ip == ip);
            }
            i += 1;
        }
        proof {
            assert(pool.allocated@ =~= leased_ips(views)) by {
                assert forall|ip: u32| pool.allocated@.contains(ip) <==> leased_ips(
                    views,
                ).contains(ip) by {
                    if pool.allocated@.contains(ip) {
                        let j = choose|j: int|
                            0 <= j < keys@.len() && leases@[#[trigger] keys@[j]].ip == ip;
                        assert(keys@.contains(keys@[j]));
                        assert(views.contains_key(keys@[j]));
                    }
                    if leased_ips(views).contains(ip) {
                        let k = choose|k: u64| #[trigger] views.contains_key(k) && views[k].ip == ip;
                        assert(leases@.contains_key(k));
                        let j = choose|j: int| 0 <= j < keys@.len() && keys@[j] == k;
                        assert(leases@[keys@[j]].ip == ip);
                    }
                }
            }
        }
        let r = DhcpServer {
            config,
            leases,
            pool,
            offered: HashMap::new(),
            declined: HashMap::new(),
        };
        assert(r@ =~= initial(config, row_views(rows@), now));
        r
    }
}

/// The leases on disk that still hold are taken up: of each client whose last row has not run out and
/// lies in the pool, with its address, its name and its end. A name without characters is no name.
pub proof fn law_last_row_of_a_client_counts(
    rows: Seq<RowView>,
    start: u32,
    end: u32,
    now: i64,
    i: int,
    mac: MacAddr,
)
    requires
        0 <= i < rows.len(),
        mac_of_text(rows[i].mac) == Some(mac),
        rows[i].expires_at > now,
        start <= rows[i].ip <= end,
        forall|j: int| i < j < rows.len() ==> mac_of_text((#[trigger] rows[j]).mac) != Some(mac),
    ensures
        ({
            let m = loaded(rows, start, end, now);
            let l = m[mac.number()];
            &&& m.contains_key(mac.number())
            &&& l.ip == rows[i].ip && l.mac == mac && l.expires_at == rows[i].expires_at
            &&& rows[i].hostname.len() > 0 ==> l.hostname == Some(rows[i].hostname)
            &&& rows[i].hostname.len() == 0 ==> l.hostname is None
        }),
    decreases rows.len(),
{
    if i < rows.len() - 1 {
        let shorter = rows.drop_last();
        assert(shorter[i] == rows[i]);
        assert forall|j: int| i < j < shorter.len() implies mac_of_text((#[trigger] shorter[j]).mac)
            != Some(mac) by {
            assert(shorter[j] == rows[j]);
        }
        law_last_row_of_a_client_counts(shorter, start, end, now, i, mac);
        assert(rows[rows.len() - 1] == rows.last());
        match row_lease(rows.last(), start, end, now) {
            Some(l) => {
                if l.mac.number() == mac.number() {
                    crate::dhcp::mac::lemma_number_injective(l.mac, mac);
                }
            },
            None => {},
        }
    }
}

/// A server starts with the pool that is configured, 192.168.1.100 to 192.168.1.200 where none is. Every
/// lease that it takes up has not run out, lies in the pool and comes from a row on disk; just the
/// addresses of these leases are taken; nothing is offered, and nothing is kept back.
pub proof fn law_server_starts_with_what_lasts(
    c: DhcpConfig,
    rows: Seq<RowView>,
    now: i64,
    k: u64,
    ip: u32,
)
    ensures
        ({
            let v = initial(c, rows, now);
            let l = v.leases[k];
            &&& v.start == (if c.pool_start is Some {
                c.pool_start->0
            } else {
                0xc0a8_0164
            })
            &&& v.end == (if c.pool_end is Some {
                c.pool_end->0
            } else {
                0xc0a8_01c8
            })
            &&& v.leases.contains_key(k) ==> l.expires_at > now && v.start <= l.ip <= v.end && exists|
                i: int,
            |
                0 <= i < rows.len() && (#[trigger] rows[i]).ip == l.ip && rows[i].expires_at
                    == l.expires_at && mac_of_text(rows[i].mac) == Some(l.mac)
            &&& v.allocated.contains(ip) <==> exists|j: u64| #[trigger]
                v.leases.contains_key(j) && v.leases[j].ip == ip
            &&& v.offered == Map::<u32, crate::dhcp::server::Offer>::empty()
            &&& v.declined == Map::<u32, i64>::empty()
        }),
{
    let v = initial(c, rows, now);
    lemma_loaded(rows, v.start, v.end, now);
    if v.leases.contains_key(k) {
        lemma_from_a_row(rows, v.start, v.end, now, k);
    }
}

proof fn lemma_from_a_row(rows: Seq<RowView>, start: u32, end: u32, now: i64, k: u64)
    requires
        loaded(rows, start, end, now).contains_key(k),
    ensures
        ({
            let l = loaded(rows, start, end, now)[k];
            exists|i: int|
                0 <= i < rows.len() && (#[trigger] rows[i]).ip == l.ip && rows[i].expires_at
                    == l.expires_at && mac_of_text(rows[i].mac) == Some(l.mac)
        }),
    decreases rows.len(),
{
    let shorter = rows.drop_last();
    let l = loaded(rows, start, end, now)[k];
    let fresh = row_lease(rows.last(), start, end, now) matches Some(x) && x.mac.number() == k;
    if fresh {
        assert(rows[rows.len() - 1] == rows.last());
    } else {
        lemma_from_a_row(shorter, start, end, now, k);
        let i = choose|i: int|
            0 <= i < shorter.len() && (#[trigger] shorter[i]).ip == l.ip && shorter[i].expires_at
                == l.expires_at && mac_of_text(shorter[i].mac) == Some(l.mac);
        assert(rows[i] == shorter[i]);
    }
}

} // verus!
