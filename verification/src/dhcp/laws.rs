//! What holds of the DHCP server across its operations.

use crate::config::DhcpConfig;
use crate::dhcp::exchange::{
    datagram_outcome, decline_outcome, discover_outcome, granting_reply, message_in, message_outcome, named_ip,
    release_outcome, request_outcome, requested_lease, sender, HandledDatagram, HandledView, StoreView,
};
use crate::dhcp::mac::{law_mac_round_trip, lemma_number_injective, mac_text, MacAddr};
use crate::dhcp::server::{
    expired_declined, expired_lease_ips, expired_offers, live_declined, reclaimed, with_lease,
    LeaseView, ServerView, BROADCAST, OFFER_TIMEOUT, QUARANTINE,
};
use crate::dhcp::store::{loaded, row_lease, RowView};
use crate::dhcp::wire::{
    decoded_packet, encoded_grant, encoded_refusal, encoded_reply, options_fit, PacketView, ReplyView,
    ACK, NAK, OFFER,
};
use vstd::prelude::*;

verus! {

/// No address has two holders at the time `t`.
pub open spec fn exclusive(m: Map<u64, LeaseView>, t: i64) -> bool {
    forall|j: u64, k: u64|
        #![trigger m[j], m[k]]
        m.contains_key(j) && m.contains_key(k) && j != k && m[j].expires_at > t && m[k].expires_at
            > t ==> m[j].ip != m[k].ip
}

/// Every address that is leased or offered is marked as taken.
pub open spec fn marked_addresses(v: ServerView) -> bool {
    &&& forall|k: u64| #[trigger]
        v.leases.contains_key(k) ==> v.allocated.contains(v.leases[k].ip)
    &&& forall|ip: u32| #[trigger] v.offered.contains_key(ip) ==> v.allocated.contains(ip)
}

/// A lease that is committed keeps every address with one holder, at that time and later.
pub proof fn law_commit_keeps_one_holder(v: ServerView, lease: LeaseView, now: i64, t: i64)
    requires
        exclusive(v.leases, now),
        !v.conflict(lease.mac, lease.ip, now),
        now <= t,
    ensures
        exclusive(with_lease(v, lease).leases, t),
{
    let m = with_lease(v, lease).leases;
    let own = lease.mac.number();
    assert forall|j: u64, k: u64|
        #![trigger m[j], m[k]]
        m.contains_key(j) && m.contains_key(k) && j != k && m[j].expires_at > t && m[k].expires_at
            > t implies m[j].ip != m[k].ip by {
        if j != own && k != own {
            assert(v.leases[j].ip != v.leases[k].ip);
        } else if j == own {
            assert(v.leases.contains_key(k));
        } else {
            assert(v.leases.contains_key(j));
        }
    }
}

/// Until a lease runs out, no other client can have its address.
pub proof fn law_holder_keeps_address(v: ServerView, lease: LeaseView, other: MacAddr, t: i64)
    requires
        other != lease.mac,
        t < lease.expires_at,
    ensures
        with_lease(v, lease).conflict(other, lease.ip, t),
{
    if other.number() == lease.mac.number() {
        lemma_number_injective(other, lease.mac);
    }
    assert(with_lease(v, lease).leases.contains_key(lease.mac.number()));
}

/// A client whose lease has not run out can always renew it.
pub proof fn law_holder_can_renew(v: ServerView, mac: MacAddr, now: i64)
    requires
        exclusive(v.leases, now),
        v.leases.contains_key(mac.number()),
        v.leases[mac.number()].expires_at > now,
    ensures
        !v.conflict(mac, v.leases[mac.number()].ip, now),
{
    let own = v.leases[mac.number()];
    assert forall|k: u64| #[trigger] v.leases.contains_key(k) implies !(v.leases[k].ip == own.ip && k
        != mac.number() && v.leases[k].expires_at > now) by {
        assert(v.leases[k] == v.leases[k]);
        assert(v.leases[mac.number()] == own);
    }
}

/// After a reclaim nothing is left that had run out, and a second reclaim at the same time
/// changes nothing.
pub proof fn law_reclaim_leaves_nothing_expired(v: ServerView, now: i64)
    ensures
        forall|k: u64| #[trigger]
            reclaimed(v, now).leases.contains_key(k) ==> reclaimed(v, now).leases[k].expires_at
                > now,
        forall|ip: u32| #[trigger]
            reclaimed(v, now).offered.contains_key(ip) ==> reclaimed(v, now).offered[ip].expires_at
                > now,
        forall|ip: u32| #[trigger]
            reclaimed(v, now).declined.contains_key(ip) ==> reclaimed(v, now).declined[ip] > now,
        reclaimed(reclaimed(v, now), now) == reclaimed(v, now),
{
    let once = reclaimed(v, now);
    let twice = reclaimed(once, now);
    assert(twice.leases =~= once.leases);
    assert(twice.offered =~= once.offered);
    assert(twice.declined =~= once.declined);
    assert(twice.allocated =~= once.allocated);
}

/// A reclaim keeps what has not run out: each lease, offer and declined address as it was.
pub proof fn law_reclaim_keeps_the_rest(v: ServerView, now: i64)
    ensures
        forall|k: u64| #[trigger]
            v.leases.contains_key(k) && v.leases[k].expires_at > now ==> reclaimed(
                v,
                now,
            ).leases.contains_key(k) && reclaimed(v, now).leases[k] == v.leases[k],
        forall|ip: u32| #[trigger]
            v.offered.contains_key(ip) && v.offered[ip].expires_at > now ==> reclaimed(
                v,
                now,
            ).offered.contains_key(ip) && reclaimed(v, now).offered[ip] == v.offered[ip],
        forall|ip: u32| #[trigger]
            v.declined.contains_key(ip) && v.declined[ip] > now ==> reclaimed(
                v,
                now,
            ).declined.contains_key(ip) && reclaimed(v, now).declined[ip] == v.declined[ip],
{
}

/// After a reclaim, the address of anything that had run out is free, if it lies in the pool and
/// is not kept back.
pub proof fn law_reclaim_frees_addresses(v: ServerView, now: i64, ip: u32)
    requires
        expired_lease_ips(v.leases, now).contains(ip) || expired_offers(v.offered, now).contains(ip)
            || expired_declined(v.declined, now).contains(ip),
        v.in_pool(ip),
        !live_declined(v.declined, now).contains_key(ip),
    ensures
        reclaimed(v, now).free(ip),
{
}

/// While an offer stands, a client that asks again is offered the same address.
pub proof fn law_offer_is_repeated(
    a: ServerView,
    mac: MacAddr,
    now: i64,
    b: ServerView,
    first: Option<u32>,
    later: i64,
    c: ServerView,
    second: Option<u32>,
)
    requires
        discover_outcome(a, mac, now, b, first),
        !a.leases.contains_key(mac.number()),
        !(exists|ip: u32| a.live_offer(mac, now, ip)),
        first is Some,
        now + OFFER_TIMEOUT <= i64::MAX,
        now <= later < now + OFFER_TIMEOUT,
        discover_outcome(b, mac, later, c, second),
    ensures
        second == first,
{
    assert(b.live_offer(mac, later, first->0));
    let ip = second->0;
    assert(b.live_offer(mac, later, ip));
    if ip != first->0 {
        assert(a.live_offer(mac, now, ip));
    }
}

/// A client that comes without lease and offer is offered an address that nobody has leased or
/// been offered, and that is not kept back.
pub proof fn law_new_offer_is_unused(
    a: ServerView,
    mac: MacAddr,
    now: i64,
    b: ServerView,
    r: Option<u32>,
)
    requires
        marked_addresses(a),
        discover_outcome(a, mac, now, b, r),
        !a.leases.contains_key(mac.number()),
        !(exists|ip: u32| a.live_offer(mac, now, ip)),
        r is Some,
    ensures
        a.in_pool(r->0),
        !a.offered.contains_key(r->0),
        !a.declined.contains_key(r->0),
        forall|k: u64| #[trigger] a.leases.contains_key(k) ==> a.leases[k].ip != r->0,
{
}

/// Every message keeps every address with one holder, at that time and later.
pub proof fn law_messages_keep_one_holder(
    a: ServerView,
    c: DhcpConfig,
    p: PacketView,
    now: i64,
    b: ServerView,
    h: HandledView,
    t: i64,
)
    requires
        exclusive(a.leases, now),
        message_outcome(a, c, p, now, b, h),
        now <= t,
    ensures
        exclusive(b.leases, t),
{
    let m = b.leases;
    assert forall|j: u64, k: u64|
        #![trigger m[j], m[k]]
        m.contains_key(j) && m.contains_key(k) && j != k && m[j].expires_at > t && m[k].expires_at
            > t implies m[j].ip != m[k].ip by {
        let own = sender(p).number();
        if a.leases.contains_key(j) && a.leases.contains_key(k) && m[j] == a.leases[j] && m[k]
            == a.leases[k] {
            assert(a.leases[j].ip != a.leases[k].ip);
        } else if j == own {
            assert(a.leases.contains_key(k));
        } else {
            assert(a.leases.contains_key(j));
        }
    }
}

/// A reclaim keeps every address with one holder.
pub proof fn law_reclaim_keeps_one_holder(v: ServerView, now: i64, t: i64)
    requires
        exclusive(v.leases, t),
    ensures
        exclusive(reclaimed(v, now).leases, t),
{
    let m = reclaimed(v, now).leases;
    assert forall|j: u64, k: u64|
        #![trigger m[j], m[k]]
        m.contains_key(j) && m.contains_key(k) && j != k && m[j].expires_at > t && m[k].expires_at
            > t implies m[j].ip != m[k].ip by {
        assert(v.leases[j].ip != v.leases[k].ip);
    }
}

/// Nothing that lasts is at an address of something that has run out.
pub open spec fn apart(v: ServerView, now: i64) -> bool {
    &&& forall|k: u64| #[trigger]
        v.leases.contains_key(k) && v.leases[k].expires_at > now ==> !expired_lease_ips(
            v.leases,
            now,
        ).contains(v.leases[k].ip) && !expired_offers(v.offered, now).contains(v.leases[k].ip)
            && !expired_declined(v.declined, now).contains(v.leases[k].ip)
    &&& forall|ip: u32| #[trigger]
        v.offered.contains_key(ip) && v.offered[ip].expires_at > now ==> !expired_lease_ips(
            v.leases,
            now,
        ).contains(ip) && !expired_declined(v.declined, now).contains(ip)
}

/// A reclaim keeps every leased or offered address marked as taken, unless something that lasts is
/// at the address of something that has run out.
pub proof fn law_reclaim_keeps_addresses_marked(v: ServerView, now: i64)
    requires
        marked_addresses(v),
        apart(v, now),
    ensures
        marked_addresses(reclaimed(v, now)),
{
    let r = reclaimed(v, now);
    assert forall|k: u64| #[trigger] r.leases.contains_key(k) implies r.allocated.contains(
        r.leases[k].ip,
    ) by {
        assert(v.leases.contains_key(k));
    }
    assert forall|ip: u32| #[trigger] r.offered.contains_key(ip) implies r.allocated.contains(
        ip,
    ) by {
        assert(v.offered.contains_key(ip));
    }
}

/// Offers and grants keep every leased or offered address marked as taken, and so does a client that
/// declines one. So does a release, unless another client has leased or been offered the address.
pub proof fn law_taken_addresses_stay_marked(
    a: ServerView,
    c: DhcpConfig,
    p: PacketView,
    now: i64,
    b: ServerView,
    r: Option<u32>,
)
    requires
        marked_addresses(a),
    ensures
        discover_outcome(a, sender(p), now, b, r) ==> marked_addresses(b),
        marked_addresses(request_outcome(a, c, p, now).0),
        marked_addresses(decline_outcome(a, p, now).0),
        !a.offered.contains_key(p.ciaddr) && (forall|k: u64| #[trigger]
            a.leases.contains_key(k) && k != sender(p).number() ==> a.leases[k].ip != p.ciaddr)
            ==> marked_addresses(release_outcome(a, p).0),
{
    let d = decline_outcome(a, p, now).0;
    assert forall|k: u64| #[trigger] d.leases.contains_key(k) implies d.allocated.contains(
        d.leases[k].ip,
    ) by {
        assert(a.leases.contains_key(k));
    }
    assert forall|ip: u32| #[trigger] d.offered.contains_key(ip) implies d.allocated.contains(
        ip,
    ) by {
        assert(a.offered.contains_key(ip));
    }
    let f = release_outcome(a, p).0;
    if !a.offered.contains_key(p.ciaddr) && (forall|k: u64| #[trigger]
        a.leases.contains_key(k) && k != sender(p).number() ==> a.leases[k].ip != p.ciaddr) {
        assert forall|k: u64| #[trigger] f.leases.contains_key(k) implies f.allocated.contains(
            f.leases[k].ip,
        ) by {
            assert(a.leases.contains_key(k));
        }
        assert forall|ip: u32| #[trigger] f.offered.contains_key(ip) implies f.allocated.contains(
            ip,
        ) by {
            assert(a.offered.contains_key(ip));
        }
    }
    let g = request_outcome(a, c, p, now).0;
    assert forall|k: u64| #[trigger] g.leases.contains_key(k) implies g.allocated.contains(
        g.leases[k].ip,
    ) by {
        if a.leases.contains_key(k) {
            assert(a.allocated.contains(a.leases[k].ip));
        }
    }
    assert forall|ip: u32| #[trigger] g.offered.contains_key(ip) implies g.allocated.contains(
        ip,
    ) by {
        assert(a.offered.contains_key(ip));
    }
    if discover_outcome(a, sender(p), now, b, r) {
        assert forall|k: u64| #[trigger] b.leases.contains_key(k) implies b.allocated.contains(
            b.leases[k].ip,
        ) by {
            assert(a.leases.contains_key(k));
        }
        assert forall|ip: u32| #[trigger] b.offered.contains_key(ip) implies b.allocated.contains(
            ip,
        ) by {
            if a.offered.contains_key(ip) {
                assert(a.allocated.contains(ip));
            }
        }
    }
}

/// A request is answered with the address it names, or refused: refused exactly where the address
/// lies outside the pool or another client holds it, and a refusal changes nothing.
pub proof fn law_request_is_granted_or_refused(
    a: ServerView,
    c: DhcpConfig,
    p: PacketView,
    now: i64,
)
    requires
        named_ip(p) is Some,
    ensures
        ({
            let ip = named_ip(p)->0;
            let (b, h) = request_outcome(a, c, p, now);
            let refused = !a.in_pool(ip) || a.conflict(sender(p), ip, now);
            &&& h.reply matches Some((reply, to))
            &&& reply.head.xid == p.xid
            &&& reply.mac == sender(p)
            &&& refused ==> b == a && reply.head.message_type == NAK && reply.head.yiaddr == 0
            &&& !refused ==> reply.head.message_type == ACK && reply.head.yiaddr == ip
                && b.leases.contains_key(sender(p).number()) && b.leases[sender(p).number()].ip
                == ip
        }),
{
}

/// A client that was granted an address is offered the same address when it asks again.
pub proof fn law_granted_address_is_offered_again(
    a: ServerView,
    c: DhcpConfig,
    p: PacketView,
    now: i64,
    later: i64,
    d: ServerView,
    r: Option<u32>,
)
    requires
        named_ip(p) is Some,
        a.in_pool(named_ip(p)->0),
        !a.conflict(sender(p), named_ip(p)->0, now),
        discover_outcome(request_outcome(a, c, p, now).0, sender(p), later, d, r),
    ensures
        r == named_ip(p),
{
}

/// An address that a client releases is free at once, if it lies in the pool and is not kept
/// back.
pub proof fn law_released_address_is_free(a: ServerView, p: PacketView)
    requires
        p.ciaddr != 0,
        a.in_pool(p.ciaddr),
        !a.declined.contains_key(p.ciaddr),
    ensures
        release_outcome(a, p).0.free(p.ciaddr),
        !release_outcome(a, p).0.leases.contains_key(sender(p).number()),
{
}

/// A declined address is not offered anew for ten minutes, whatever is reclaimed meanwhile.
pub proof fn law_declined_address_is_kept_back(a: ServerView, p: PacketView, now: i64, later: i64)
    requires
        named_ip(p) is Some,
        now + QUARANTINE <= i64::MAX,
        later < now + QUARANTINE,
    ensures
        !decline_outcome(a, p, now).0.free(named_ip(p)->0),
        !reclaimed(decline_outcome(a, p, now).0, later).free(named_ip(p)->0),
{
    let b = decline_outcome(a, p, now).0;
    assert(b.declined.contains_key(named_ip(p)->0));
    assert(reclaimed(b, later).declined.contains_key(named_ip(p)->0));
}

/// A lease that is written to disk is read back as it was, as long as it has not run out. A name
/// without characters is read back as no name, and the hardware address of zeros is not read.
pub proof fn law_saved_lease_is_loaded(
    a: ServerView,
    c: DhcpConfig,
    p: PacketView,
    now: i64,
    later: i64,
)
    requires
        named_ip(p) is Some,
        a.in_pool(named_ip(p)->0),
        !a.conflict(sender(p), named_ip(p)->0, now),
        sender(p) != MacAddr(0, 0, 0, 0, 0, 0),
        p.hostname is Some ==> p.hostname->0.len() > 0,
        later < requested_lease(c, p, named_ip(p)->0, now).expires_at,
    ensures
        request_outcome(a, c, p, now).1.store matches StoreView::Save {
            mac,
            ip,
            hostname,
            expires_at,
        } && loaded(seq![RowView { mac, ip, hostname, expires_at }], a.start, a.end, later)
            == Map::<u64, LeaseView>::empty().insert(
            sender(p).number(),
            requested_lease(c, p, named_ip(p)->0, now),
        ),
{
    law_mac_round_trip(sender(p));
    let lease = requested_lease(c, p, named_ip(p)->0, now);
    let row = RowView {
        mac: mac_text(sender(p)),
        ip: lease.ip,
        hostname: match p.hostname {
            Some(h) => h,
            None => Seq::empty(),
        },
        expires_at: lease.expires_at,
    };
    let rows = seq![row];
    assert(rows.drop_last() =~= Seq::<RowView>::empty());
    assert(loaded(rows.drop_last(), a.start, a.end, later) == Map::<u64, LeaseView>::empty());
    assert(row_lease(row, a.start, a.end, later)->0 =~= lease);
}

/// The number that stands for the client of a message: the first six bytes of its hardware address,
/// the first one highest.
pub open spec fn client_number(p: PacketView) -> int {
    p.chaddr[0] * 0x100_0000_0000 + p.chaddr[1] * 0x1_0000_0000 + p.chaddr[2] * 0x100_0000
        + p.chaddr[3] * 0x1_0000 + p.chaddr[4] * 0x100 + p.chaddr[5]
}

/// The hardware address of the client of a message: its first six bytes.
pub open spec fn client_mac(p: PacketView) -> MacAddr {
    MacAddr(p.chaddr[0], p.chaddr[1], p.chaddr[2], p.chaddr[3], p.chaddr[4], p.chaddr[5])
}

/// A client is told its configuration with every address. Whatever message is answered with an OFFER
/// or an ACK, the subnet mask of the answer is the configured one and the router is the configured
/// one, 192.168.1.1 where none is. The name server is the configured one, the router where none is.
/// The lease lasts for the configured time; the client is to renew it at half of that and to rebind
/// at three quarters, each in whole seconds. The domain is the configured one.
pub proof fn law_grants_tell_the_configuration(
    a: ServerView,
    c: DhcpConfig,
    p: PacketView,
    now: i64,
    b: ServerView,
    h: HandledView,
)
    requires
        message_outcome(a, c, p, now, b, h),
        h.reply is Some,
        (h.reply->0).0.head.message_type == 2 || (h.reply->0).0.head.message_type == 5,
    ensures
        ({
            let reply = (h.reply->0).0;
            let router = if c.router is Some {
                c.router->0
            } else {
                0xc0a8_0101
            };
            &&& reply.terms matches Some(t)
            &&& t.subnet_mask == c.netmask
            &&& t.router == router
            &&& reply.head.server == router
            &&& c.dns_server is Some ==> t.dns_server == c.dns_server->0
            &&& c.dns_server is None ==> t.dns_server == router
            &&& t.lease_time == c.lease_time
            &&& 2 * t.renewal <= c.lease_time < 2 * t.renewal + 2
            &&& 4 * t.rebinding <= 3 * c.lease_time < 4 * t.rebinding + 4
            &&& c.domain is Some ==> t.domain == Some(c.domain->0@)
            &&& c.domain is None ==> t.domain is None
        }),
{
}

/// A refusal hands out nothing: whatever message is answered with a NAK, the answer has no address
/// and no terms, goes to every host, and nothing is changed.
pub proof fn law_refusals_hand_out_nothing(
    a: ServerView,
    c: DhcpConfig,
    p: PacketView,
    now: i64,
    b: ServerView,
    h: HandledView,
)
    requires
        message_outcome(a, c, p, now, b, h),
        h.reply is Some,
        (h.reply->0).0.head.message_type != 2,
        (h.reply->0).0.head.message_type != 5,
    ensures
        (h.reply->0).0.head.message_type == 6,
        (h.reply->0).0.head.yiaddr == 0,
        (h.reply->0).0.terms is None,
        (h.reply->0).1 == 0xffff_ffff,
        h.store == StoreView::Keep,
        p.message_type == Some(3u8),
        b == a,
{
}

/// Every answer is a reply to its own message: it has the transaction, the flags and the hardware
/// address of the message.
pub proof fn law_answers_belong_to_their_messages(
    a: ServerView,
    c: DhcpConfig,
    p: PacketView,
    now: i64,
    b: ServerView,
    h: HandledView,
)
    requires
        message_outcome(a, c, p, now, b, h),
        h.reply is Some,
    ensures
        ({
            let reply = (h.reply->0).0;
            &&& reply.head.opcode == 2
            &&& reply.head.xid == p.xid
            &&& reply.head.flags == p.flags
            &&& p.chaddr.len() >= 6
            &&& reply.mac.0 == p.chaddr[0] && reply.mac.1 == p.chaddr[1] && reply.mac.2
                == p.chaddr[2] && reply.mac.3 == p.chaddr[3] && reply.mac.4 == p.chaddr[4]
                && reply.mac.5 == p.chaddr[5]
        }),
{
}

/// Clients are told apart by their hardware addresses.
proof fn lemma_client_number(p: PacketView)
    requires
        p.chaddr.len() >= 6,
    ensures
        sender(p).number() == client_number(p),
{
}

/// The kinds of messages. A DISCOVER (1) is answered with an OFFER (2) to every host, or not at all; a
/// REQUEST (3) with an ACK (5) or a NAK (6), or not at all; a DECLINE (4) and a RELEASE (7) are never
/// answered. Any other message, and one without six bytes of a hardware address, is not answered and
/// changes nothing.
pub proof fn law_kinds_of_messages(
    a: ServerView,
    c: DhcpConfig,
    p: PacketView,
    now: i64,
    b: ServerView,
    h: HandledView,
)
    requires
        message_outcome(a, c, p, now, b, h),
    ensures
        p.message_type == Some(1u8) ==> h.store == StoreView::Keep && b.leases == a.leases
            && b.declined == a.declined && (h.reply is Some ==> (h.reply->0).0.head.message_type == 2
            && (h.reply->0).1 == 0xffff_ffff),
        p.message_type == Some(3u8) ==> b.declined == a.declined && (h.reply is Some
            ==> (h.reply->0).0.head.message_type == 5 || (h.reply->0).0.head.message_type == 6),
        p.message_type == Some(4u8) || p.message_type == Some(7u8) ==> h.reply is None,
        p.message_type != Some(1u8) && p.message_type != Some(3u8) && p.message_type != Some(4u8)
            && p.message_type != Some(7u8) ==> b == a && h.reply is None && h.store
            == StoreView::Keep,
        p.chaddr.len() < 6 ==> b == a && h.reply is None && h.store == StoreView::Keep,
        b.start == a.start && b.end == a.end,
{
}

/// What a DISCOVER gets. A client with a lease is offered its address, and nothing changes. Another is
/// offered an address that it was offered before and whose offer still stands; or else the lowest
/// address of the pool that is neither taken nor kept back. The offer stands for thirty seconds from
/// now. There is no offer only where there is no such address.
pub proof fn law_discover_is_answered(
    a: ServerView,
    c: DhcpConfig,
    p: PacketView,
    now: i64,
    b: ServerView,
    h: HandledView,
)
    requires
        message_outcome(a, c, p, now, b, h),
        p.message_type == Some(1u8),
        p.chaddr.len() >= 6,
        now + 30 <= i64::MAX,
    ensures
        ({
            let n = client_number(p) as u64;
            let mine = |ip: u32|
                a.offered.contains_key(ip) && a.offered[ip].mac.number() == n
                    && a.offered[ip].expires_at > now;
            let unused = |ip: u32|
                a.start <= ip <= a.end && !a.allocated.contains(ip) && !a.declined.contains_key(ip);
            if a.leases.contains_key(n) {
                &&& h.reply matches Some((reply, _)) && reply.head.yiaddr == a.leases[n].ip
                &&& b == a
            } else {
                match h.reply {
                    Some((reply, _)) => {
                        let ip = reply.head.yiaddr;
                        &&& mine(ip) || (unused(ip) && (forall|j: u32| #[trigger]
                            a.offered.contains_key(j) ==> !mine(j)) && (forall|j: u32|
                            j < ip ==> a.allocated.contains(j) || a.declined.contains_key(j) || j
                                < a.start))
                        &&& b.offered.contains_key(ip)
                        &&& b.offered[ip].mac.number() == n
                        &&& b.offered[ip].expires_at == now + 30
                        &&& b.offered.remove(ip) == a.offered.remove(ip)
                        &&& !mine(ip) ==> b.allocated == a.allocated.insert(ip)
                        &&& mine(ip) ==> b.allocated == a.allocated
                    },
                    None => {
                        &&& b == a
                        &&& forall|j: u32| #[trigger] a.offered.contains_key(j) ==> !mine(j)
                        &&& forall|j: u32|
                            a.start <= j <= a.end ==> a.allocated.contains(j)
                                || a.declined.contains_key(j)
                    },
                }
            }
        }),
{
    lemma_client_number(p);
    let mac = sender(p);
    let n = mac.number();
    let r = choose|r: Option<u32>|
        {
            &&& #[trigger] discover_outcome(a, sender(p), now, b, r)
            &&& h.reply == match r {
                Some(ip) => Some((granting_reply(c, p, OFFER, ip), BROADCAST)),
                None => None,
            }
        };
    assert forall|ip: u32| a.offered.contains_key(ip) implies (a.offered[ip].mac == mac
        <==> a.offered[ip].mac.number() == n) by {
        if a.offered[ip].mac.number() == n {
            lemma_number_injective(a.offered[ip].mac, mac);
        }
    }
    if !a.leases.contains_key(n) {
        if exists|ip: u32| a.live_offer(mac, now, ip) {
            assert(b.offered.remove(r->0) =~= a.offered.remove(r->0));
        } else {
            assert forall|j: u32| #[trigger] a.offered.contains_key(j) implies !(
            a.offered[j].mac.number() == n && a.offered[j].expires_at > now) by {
                assert(!a.live_offer(mac, now, j));
            }
            if exists|ip: u32| a.free(ip) {
                assert(b.offered.remove(r->0) =~= a.offered.remove(r->0));
                assert forall|j: u32| j < r->0 implies a.allocated.contains(j)
                    || a.declined.contains_key(j) || j < a.start by {
                    assert(!a.free(j));
                }
            } else {
                assert forall|j: u32| a.start <= j <= a.end implies a.allocated.contains(j)
                    || a.declined.contains_key(j) by {
                    assert(!a.free(j));
                }
            }
        }
    }
}

/// What a REQUEST gets. It speaks of the requested address, else of the client's own; one that speaks
/// of none is passed over. It is refused exactly where the address lies outside the pool or another
/// client has a lease of it that has not run out. Any other is acknowledged with that address: the
/// client has a lease of it for the configured time from now, the address is taken and no longer
/// offered, nothing else changes, and the lease is written to disk. The acknowledgement goes to the
/// address that the client has, unless the client has none or asks for a broadcast.
pub proof fn law_request_is_answered(
    a: ServerView,
    c: DhcpConfig,
    p: PacketView,
    now: i64,
    b: ServerView,
    h: HandledView,
)
    requires
        message_outcome(a, c, p, now, b, h),
        p.message_type == Some(3u8),
        p.chaddr.len() >= 6,
        now + c.lease_time <= i64::MAX,
    ensures
        ({
            let n = client_number(p) as u64;
            let named = p.requested_ip is Some || p.ciaddr != 0;
            let ip = if p.requested_ip is Some {
                p.requested_ip->0
            } else {
                p.ciaddr
            };
            let held = exists|k: u64| #[trigger]
                a.leases.contains_key(k) && k != n && a.leases[k].ip == ip && a.leases[k].expires_at
                    > now;
            if !named {
                h.reply is None && b == a && h.store == StoreView::Keep
            } else if ip < a.start || ip > a.end || held {
                h.reply matches Some((reply, _)) && reply.head.message_type == 6
            } else {
                &&& h.reply matches Some((reply, to)) && reply.head.message_type == 5
                    && reply.head.yiaddr == ip && to == (if p.flags < 0x8000 && p.ciaddr != 0 {
                    p.ciaddr
                } else {
                    0xffff_ffff
                })
                &&& b.leases.contains_key(n)
                &&& b.leases[n].ip == ip
                &&& b.leases[n].mac.number() == n
                &&& b.leases[n].hostname == p.hostname
                &&& b.leases[n].expires_at == now + c.lease_time
                &&& b.leases.remove(n) == a.leases.remove(n)
                &&& b.allocated == a.allocated.insert(ip)
                &&& b.offered == a.offered.remove(ip)
                &&& b.declined == a.declined
                &&& h.store matches StoreView::Save { mac, ip: saved, hostname, expires_at } && saved
                    == ip && expires_at == now + c.lease_time && (p.hostname is Some ==> hostname
                    == p.hostname->0) && (p.hostname is None ==> hostname.len() == 0)
                    && mac == mac_text(b.leases[n].mac)
            }
        }),
{
    lemma_client_number(p);
    assert(b.leases.remove(sender(p).number()) =~= a.leases.remove(sender(p).number()));
}

/// A RELEASE by a client that has an address frees it: the client's lease is gone, here and on disk,
/// and the address is not taken any more. Nothing else changes.
pub proof fn law_release_frees_the_address(
    a: ServerView,
    c: DhcpConfig,
    p: PacketView,
    now: i64,
    b: ServerView,
    h: HandledView,
)
    requires
        message_outcome(a, c, p, now, b, h),
        p.message_type == Some(7u8),
        p.chaddr.len() >= 6,
    ensures
        p.ciaddr == 0 ==> b == a && h.store == StoreView::Keep,
        p.ciaddr != 0 ==> {
            &&& b.leases == a.leases.remove(client_number(p) as u64)
            &&& b.allocated == a.allocated.remove(p.ciaddr)
            &&& b.offered == a.offered && b.declined == a.declined
            &&& h.store matches StoreView::Delete { mac } && mac == mac_text(client_mac(p))
        },
{
    lemma_client_number(p);
}

/// A DECLINE keeps the address back for ten minutes from now: it is not free, though the client has no
/// lease and nobody an offer of it any more.
pub proof fn law_decline_keeps_the_address_back(
    a: ServerView,
    c: DhcpConfig,
    p: PacketView,
    now: i64,
    b: ServerView,
    h: HandledView,
)
    requires
        message_outcome(a, c, p, now, b, h),
        p.message_type == Some(4u8),
        p.chaddr.len() >= 6,
        now + 600 <= i64::MAX,
    ensures
        ({
            let ip = if p.requested_ip is Some {
                p.requested_ip->0
            } else {
                p.ciaddr
            };
            if p.requested_ip is None && p.ciaddr == 0 {
                b == a && h.store == StoreView::Keep
            } else {
                &&& b.declined.contains_key(ip) && b.declined[ip] == now + 600
                &&& b.declined.remove(ip) == a.declined.remove(ip)
                &&& b.leases == a.leases.remove(client_number(p) as u64)
                &&& b.offered == a.offered.remove(ip)
                &&& b.allocated == a.allocated
                &&& h.store matches StoreView::Delete { mac } && mac == mac_text(client_mac(p))
            }
        }),
{
    lemma_client_number(p);
    let ip = if p.requested_ip is Some {
        p.requested_ip->0
    } else {
        p.ciaddr
    };
    assert(p.requested_ip is Some || p.ciaddr != 0 ==> b.declined.remove(ip) =~= a.declined.remove(
        ip,
    ));
}

/// A reclaim gives back exactly the addresses of what has run out: leases, offers and declined
/// addresses whose time is not after now.
pub proof fn law_reclaim_gives_addresses_back(v: ServerView, now: i64, ip: u32)
    ensures
        reclaimed(v, now).allocated.contains(ip) <==> {
            &&& v.allocated.contains(ip)
            &&& !(exists|k: u64| #[trigger]
                v.leases.contains_key(k) && v.leases[k].ip == ip && v.leases[k].expires_at <= now)
            &&& !(v.offered.contains_key(ip) && v.offered[ip].expires_at <= now)
            &&& !(v.declined.contains_key(ip) && v.declined[ip] <= now)
        },
        reclaimed(v, now).start == v.start,
        reclaimed(v, now).end == v.end,
{
}

/// What is done after a datagram is what is done after the message in it: the answer is sent in its form
/// on the wire to where it goes, and the disk is told the same. Without a message nothing is done.
pub proof fn law_datagrams_are_handled_as_their_messages(
    a: ServerView,
    c: DhcpConfig,
    data: Seq<u8>,
    now: i64,
    b: ServerView,
    r: HandledDatagram,
)
    requires
        datagram_outcome(a, c, data, now, b, r),
    ensures
        message_in(data) is None ==> b == a && r.reply is None && r.store@ == StoreView::Keep,
        message_in(data) matches Some(p) ==> exists|h: HandledView|
            {
                &&& #[trigger] message_outcome(a, c, p, now, b, h)
                &&& r.store@ == h.store
                &&& r.reply is Some <==> h.reply is Some
                &&& r.reply is Some ==> (r.reply->0).1 == (h.reply->0).1 && (r.reply->0).0@
                    == encoded_reply((h.reply->0).0)
            },
{
    if message_in(data) is Some {
        let p = message_in(data)->0;
        let h = choose|h: HandledView|
            {
                &&& #[trigger] message_outcome(a, c, p, now, b, h)
                &&& r.store@ == h.store
                &&& match (h.reply, r.reply) {
                    (Some(reply), Some(sent)) => sent.0@ == encoded_reply(reply.0) && sent.1
                        == reply.1,
                    (None, None) => true,
                    _ => false,
                }
            };
        assert(message_outcome(a, c, p, now, b, h));
    }
}

/// The message in a datagram is what the decoder reads from it, where its options have the lengths that
/// they should have. One that names a hardware address of more than sixteen bytes holds none.
pub proof fn law_messages_are_read_from_datagrams(data: Seq<u8>)
    ensures
        data.len() > 2 && data[2] > 16 ==> message_in(data) is None,
        options_fit(data, 240) && (data.len() > 2 ==> data[2] <= 16) ==> message_in(data)
            == decoded_packet(data),
{
    if options_fit(data, 240) {
        crate::dhcp::wire::law_fitting_options_are_left(data, 240);
    }
}

/// A grant is written with its terms, a refusal without; both with the hardware address of the client,
/// byte by byte.
pub proof fn law_replies_are_written_with_their_terms(reply: ReplyView)
    ensures
        ({
            let m = reply.mac;
            let bytes = seq![m.0, m.1, m.2, m.3, m.4, m.5];
            &&& reply.terms matches Some(t) ==> encoded_reply(reply) == encoded_grant(
                reply.head,
                bytes,
                t,
            )
            &&& reply.terms is None ==> encoded_reply(reply) == encoded_refusal(reply.head, bytes)
        }),
{
}

/// Lists of leases show what has not run out: a lease is kept by the clean-up that comes first exactly
/// where it ends after now, and it is kept as it was.
pub proof fn law_leases_are_listed_while_they_last(v: ServerView, now: i64, k: u64)
    ensures
        reclaimed(v, now).leases.contains_key(k) <==> v.leases.contains_key(k)
            && v.leases[k].expires_at > now,
        reclaimed(v, now).leases.contains_key(k) ==> reclaimed(v, now).leases[k] == v.leases[k],
        reclaimed(v, now).offered.contains_key(k as u32) ==> v.offered.contains_key(k as u32),
{
}

} // verus!
