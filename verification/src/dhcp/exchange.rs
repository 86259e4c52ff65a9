//! The exchange of messages: what the server answers and how its state changes.

use crate::clock;
use crate::config::DhcpConfig;
use crate::dhcp::mac::{mac_text, MacAddr};
use crate::dhcp::server::{
    DhcpServer, LeaseView, Offer, ServerView, BROADCAST, DEFAULT_SERVER, OFFER_TIMEOUT,
    QUARANTINE,
};
use crate::dhcp::wire::{
    self, DhcpPacket, DhcpReply, LeaseTerms, PacketView, ReplyHead, ReplyView, TermsView, ACK,
    BOOT_REPLY, DECLINE, DISCOVER, NAK, OFFER, RELEASE, REQUEST,
};
use crate::tables;
use crate::text::optional;
use std::collections::HashSet;
use vstd::prelude::*;

verus! {

broadcast use {vstd::std_specs::hash::group_hash_axioms, vstd::string::group_string_axioms};

/// The longest lease whose rebinding time can be computed in 32 bits.
pub const MAX_LEASE_TIME: u32 = 1_431_655_765;

/// The address that identifies the server: its router setting.
pub open spec fn server_id(c: DhcpConfig) -> u32 {
    match c.router {
        Some(r) => r,
        None => DEFAULT_SERVER,
    }
}

/// The terms of a lease. The server itself is the name server where none is configured; a client
/// renews after half of the lease and rebinds after three quarters.
pub open spec fn lease_terms(c: DhcpConfig) -> TermsView {
    TermsView {
        subnet_mask: c.netmask,
        dns_server: match c.dns_server {
            Some(d) => d,
            None => server_id(c),
        },
        router: server_id(c),
        lease_time: c.lease_time,
        renewal: c.lease_time / 2,
        rebinding: (c.lease_time as int * 3 / 4) as u32,
        domain: optional(c.domain),
    }
}

/// The hardware address of a message that has one.
pub open spec fn sender(p: PacketView) -> MacAddr {
    MacAddr(p.chaddr[0], p.chaddr[1], p.chaddr[2], p.chaddr[3], p.chaddr[4], p.chaddr[5])
}

/// A reply to the message `p` that hands `ip` to its sender.
pub open spec fn granting_reply(c: DhcpConfig, p: PacketView, kind: u8, ip: u32) -> ReplyView {
    ReplyView {
        head: ReplyHead {
            opcode: BOOT_REPLY,
            xid: p.xid,
            flags: p.flags,
            yiaddr: ip,
            server: server_id(c),
            message_type: kind,
        },
        mac: sender(p),
        terms: Some(lease_terms(c)),
    }
}

/// The reply that refuses the request `p`: no address and no terms.
pub open spec fn refusing_reply(c: DhcpConfig, p: PacketView) -> ReplyView {
    ReplyView {
        head: ReplyHead {
            opcode: BOOT_REPLY,
            xid: p.xid,
            flags: p.flags,
            yiaddr: 0,
            server: server_id(c),
            message_type: NAK,
        },
        mac: sender(p),
        terms: None,
    }
}

fn server_identity(c: &DhcpConfig) -> (r: u32)
    ensures
        r == server_id(*c),
{
    match c.router {
        Some(r) => r,
        None => DEFAULT_SERVER,
    }
}

/// The hardware address of the sender, where the message has at least six bytes of it.
fn sender_of(p: &DhcpPacket) -> (r: MacAddr)
    requires
        p.chaddr@.len() >= 6,
    ensures
        r == sender(p@),
{
    MacAddr(p.chaddr[0], p.chaddr[1], p.chaddr[2], p.chaddr[3], p.chaddr[4], p.chaddr[5])
}

fn granting(c: &DhcpConfig, p: &DhcpPacket, kind: u8, ip: u32) -> (r: DhcpReply)
    requires
        p.chaddr@.len() >= 6,
        c.lease_time <= MAX_LEASE_TIME,
    ensures
        r@ == granting_reply(*c, p@, kind, ip),
{
    let server: u32 = server_identity(c);
    let dns_server: u32 = match c.dns_server {
        Some(d) => d,
        None => server,
    };
    let domain: Option<String> = match &c.domain {
        Some(d) => Some(d.clone()),
        None => None,
    };
    let terms = LeaseTerms {
        subnet_mask: c.netmask,
        dns_server,
        router: server,
        lease_time: c.lease_time,
        renewal: c.lease_time / 2,
        rebinding: (c.lease_time * 3) / 4,
        domain,
    };
    DhcpReply {
        head: ReplyHead {
            opcode: BOOT_REPLY,
            xid: p.xid,
            flags: p.flags,
            yiaddr: ip,
            server,
            message_type: kind,
        },
        mac: sender_of(p),
        terms: Some(terms),
    }
}

/// The offer of `ip` in answer to the message `p`.
pub fn build_offer(discover: &DhcpPacket, offered_ip: u32, server: &DhcpServer) -> (r: DhcpReply)
    requires
        discover.chaddr@.len() >= 6,
        server.config.lease_time <= MAX_LEASE_TIME,
    ensures
        r@ == granting_reply(server.config, discover@, OFFER, offered_ip),
{
    granting(&server.config, discover, OFFER, offered_ip)
}

/// The acknowledgement that `ip` is leased to the sender of `p`.
pub fn build_ack(request: &DhcpPacket, offered_ip: u32, server: &DhcpServer) -> (r: DhcpReply)
    requires
        request.chaddr@.len() >= 6,
        server.config.lease_time <= MAX_LEASE_TIME,
    ensures
        r@ == granting_reply(server.config, request@, ACK, offered_ip),
{
    granting(&server.config, request, ACK, offered_ip)
}

/// The refusal of a request.
pub fn build_nak(request: &DhcpPacket, server: &DhcpServer) -> (r: DhcpReply)
    requires
        request.chaddr@.len() >= 6,
    ensures
        r@ == refusing_reply(server.config, request@),
{
    DhcpReply {
        head: ReplyHead {
            opcode: BOOT_REPLY,
            xid: request.xid,
            flags: request.flags,
            yiaddr: 0,
            server: server_identity(&server.config),
            message_type: NAK,
        },
        mac: sender_of(request),
        terms: None,
    }
}

/// A change to the leases that are kept on disk.
#[derive(Debug, Clone)]
pub enum StoreChange {
    /// No change.
    Keep,
    /// The lease of `mac` is written.
    Save { mac: String, ip: u32, hostname: String, expires_at: i64 },
    /// The lease of `mac` is removed.
    Delete { mac: String },
}

/// The contents of a `StoreChange`.
#[verifier::ext_equal]
pub enum StoreView {
    Keep,
    Save { mac: Seq<char>, ip: u32, hostname: Seq<char>, expires_at: i64 },
    Delete { mac: Seq<char> },
}

impl View for StoreChange {
    type V = StoreView;

    open spec fn view(&self) -> StoreView {
        match *self {
            StoreChange::Keep => StoreView::Keep,
            StoreChange::Save { mac, ip, hostname, expires_at } => StoreView::Save {
                mac: mac@,
                ip,
                hostname: hostname@,
                expires_at,
            },
            StoreChange::Delete { mac } => StoreView::Delete { mac: mac@ },
        }
    }
}

/// What is to be done after a message: a reply to the given address, and a change on disk.
#[derive(Debug, Clone)]
pub struct Handled {
    pub reply: Option<(DhcpReply, u32)>,
    pub store: StoreChange,
}

/// The contents of a `Handled`.
#[verifier::ext_equal]
pub struct HandledView {
    pub reply: Option<(ReplyView, u32)>,
    pub store: StoreView,
}

impl View for Handled {
    type V = HandledView;

    open spec fn view(&self) -> HandledView {
        HandledView {
            reply: match self.reply {
                Some(r) => Some((r.0@, r.1)),
                None => None,
            },
            store: self.store@,
        }
    }
}

/// Nothing is to be done.
pub open spec fn nothing() -> HandledView {
    HandledView { reply: None, store: StoreView::Keep }
}

fn do_nothing() -> (r: Handled)
    ensures
        r@ == nothing(),
{
    Handled { reply: None, store: StoreChange::Keep }
}

/// The address that a DISCOVER of `mac` is answered with at the time `now`, and the state after
/// it. A client with a lease is offered its address. Else an offer that still stands is repeated
/// and stands for another while. Else the lowest free address of the pool is offered, if there is
/// one.
pub open spec fn discover_outcome(
    a: ServerView,
    mac: MacAddr,
    now: i64,
    b: ServerView,
    r: Option<u32>,
) -> bool {
    let offer = Offer { expires_at: (now + OFFER_TIMEOUT) as i64, mac };
    if a.leases.contains_key(mac.number()) {
        b == a && r == Some(a.leases[mac.number()].ip)
    } else if exists|ip: u32| a.live_offer(mac, now, ip) {
        &&& r is Some
        &&& a.live_offer(mac, now, r->0)
        &&& b == ServerView { offered: a.offered.insert(r->0, offer), ..a }
    } else if exists|ip: u32| a.free(ip) {
        &&& r is Some
        &&& a.free(r->0)
        &&& forall|ip: u32| #[trigger] a.free(ip) ==> r->0 <= ip
        &&& b == ServerView {
            offered: a.offered.insert(r->0, offer),
            allocated: a.allocated.insert(r->0),
            ..a
        }
    } else {
        b == a && r is None
    }
}

/// The address that a REQUEST or DECLINE speaks of: the requested one, else the client's own.
pub open spec fn named_ip(p: PacketView) -> Option<u32> {
    if p.requested_ip is Some {
        p.requested_ip
    } else if p.ciaddr != 0 {
        Some(p.ciaddr)
    } else {
        None
    }
}

/// Where an acknowledgement goes: to the client's address, where it has one and did not ask for a
/// broadcast.
pub open spec fn ack_destination(p: PacketView) -> u32 {
    if p.flags < 0x8000 && p.ciaddr != 0 {
        p.ciaddr
    } else {
        BROADCAST
    }
}

/// The lease that a REQUEST asks for.
pub open spec fn requested_lease(c: DhcpConfig, p: PacketView, ip: u32, now: i64) -> LeaseView {
    LeaseView {
        ip,
        mac: sender(p),
        hostname: p.hostname,
        expires_at: (now + c.lease_time) as i64,
    }
}

/// The state after a REQUEST at the time `now`, and what is to be done. A request for an address
/// outside the pool, or for one that another client holds, is refused; any other is granted.
pub open spec fn request_outcome(a: ServerView, c: DhcpConfig, p: PacketView, now: i64) -> (
    ServerView,
    HandledView,
) {
    match named_ip(p) {
        None => (a, nothing()),
        Some(ip) => {
            if !a.in_pool(ip) || a.conflict(sender(p), ip, now) {
                (
                    a,
                    HandledView {
                        reply: Some((refusing_reply(c, p), BROADCAST)),
                        store: StoreView::Keep,
                    },
                )
            } else {
                let lease = requested_lease(c, p, ip, now);
                (
                    ServerView {
                        leases: a.leases.insert(sender(p).number(), lease),
                        allocated: a.allocated.insert(ip),
                        offered: a.offered.remove(ip),
                        ..a
                    },
                    HandledView {
                        reply: Some((granting_reply(c, p, ACK, ip), ack_destination(p))),
                        store: StoreView::Save {
                            mac: mac_text(sender(p)),
                            ip,
                            hostname: match p.hostname {
                                Some(h) => h,
                                None => Seq::empty(),
                            },
                            expires_at: lease.expires_at,
                        },
                    },
                )
            }
        },
    }
}

/// The state after a RELEASE, and what is to be done: the client's address is free again and its
/// lease is gone.
pub open spec fn release_outcome(a: ServerView, p: PacketView) -> (ServerView, HandledView) {
    if p.ciaddr == 0 {
        (a, nothing())
    } else {
        (
            ServerView {
                allocated: a.allocated.remove(p.ciaddr),
                leases: a.leases.remove(sender(p).number()),
                ..a
            },
            HandledView { reply: None, store: StoreView::Delete { mac: mac_text(sender(p)) } },
        )
    }
}

/// The state after a DECLINE at the time `now`, and what is to be done: the address is kept back,
/// and the client has no lease and no offer of it any more.
pub open spec fn decline_outcome(a: ServerView, p: PacketView, now: i64) -> (
    ServerView,
    HandledView,
) {
    match named_ip(p) {
        None => (a, nothing()),
        Some(ip) => (
            ServerView {
                declined: a.declined.insert(ip, (now + QUARANTINE) as i64),
                leases: a.leases.remove(sender(p).number()),
                offered: a.offered.remove(ip),
                ..a
            },
            HandledView { reply: None, store: StoreView::Delete { mac: mac_text(sender(p)) } },
        ),
    }
}

/// The state `b` after the message `p` at the time `now`, and what is to be done. A message
/// without a hardware address of six bytes, or without a type that a server handles, is ignored.
pub open spec fn message_outcome(
    a: ServerView,
    c: DhcpConfig,
    p: PacketView,
    now: i64,
    b: ServerView,
    h: HandledView,
) -> bool {
    if p.chaddr.len() < 6 {
        b == a && h == nothing()
    } else if p.message_type == Some(DISCOVER) {
        exists|r: Option<u32>|
            {
                &&& #[trigger] discover_outcome(a, sender(p), now, b, r)
                &&& h.store == StoreView::Keep
                &&& h.reply == match r {
                    Some(ip) => Some((granting_reply(c, p, OFFER, ip), BROADCAST)),
                    None => None,
                }
            }
    } else if p.message_type == Some(REQUEST) {
        (b, h) == request_outcome(a, c, p, now)
    } else if p.message_type == Some(RELEASE) {
        (b, h) == release_outcome(a, p)
    } else if p.message_type == Some(DECLINE) {
        (b, h) == decline_outcome(a, p, now)
    } else {
        b == a && h == nothing()
    }
}

/// Every reply belongs to the message: it has its transaction and its flags, and goes to its
/// hardware address.
pub proof fn law_reply_answers_its_message(
    a: ServerView,
    c: DhcpConfig,
    p: PacketView,
    now: i64,
    b: ServerView,
    h: HandledView,
)
    requires
        message_outcome(a, c, p, now, b, h),
    ensures
        h.reply matches Some((reply, _)) ==> {
            &&& p.chaddr.len() >= 6
            &&& reply.head.opcode == BOOT_REPLY
            &&& reply.head.xid == p.xid
            &&& reply.head.flags == p.flags
            &&& reply.head.server == server_id(c)
            &&& reply.mac == sender(p)
        },
{
}

impl DhcpServer {
    /// An address that is offered to the client by an offer that still stands.
    fn find_offer(&self, mac: MacAddr, now: i64) -> (r: Option<u32>)
        ensures
            match r {
                Some(ip) => self@.live_offer(mac, now, ip),
                None => forall|ip: u32| !self@.live_offer(mac, now, ip),
            },
    {
        let keys = tables::keys_of(&self.offered);
        let mut i: usize = 0;
        while i < keys.len()
            invariant
                i <= keys@.len(),
                forall|k: u32| #[trigger] self.offered@.contains_key(k) <==> keys@.contains(k),
                forall|j: int| 0 <= j < i ==> !self@.live_offer(mac, now, #[trigger] keys@[j]),
            decreases keys@.len() - i,
        {
            let k: u32 = keys[i];
            match self.offered.get(&k) {
                Some(o) => {
                    if o.mac == mac && o.expires_at > now {
                        return Some(k);
                    }
                },
                None => {},
            }
            i += 1;
        }
        assert forall|ip: u32| !self@.live_offer(mac, now, ip) by {
            if self.offered@.contains_key(ip) {
                let j = choose|j: int| 0 <= j < keys@.len() && keys@[j] == ip;
                assert(!self@.live_offer(mac, now, keys@[j]));
            }
        }
        None
    }

    /// The set of the declined addresses.
    fn declined_set(&self) -> (r: HashSet<u32>)
        ensures
            r@ == self.declined@.dom(),
    {
        let keys = tables::keys_of(&self.declined);
        let mut set: HashSet<u32> = HashSet::new();
        let mut i: usize = 0;
        while i < keys.len()
            invariant
                i <= keys@.len(),
                set@ == keys@.subrange(0, i as int).to_set(),
            decreases keys@.len() - i,
        {
            set.insert(keys[i]);
            proof {
                let longer = keys@.subrange(0, i + 1);
                assert(longer =~= keys@.subrange(0, i as int).push(keys@[i as int]));
                assert(longer.to_set() =~= keys@.subrange(0, i as int).to_set().insert(
                    keys@[i as int],
                )) by {
                    crate::dhcp::server::lemma_push_contains(
                        keys@.subrange(0, i as int),
                        keys@[i as int],
                    );
                }
            }
            i += 1;
        }
        proof {
            assert(keys@.subrange(0, keys@.len() as int) =~= keys@);
            assert(set@ =~= self.declined@.dom()) by {
                assert forall|k: u32| set@.contains(k) <==> self.declined@.dom().contains(k) by {
                    assert(self.declined@.contains_key(k) <==> keys@.contains(k));
                }
            }
        }
        set
    }

    /// Finds the address that a DISCOVER of `mac` is answered with at the time `now`.
    pub fn discover(&mut self, mac: MacAddr, now: i64) -> (r: Option<u32>)
        requires
            clock::is_timestamp(now as int),
        ensures
            discover_outcome(old(self)@, mac, now, final(self)@, r),
            final(self).config == old(self).config,
            old(self)@.well_formed() ==> final(self)@.well_formed(),
    {
        let ghost a = self@;
        match self.leases.get(&mac.key()) {
            Some(l) => {
                proof {
                    assert(self@.leases.contains_key(mac.number()));
                }
                return Some(l.ip);
            },
            None => {},
        }
        assert(!a.leases.contains_key(mac.number()));
        let offer = Offer { expires_at: now + OFFER_TIMEOUT, mac };
        match self.find_offer(mac, now) {
            Some(ip) => {
                self.offered.insert(ip, offer);
                proof {
                    assert(self@ =~= (ServerView { offered: a.offered.insert(ip, offer), ..a }));
                }
                Some(ip)
            },
            None => {
                let declined = self.declined_set();
                let ghost before = *self;
                let found: Option<u32> = self.pool.next_available(&declined);
                proof {
                    assert forall|ip: u32| a.free(ip) == before.pool.free(declined@, ip) by {}
                }
                match found {
                    Some(ip) => {
                        self.offered.insert(ip, offer);
                        proof {
                            assert(a.free(ip));
                            assert forall|j: u32| #[trigger] a.free(j) implies ip <= j by {
                                assert(before.pool.free(declined@, j));
                            }
                            assert(self@ =~= (ServerView {
                                offered: a.offered.insert(ip, offer),
                                allocated: a.allocated.insert(ip),
                                ..a
                            }));
                        }
                    },
                    None => {
                        proof {
                            assert(self@ =~= a);
                            assert forall|j: u32| !a.free(j) by {
                                assert(!before.pool.free(declined@, j));
                            }
                        }
                    },
                }
                found
            },
        }
    }

    /// Handles a REQUEST.
    fn request(&mut self, p: &DhcpPacket, now: i64) -> (r: Handled)
        requires
            p.chaddr@.len() >= 6,
            clock::is_timestamp(now as int),
            old(self).config.lease_time <= MAX_LEASE_TIME,
        ensures
            (final(self)@, r@) == request_outcome(old(self)@, old(self).config, p@, now),
            final(self).config == old(self).config,
            old(self)@.well_formed() ==> final(self)@.well_formed(),
    {
        let ghost a = self@;
        let mac = sender_of(p);
        let named: Option<u32> = named_address(p);
        match named {
            None => do_nothing(),
            Some(ip) => {
                if !self.pool.contains(ip) {
                    return Handled {
                        reply: Some((build_nak(p, self), BROADCAST)),
                        store: StoreChange::Keep,
                    };
                }
                let expires_at: i64 = now + self.config.lease_time as i64;
                let hostname: Option<String> = match &p.hostname {
                    Some(h) => Some(h.clone()),
                    None => None,
                };
                if !self.try_commit_lease_at(mac, ip, expires_at, hostname, now) {
                    return Handled {
                        reply: Some((build_nak(p, self), BROADCAST)),
                        store: StoreChange::Keep,
                    };
                }
                self.pool.mark_allocated(ip);
                self.offered.remove(&ip);
                proof {
                    assert(self@ =~= request_outcome(a, old(self).config, p@, now).0);
                }
                let name: String = match &p.hostname {
                    Some(h) => h.clone(),
                    None => String::new(),
                };
                let to: u32 = if p.flags < 0x8000 && p.ciaddr != 0 {
                    p.ciaddr
                } else {
                    BROADCAST
                };
                Handled {
                    reply: Some((build_ack(p, ip, self), to)),
                    store: StoreChange::Save { mac: mac.to_text(), ip, hostname: name, expires_at },
                }
            },
        }
    }

    /// Handles a RELEASE.
    fn release(&mut self, p: &DhcpPacket) -> (r: Handled)
        requires
            p.chaddr@.len() >= 6,
        ensures
            (final(self)@, r@) == release_outcome(old(self)@, p@),
            final(self).config == old(self).config,
            old(self)@.well_formed() ==> final(self)@.well_formed(),
    {
        if p.ciaddr == 0 {
            return do_nothing();
        }
        let mac = sender_of(p);
        self.pool.release(p.ciaddr);
        self.leases.remove(&mac.key());
        proof {
            assert(self@ =~= release_outcome(old(self)@, p@).0);
        }
        Handled { reply: None, store: StoreChange::Delete { mac: mac.to_text() } }
    }

    /// Handles a DECLINE.
    fn decline(&mut self, p: &DhcpPacket, now: i64) -> (r: Handled)
        requires
            p.chaddr@.len() >= 6,
            clock::is_timestamp(now as int),
        ensures
            (final(self)@, r@) == decline_outcome(old(self)@, p@, now),
            final(self).config == old(self).config,
            old(self)@.well_formed() ==> final(self)@.well_formed(),
    {
        let mac = sender_of(p);
        match named_address(p) {
            None => do_nothing(),
            Some(ip) => {
                self.declined.insert(ip, now + QUARANTINE);
                self.leases.remove(&mac.key());
                self.offered.remove(&ip);
                proof {
                    assert(self@ =~= decline_outcome(old(self)@, p@, now).0);
                }
                Handled { reply: None, store: StoreChange::Delete { mac: mac.to_text() } }
            },
        }
    }

    /// Handles a message that arrived at the time `now`.
    pub fn handle_message(&mut self, p: &DhcpPacket, now: i64) -> (r: Handled)
        requires
            clock::is_timestamp(now as int),
            old(self).config.lease_time <= MAX_LEASE_TIME,
        ensures
            message_outcome(old(self)@, old(self).config, p@, now, final(self)@, r@),
            final(self).config == old(self).config,
            old(self)@.well_formed() ==> final(self)@.well_formed(),
    {
        if p.chaddr.len() < 6 {
            return do_nothing();
        }
        match p.message_type {
            Some(kind) => {
                if kind == DISCOVER {
                    let mac = sender_of(p);
                    match self.discover(mac, now) {
                        Some(ip) => Handled {
                            reply: Some((build_offer(p, ip, self), BROADCAST)),
                            store: StoreChange::Keep,
                        },
                        None => do_nothing(),
                    }
                } else if kind == REQUEST {
                    self.request(p, now)
                } else if kind == RELEASE {
                    self.release(p)
                } else if kind == DECLINE {
                    self.decline(p, now)
                } else {
                    do_nothing()
                }
            },
            None => do_nothing(),
        }
    }
}

/// The address that a REQUEST or DECLINE speaks of.
fn named_address(p: &DhcpPacket) -> (r: Option<u32>)
    ensures
        r == named_ip(p@),
{
    match p.requested_ip {
        Some(ip) => Some(ip),
        None => if p.ciaddr != 0 {
            Some(p.ciaddr)
        } else {
            None
        },
    }
}

/// What is to be done after a datagram: bytes to send to the given address, and a change on disk.
pub struct HandledDatagram {
    pub reply: Option<(Vec<u8>, u32)>,
    pub store: StoreChange,
}

/// The message that a datagram holds; none where it is no message, or names a hardware address of
/// more than sixteen bytes.
pub open spec fn message_in(data: Seq<u8>) -> Option<PacketView> {
    if data.len() > 2 && data[2] > 16 {
        None
    } else {
        wire::decoded_packet(wire::prepared(data))
    }
}

/// The state `b` after the datagram at the time `now`, and what is to be done. What is no message
/// is ignored; a message is handled, and the reply to it is sent in its form on the wire.
pub open spec fn datagram_outcome(
    a: ServerView,
    c: DhcpConfig,
    data: Seq<u8>,
    now: i64,
    b: ServerView,
    r: HandledDatagram,
) -> bool {
    if message_in(data) is None {
        b == a && r.reply is None && r.store@ == StoreView::Keep
    } else {
        exists|h: HandledView|
            {
                &&& #[trigger] message_outcome(a, c, message_in(data)->0, now, b, h)
                &&& r.store@ == h.store
                &&& match (h.reply, r.reply) {
                    (Some(reply), Some(sent)) => sent.0@ == wire::encoded_reply(reply.0) && sent.1
                        == reply.1,
                    (None, None) => true,
                    _ => false,
                }
            }
    }
}

/// The reply on the wire answers the datagram: it is a reply of the same transaction, to the same
/// hardware address.
pub open spec fn answers_datagram(data: Seq<u8>, reply: Seq<u8>) -> bool {
    &&& data.len() >= 240 && reply.len() >= 240
    &&& reply[0] == BOOT_REPLY
    &&& wire::word(reply, 4) == wire::word(data, 4)
    &&& reply[2] == 6
    &&& reply.subrange(28, 34) == data.subrange(28, 34)
}

/// Handles a datagram that arrived at the time `now`.
pub fn handle_dhcp_packet_at(server: &mut DhcpServer, data: &[u8], now: i64) -> (r: HandledDatagram)
    requires
        clock::is_timestamp(now as int),
        old(server).config.lease_time <= MAX_LEASE_TIME,
    ensures
        datagram_outcome(old(server)@, old(server).config, data@, now, final(server)@, r),
        r.reply matches Some((b, _)) ==> answers_datagram(data@, b@),
        final(server).config == old(server).config,
        old(server)@.well_formed() ==> final(server)@.well_formed(),
{
    if data.len() > 2 && data[2] > 16 {
        return HandledDatagram { reply: None, store: StoreChange::Keep };
    }
    let bytes = wire::prepare(data);
    match wire::decode_packet(bytes.as_slice()) {
        None => HandledDatagram { reply: None, store: StoreChange::Keep },
        Some(p) => {
            let handled = server.handle_message(&p, now);
            let ghost h = handled@;
            assert(message_outcome(old(server)@, old(server).config, p@, now, server@, h));
            let reply: Option<(Vec<u8>, u32)> = match &handled.reply {
                Some(out) => match wire::encode_reply(&out.0) {
                    Some(bytes) => Some((bytes, out.1)),
                    None => None,
                },
                None => None,
            };
            proof {
                law_reply_answers_its_message(
                    old(server)@,
                    old(server).config,
                    p@,
                    now,
                    server@,
                    h,
                );
                if h.reply is Some {
                    let m = sender(p@);
                    assert(m.bytes() =~= bytes@.subrange(28, 34));
                    assert(bytes@.subrange(28, 34) =~= data@.subrange(28, 34));
                }
            }
            let r = HandledDatagram { reply, store: handled.store };
            assert(message_in(data@)->0 == p@);
            assert(r.store@ == h.store);
            assert(match (h.reply, r.reply) {
                (Some(reply), Some(sent)) => sent.0@ == wire::encoded_reply(reply.0) && sent.1
                    == reply.1,
                (None, None) => true,
                _ => false,
            });
            r
        },
    }
}

/// Handles a datagram at the time that the clock shows.
pub fn handle_dhcp_packet(server: &mut DhcpServer, data: &[u8]) -> (r: HandledDatagram)
    requires
        old(server).config.lease_time <= MAX_LEASE_TIME,
    ensures
        exists|now: i64|
            clock::is_timestamp(now as int) && #[trigger] datagram_outcome(
                old(server)@,
                old(server).config,
                data@,
                now,
                final(server)@,
                r,
            ),
        r.reply matches Some((b, _)) ==> answers_datagram(data@, b@),
        final(server).config == old(server).config,
        old(server)@.well_formed() ==> final(server)@.well_formed(),
{
    let now: i64 = clock::unix_now();
    handle_dhcp_packet_at(server, data, now)
}

} // verus!
