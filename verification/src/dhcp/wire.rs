//! DHCP messages as plain values, and their form on the wire.

use crate::dhcp::mac::MacAddr;
use crate::text::optional;
use dhcproto::v4::DhcpOption::{
    AddressLeaseTime, DomainName, DomainNameServer, Hostname, MessageType, Rebinding, Renewal,
    RequestedIpAddress, Router, ServerIdentifier, SubnetMask,
};
use dhcproto::v4::{Message, OptionCode};
use dhcproto::{Decodable, Decoder, Encodable};
use vstd::prelude::*;

verus! {

/// The code of a DISCOVER message.
pub const DISCOVER: u8 = 1;

/// The code of an OFFER message.
pub const OFFER: u8 = 2;

/// The code of a REQUEST message.
pub const REQUEST: u8 = 3;

/// The code of a DECLINE message.
pub const DECLINE: u8 = 4;

/// The code of an ACK message.
pub const ACK: u8 = 5;

/// The code of a NAK message.
pub const NAK: u8 = 6;

/// The code of a RELEASE message.
pub const RELEASE: u8 = 7;

/// The operation of a message that a server sends.
pub const BOOT_REPLY: u8 = 2;

/// What the server reads of a message. Addresses are numbers, as in `address`.
#[derive(Debug, Clone)]
pub struct DhcpPacket {
    pub xid: u32,
    pub flags: u16,
    /// The address that the client has; zero for none.
    pub ciaddr: u32,
    /// The hardware address of the client.
    pub chaddr: Vec<u8>,
    pub message_type: Option<u8>,
    pub requested_ip: Option<u32>,
    pub hostname: Option<String>,
}

/// The contents of a `DhcpPacket`.
#[verifier::ext_equal]
pub struct PacketView {
    pub xid: u32,
    pub flags: u16,
    pub ciaddr: u32,
    pub chaddr: Seq<u8>,
    pub message_type: Option<u8>,
    pub requested_ip: Option<u32>,
    pub hostname: Option<Seq<char>>,
}

impl View for DhcpPacket {
    type V = PacketView;

    open spec fn view(&self) -> PacketView {
        PacketView {
            xid: self.xid,
            flags: self.flags,
            ciaddr: self.ciaddr,
            chaddr: self.chaddr@,
            message_type: self.message_type,
            requested_ip: self.requested_ip,
            hostname: optional(self.hostname),
        }
    }
}

/// What a client learns with an address.
#[derive(Debug, Clone)]
pub struct LeaseTerms {
    pub subnet_mask: u32,
    pub dns_server: u32,
    pub router: u32,
    pub lease_time: u32,
    pub renewal: u32,
    pub rebinding: u32,
    pub domain: Option<String>,
}

/// The contents of `LeaseTerms`.
#[verifier::ext_equal]
pub struct TermsView {
    pub subnet_mask: u32,
    pub dns_server: u32,
    pub router: u32,
    pub lease_time: u32,
    pub renewal: u32,
    pub rebinding: u32,
    pub domain: Option<Seq<char>>,
}

impl View for LeaseTerms {
    type V = TermsView;

    open spec fn view(&self) -> TermsView {
        TermsView {
            subnet_mask: self.subnet_mask,
            dns_server: self.dns_server,
            router: self.router,
            lease_time: self.lease_time,
            renewal: self.renewal,
            rebinding: self.rebinding,
            domain: optional(self.domain),
        }
    }
}

/// What every message of the server holds. `server` is both the server's address in the header and
/// its identifier among the options.
#[derive(Debug, Clone, Copy, PartialEq, Eq, Structural)]
pub struct ReplyHead {
    pub opcode: u8,
    pub xid: u32,
    pub flags: u16,
    pub yiaddr: u32,
    pub server: u32,
    pub message_type: u8,
}

/// A message of the server.
#[derive(Debug, Clone)]
pub struct DhcpReply {
    pub head: ReplyHead,
    pub mac: MacAddr,
    pub terms: Option<LeaseTerms>,
}

/// The contents of a `DhcpReply`.
#[verifier::ext_equal]
pub struct ReplyView {
    pub head: ReplyHead,
    pub mac: MacAddr,
    pub terms: Option<TermsView>,
}

impl View for DhcpReply {
    type V = ReplyView;

    open spec fn view(&self) -> ReplyView {
        ReplyView {
            head: self.head,
            mac: self.mac,
            terms: match self.terms {
                Some(t) => Some(t@),
                None => None,
            },
        }
    }
}

/// The number that four bytes make from the place `i` on, the first one highest.
pub open spec fn word(b: Seq<u8>, i: int) -> int {
    b[i] * 0x100_0000 + b[i + 1] * 0x1_0000 + b[i + 2] * 0x100 + b[i + 3]
}

/// The datagram is long enough for the fixed part of a message, in which the transaction, the
/// client's address and the hardware address stand where the packet has them.
pub open spec fn holds_packet(b: Seq<u8>, p: PacketView) -> bool {
    &&& b.len() >= 240
    &&& word(b, 4) == p.xid
    &&& word(b, 12) == p.ciaddr
    &&& p.chaddr == b.subrange(28, 28 + b[2])
}

/// The datagram starts with the fixed part of a message, in which the operation, the transaction,
/// the address for the client, the server's address and the hardware address stand in their places.
pub open spec fn holds_reply(b: Seq<u8>, p: ReplyHead, chaddr: Seq<u8>) -> bool {
    &&& b.len() >= 240
    &&& b[0] == p.opcode
    &&& b[2] == chaddr.len()
    &&& word(b, 4) == p.xid
    &&& word(b, 16) == p.yiaddr
    &&& word(b, 20) == p.server
    &&& chaddr == b.subrange(28, 28 + chaddr.len() as int)
}

/// The options from the place `i` on that have the code `code`, one behind the other: where they
/// end, and how many bytes they hold together with the `held` before. None where one of them is cut
/// off.
pub open spec fn option_run(b: Seq<u8>, i: int, code: u8, held: int) -> Option<(int, int)>
    decreases b.len() - i,
{
    if i >= b.len() || b[i] != code {
        Some((i, held))
    } else if i + 1 >= b.len() || i + 2 + b[i + 1] > b.len() {
        None
    } else {
        option_run(b, i + 2 + b[i + 1], code, held + b[i + 1])
    }
}

/// Options with the code may hold so many bytes together. Some codes have a length of their own:
/// 80 (rapid commit) none, 81 (client name) at least three, 94 (client network interface) three,
/// and 152 to 155 (times of a lease query) four.
pub open spec fn option_fits(code: u8, held: int) -> bool {
    &&& code == 80 ==> held == 0
    &&& code == 81 ==> held >= 3
    &&& code == 94 ==> held == 3
    &&& 152 <= code <= 155 ==> held == 4
}

/// The options from the place `i` on have the lengths that their codes ask for, up to the end mark
/// (255) or to an option that is cut off. A zero is no option; options with one code, one behind
/// the other, are taken together.
pub open spec fn options_fit(b: Seq<u8>, i: int) -> bool
    decreases b.len() - i,
{
    if i < 0 || i >= b.len() || b[i] == 255 {
        true
    } else if b[i] == 0 {
        options_fit(b, i + 1)
    } else {
        match option_run(b, i, b[i], 0) {
            None => true,
            Some((end, held)) => option_fits(b[i], held) && (i < end <= b.len() ==> options_fit(
                b,
                end,
            )),
        }
    }
}

/// Where the options of a message start.
pub const OPTIONS_START: usize = 240;

/// The datagram can be given to the decoder: it names a hardware address of at most sixteen bytes,
/// and its options have the lengths that their codes ask for.
pub open spec fn decodable(data: Seq<u8>) -> bool {
    &&& data.len() > 2 ==> data[2] <= 16
    &&& options_fit(data, OPTIONS_START as int)
}

/// Options with the code hold too few bytes to be read.
pub open spec fn option_too_short(code: u8, held: int) -> bool {
    ||| (code == 81 || code == 94) && held < 3
    ||| 152 <= code <= 155 && held < 4
}

/// Options with the code hold more bytes than are read.
pub open spec fn option_too_long(code: u8, held: int) -> bool {
    ||| code == 80 && held > 0
    ||| code == 94 && held > 3
    ||| 152 <= code <= 155 && held > 4
}

/// The bytes with zeros from the place `i` up to the place `end`.
pub open spec fn blanked(b: Seq<u8>, i: int, end: int) -> Seq<u8> {
    Seq::new(
        b.len(),
        |k: int|
            if i <= k < end {
                0u8
            } else {
                b[k]
            },
    )
}

/// The datagram with its options from the place `i` on prepared for the decoder. Options that hold
/// more than is read of them give way to zeros; they say nothing that matters here. The first that
/// hold too little give way to the end mark, since nothing behind them is read.
pub open spec fn prepared_from(b: Seq<u8>, i: int) -> Seq<u8>
    decreases b.len() - i,
{
    if i < 0 || i >= b.len() || b[i] == 255 {
        b
    } else if b[i] == 0 {
        prepared_from(b, i + 1)
    } else {
        match option_run(b, i, b[i], 0) {
            None => b,
            Some((end, held)) => if !(i < end <= b.len()) {
                b
            } else if option_too_short(b[i], held) {
                b.update(i, 255)
            } else if option_too_long(b[i], held) {
                prepared_from(blanked(b, i, end), end)
            } else {
                prepared_from(b, end)
            },
        }
    }
}

/// The datagram as it is given to the decoder.
pub open spec fn prepared(data: Seq<u8>) -> Seq<u8> {
    prepared_from(data, OPTIONS_START as int)
}

/// Options with one code end behind the first of them.
proof fn lemma_run_advances(b: Seq<u8>, i: int, code: u8, held: int)
    requires
        0 <= i <= b.len(),
    ensures
        option_run(b, i, code, held) matches Some((end, n)) ==> {
            &&& i <= end <= b.len()
            &&& n >= held
            &&& i < b.len() && b[i] == code ==> i < end
        },
    decreases b.len() - i,
{
    if i < b.len() && b[i] == code && i + 1 < b.len() && i + 2 + b[i + 1] <= b.len() {
        lemma_run_advances(b, i + 2 + b[i + 1], code, held + b[i + 1]);
    }
}

/// Where the options with the code of the one at the place `start` end, and how many bytes they
/// hold.
fn run_of(data: &[u8], start: usize) -> (r: Option<(usize, u64)>)
    requires
        start < data@.len(),
    ensures
        match r {
            Some((end, held)) => option_run(data@, start as int, data@[start as int], 0) == Some(
                (end as int, held as int),
            ) && start < end <= data@.len(),
            None => option_run(data@, start as int, data@[start as int], 0) is None,
        },
{
    let code: u8 = data[start];
    let mut i: usize = start;
    let mut held: u64 = 0;
    proof {
        lemma_run_advances(data@, start as int, code, 0);
    }
    while i < data.len() && data[i] == code
        invariant
            start <= i <= data@.len(),
            held <= i - start,
            option_run(data@, start as int, code, 0) == option_run(
                data@,
                i as int,
                code,
                held as int,
            ),
        decreases data@.len() - i,
    {
        if data.len() - i < 2 || data.len() - i - 2 < data[i + 1] as usize {
            return None;
        }
        held = held + data[i + 1] as u64;
        i = i + 2 + data[i + 1] as usize;
    }
    Some((i, held))
}

/// The run of options is the same in bytes that are the same up to its end and do not go on with
/// its code.
proof fn lemma_same_run(b: Seq<u8>, c: Seq<u8>, i: int, code: u8, held: int, end: int, n: int)
    requires
        0 <= i,
        b.len() == c.len(),
        option_run(b, i, code, held) == Some((end, n)),
        forall|k: int| 0 <= k < end && k < b.len() ==> c[k] == b[k],
        end < c.len() ==> c[end] != code,
    ensures
        option_run(c, i, code, held) == Some((end, n)),
    decreases b.len() - i,
{
    if i < b.len() && b[i] == code {
        let next = i + 2 + b[i + 1];
        lemma_run_advances(b, next, code, held + b[i + 1]);
        assert(c[i] == b[i] && c[i + 1] == b[i + 1]);
        lemma_same_run(b, c, next, code, held + b[i + 1], end, n);
    }
}

/// Zeros are passed over.
proof fn lemma_zeros_fit(b: Seq<u8>, i: int, end: int)
    requires
        0 <= i <= end <= b.len(),
        forall|k: int| i <= k < end ==> b[k] == 0,
        options_fit(b, end),
    ensures
        options_fit(b, i),
    decreases end - i,
{
    if i < end {
        lemma_zeros_fit(b, i + 1, end);
    }
}

/// What is prepared has the same length, is the same before its place, and fits from there on.
proof fn lemma_prepared(b: Seq<u8>, i: int)
    requires
        0 <= i,
    ensures
        prepared_from(b, i).len() == b.len(),
        forall|k: int| 0 <= k < i && k < b.len() ==> prepared_from(b, i)[k] == b[k],
        i < b.len() ==> {
            let first = prepared_from(b, i)[i];
            first == b[i] || first == 0 || first == 255
        },
        options_fit(prepared_from(b, i), i),
    decreases b.len() - i,
{
    if i < b.len() && b[i] != 255 {
        if b[i] == 0 {
            lemma_prepared(b, i + 1);
            assert(prepared_from(b, i)[i] == 0);
        } else {
            lemma_run_advances(b, i, b[i], 0);
            match option_run(b, i, b[i], 0) {
                None => {},
                Some((end, held)) => {
                    if option_too_short(b[i], held) {
                        assert(prepared_from(b, i)[i] == 255);
                    } else if option_too_long(b[i], held) {
                        let z = blanked(b, i, end);
                        lemma_prepared(z, end);
                        let p = prepared_from(z, end);
                        assert forall|k: int| i <= k < end implies p[k] == 0 by {
                            assert(z[k] == 0);
                        }
                        assert forall|k: int| 0 <= k < i implies p[k] == b[k] by {
                            assert(z[k] == b[k]);
                        }
                        lemma_zeros_fit(p, i, end);
                    } else {
                        lemma_prepared(b, end);
                        let p = prepared_from(b, end);
                        if end < b.len() {
                            lemma_run_ends(b, i, b[i], 0);
                        }
                        lemma_same_run(b, p, i, b[i], 0, end, held);
                        assert(p[i] == b[i]);
                    }
                },
            }
        }
    }
}

/// A run of options does not go on behind its end.
proof fn lemma_run_ends(b: Seq<u8>, i: int, code: u8, held: int)
    requires
        0 <= i,
    ensures
        option_run(b, i, code, held) matches Some((end, _)) ==> (end < b.len() ==> b[end] != code),
    decreases b.len() - i,
{
    if i < b.len() && b[i] == code && i + 1 < b.len() && i + 2 + b[i + 1] <= b.len() {
        lemma_run_ends(b, i + 2 + b[i + 1], code, held + b[i + 1]);
    }
}

/// Puts zeros from the place `start` up to the place `end`.
fn blank(b: &mut Vec<u8>, start: usize, end: usize)
    requires
        start <= end <= old(b)@.len(),
    ensures
        final(b)@ == blanked(old(b)@, start as int, end as int),
{
    let mut k: usize = start;
    while k < end
        invariant
            start <= k <= end <= b@.len(),
            b@ == blanked(old(b)@, start as int, k as int),
        decreases end - k,
    {
        b.set(k, 0);
        k += 1;
        assert(b@ =~= blanked(old(b)@, start as int, k as int));
    }
    assert(b@ =~= blanked(old(b)@, start as int, end as int));
}

/// The same bytes.
fn copied(data: &[u8]) -> (r: Vec<u8>)
    ensures
        r@ == data@,
{
    let mut out: Vec<u8> = Vec::new();
    let mut i: usize = 0;
    while i < data.len()
        invariant
            i <= data@.len(),
            out@ == data@.subrange(0, i as int),
        decreases data@.len() - i,
    {
        out.push(data[i]);
        i += 1;
        assert(out@ =~= data@.subrange(0, i as int));
    }
    assert(out@ =~= data@);
    out
}

/// Prepares a datagram for the decoder, which cannot take options of the wrong length. The fixed part
/// of the message is left as it is.
pub fn prepare(data: &[u8]) -> (r: Vec<u8>)
    ensures
        r@ == prepared(data@),
        r@.len() == data@.len(),
        forall|k: int| 0 <= k < OPTIONS_START && k < data@.len() ==> r@[k] == data@[k],
        options_fit(r@, OPTIONS_START as int),
{
    let mut out: Vec<u8> = copied(data);
    proof {
        lemma_prepared(data@, OPTIONS_START as int);
    }
    let mut i: usize = OPTIONS_START;
    while i < out.len() && out[i] != 255
        invariant
            i >= OPTIONS_START,
            prepared(data@) == prepared_from(out@, i as int),
            prepared(data@).len() == data@.len(),
            forall|k: int|
                0 <= k < OPTIONS_START && k < data@.len() ==> prepared(data@)[k] == data@[k],
            options_fit(prepared(data@), OPTIONS_START as int),
        decreases out@.len() - i,
    {
        if out[i] == 0 {
            i += 1;
        } else {
            let code: u8 = out[i];
            match run_of(out.as_slice(), i) {
                None => {
                    return out;
                },
                Some((end, held)) => {
                    if ((code == 81 || code == 94) && held < 3) || (152 <= code && code <= 155 && held
                        < 4) {
                        out.set(i, 255);
                        return out;
                    }
                    if (code == 80 && held > 0) || (code == 94 && held > 3) || (152 <= code && code
                        <= 155 && held > 4) {
                        blank(&mut out, i, end);
                    }
                    i = end;
                },
            }
        }
    }
    out
}

/// A datagram whose options have the lengths that their codes ask for is given to the decoder as it
/// is.
pub proof fn law_fitting_options_are_left(b: Seq<u8>, i: int)
    requires
        0 <= i,
        options_fit(b, i),
    ensures
        prepared_from(b, i) == b,
    decreases b.len() - i,
{
    if i < b.len() && b[i] != 255 {
        if b[i] == 0 {
            law_fitting_options_are_left(b, i + 1);
        } else {
            lemma_run_advances(b, i, b[i], 0);
            match option_run(b, i, b[i], 0) {
                None => {},
                Some((end, _)) => law_fitting_options_are_left(b, end),
            }
        }
    }
}

/// What was prepared once is not changed by preparing it again, and its fixed part is that of the
/// datagram.
pub proof fn law_prepared_once_is_enough(data: Seq<u8>)
    ensures
        prepared(prepared(data)) == prepared(data),
        prepared(data).len() == data.len(),
        forall|k: int| 0 <= k < OPTIONS_START && k < data.len() ==> prepared(data)[k] == data[k],
{
    lemma_prepared(data, OPTIONS_START as int);
    law_fitting_options_are_left(prepared(data), OPTIONS_START as int);
}

/// What `dhcproto::v4::Message::decode` reads from a datagram; none where it is no message.
pub uninterp spec fn decoded_packet(data: Seq<u8>) -> Option<PacketView>;

/// The bytes that a `dhcproto::v4::Message` with the given head, hardware address and terms is
/// encoded to.
pub uninterp spec fn encoded_grant(head: ReplyHead, chaddr: Seq<u8>, terms: TermsView) -> Seq<u8>;

/// The bytes that a `dhcproto::v4::Message` with the given head and hardware address is encoded
/// to.
pub uninterp spec fn encoded_refusal(head: ReplyHead, chaddr: Seq<u8>) -> Seq<u8>;

/// `dhcproto::v4::Message::decode` on the datagram, and the fields of the message that it finds.
/// The transaction, the client's address and the hardware address stand at fixed places.
/// The length of the hardware address is the third byte of the datagram; the message has room for
/// sixteen bytes of it, and its accessor panics on a greater length. Built with debug assertions,
/// the decoder also panics on an option of the wrong length among those that `option_fits` names.
/// On every other datagram it returns.
#[verifier::external_body]
pub(crate) fn decode_packet(data: &[u8]) -> (r: Option<DhcpPacket>)
    requires
        decodable(data@),
    ensures
        match r {
            Some(p) => decoded_packet(data@) == Some(p@),
            None => decoded_packet(data@) is None,
        },
        r matches Some(p) ==> holds_packet(data@, p@),
{
    let m = Message::decode(&mut Decoder::new(data)).ok()?;
    Some(DhcpPacket {
        xid: m.xid(),
        flags: m.flags().into(),
        ciaddr: m.ciaddr().into(),
        chaddr: m.chaddr().to_vec(),
        message_type: m.opts().msg_type().map(|t| t.into()),
        requested_ip: match m.opts().get(OptionCode::RequestedIpAddress) {
            Some(RequestedIpAddress(a)) => Some((*a).into()),
            _ => None,
        },
        hostname: match m.opts().get(OptionCode::Hostname) {
            Some(Hostname(h)) => Some(h.clone()),
            _ => None,
        } })
}

/// `dhcproto`'s encoding of a `Message` with the given head and hardware address and, for its
/// options, the message type, the server identifier and the terms. It succeeds on every such
/// message, and the bytes are a function of the arguments; the head and the hardware address stand
/// at fixed places.
#[verifier::external_body]
fn encode_grant(p: &ReplyHead, chaddr: &Vec<u8>, t: &LeaseTerms) -> (r: Option<Vec<u8>>)
    ensures
        r is Some,
        r->0@ == encoded_grant(*p, chaddr@, t@),
        chaddr@.len() <= 16 ==> holds_reply(r->0@, *p, chaddr@),
{
    let options = [
        MessageType(p.message_type.into()), ServerIdentifier(p.server.into()),
        SubnetMask(t.subnet_mask.into()), DomainNameServer(vec![t.dns_server.into()]),
        Router(vec![t.router.into()]), AddressLeaseTime(t.lease_time),
        Renewal(t.renewal), Rebinding(t.rebinding),
    ];
    let mut m = Message::default();
    m.set_opcode(p.opcode.into()).set_xid(p.xid).set_flags(p.flags.into()).set_chaddr(chaddr);
    m.set_yiaddr(p.yiaddr).set_siaddr(p.server);
    m.set_opts(options.into_iter().chain(t.domain.clone().map(DomainName)).collect());
    m.to_vec().ok()
}

/// `dhcproto`'s encoding of a `Message` with the given head and hardware address and, for its
/// options, the message type and the server identifier. It succeeds on every such message, and the
/// bytes are a function of the arguments; the head and the hardware address stand at fixed places.
#[verifier::external_body]
fn encode_refusal(p: &ReplyHead, chaddr: &Vec<u8>) -> (r: Option<Vec<u8>>)
    ensures
        r is Some,
        r->0@ == encoded_refusal(*p, chaddr@),
        chaddr@.len() <= 16 ==> holds_reply(r->0@, *p, chaddr@),
{
    let options = [MessageType(p.message_type.into()), ServerIdentifier(p.server.into())];
    let mut m = Message::default();
    m.set_opcode(p.opcode.into()).set_xid(p.xid).set_flags(p.flags.into()).set_chaddr(chaddr);
    m.set_yiaddr(p.yiaddr).set_siaddr(p.server).set_opts(options.into_iter().collect());
    m.to_vec().ok()
}

/// The form of a reply on the wire.
pub open spec fn encoded_reply(reply: ReplyView) -> Seq<u8> {
    match reply.terms {
        Some(t) => encoded_grant(reply.head, reply.mac.bytes(), t),
        None => encoded_refusal(reply.head, reply.mac.bytes()),
    }
}

/// Writes a reply in its form on the wire.
pub fn encode_reply(reply: &DhcpReply) -> (r: Option<Vec<u8>>)
    ensures
        r is Some,
        r->0@ == encoded_reply(reply@),
        holds_reply(r->0@, reply@.head, reply@.mac.bytes()),
{
    let m = reply.mac;
    let chaddr: Vec<u8> = vec![m.0, m.1, m.2, m.3, m.4, m.5];
    assert(chaddr@ =~= m.bytes());
    match &reply.terms {
        Some(t) => encode_grant(&reply.head, &chaddr, t),
        None => encode_refusal(&reply.head, &chaddr),
    }
}

/// What becomes of the options at a place of a datagram. Options whose length the decoder does not ask
/// for are left. Those with the code 80 that hold bytes, with the code 94 that hold more than three, and
/// with the codes 152 to 155 that hold more than four are zeros afterwards. Those with the codes 81 and
/// 94 that hold fewer than three bytes, and with the codes 152 to 155 that hold fewer than four, start
/// with the end mark.
pub proof fn law_options_are_prepared_by_their_code(b: Seq<u8>, i: int, k: int)
    requires
        0 <= i < b.len(),
        b[i] != 0,
        b[i] != 255,
        option_run(b, i, b[i], 0) is Some,
        i <= k < (option_run(b, i, b[i], 0)->0).0,
    ensures
        ({
            let code = b[i];
            let held = (option_run(b, i, code, 0)->0).1;
            let p = prepared_from(b, i);
            let timed = 152 <= code <= 155;
            &&& p.len() == b.len()
            &&& code != 80 && code != 81 && code != 94 && !timed ==> p[k] == b[k]
            &&& code == 80 && held == 0 ==> p[k] == b[k]
            &&& code == 80 && held > 0 ==> p[k] == 0
            &&& code == 94 && held == 3 ==> p[k] == b[k]
            &&& code == 94 && held > 3 ==> p[k] == 0
            &&& timed && held == 4 ==> p[k] == b[k]
            &&& timed && held > 4 ==> p[k] == 0
            &&& code == 81 && held >= 3 ==> p[k] == b[k]
            &&& (code == 81 || code == 94) && held < 3 ==> p[i] == 255
            &&& timed && held < 4 ==> p[i] == 255
        }),
{
    lemma_run_advances(b, i, b[i], 0);
    let (end, held) = option_run(b, i, b[i], 0)->0;
    lemma_prepared(b, end);
    let z = blanked(b, i, end);
    lemma_prepared(z, end);
    assert(z[k] == 0);
}

/// The options with one code that stand one behind the other are taken together: each is its code, its
/// length, and so many bytes.
pub proof fn law_options_with_one_code_are_taken_together(b: Seq<u8>, i: int, held: int)
    requires
        0 <= i,
        i + 1 < b.len(),
        i + 2 + b[i + 1] <= b.len(),
    ensures
        option_run(b, i, b[i], held) == option_run(
            b,
            i + 2 + b[i + 1],
            b[i],
            held + b[i + 1],
        ),
        forall|code: u8| code != b[i] ==> option_run(b, i, code, held) == Some((i, held)),
        option_run(b, b.len() as int, b[i], held) == Some((b.len() as int, held)),
{
}

} // verus!
