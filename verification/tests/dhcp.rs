use dhcproto::v4::{DhcpOption, DhcpOptions, Message, MessageType, Opcode, OptionCode};
use dhcproto::{Decodable, Decoder, Encodable, Encoder};
use nimbusdns::address::ipv4;
use nimbusdns::config::DhcpConfig;
use nimbusdns::dhcp::exchange::{
    build_ack, build_nak, build_offer, handle_dhcp_packet, handle_dhcp_packet_at, StoreChange,
};
use nimbusdns::dhcp::mac::MacAddr;
use nimbusdns::dhcp::pool::IpPool;
use nimbusdns::dhcp::server::{get_lease_count, get_leases, DhcpServer, Lease, Offer};
use nimbusdns::dhcp::store::{load_persisted_leases, LeaseRow};
use nimbusdns::dhcp::wire::{encode_reply, prepare, DhcpPacket, DhcpReply};
use std::collections::{HashMap, HashSet};

const NOW: i64 = 1_700_000_000;

fn ip(s: &str) -> u32 {
    let p: Vec<u8> = s.split('.').map(|x| x.parse().unwrap()).collect();
    ipv4(p[0], p[1], p[2], p[3])
}

fn pool(start: &str, end: &str) -> IpPool {
    IpPool::new(ip(start), ip(end))
}

fn make_server() -> DhcpServer {
    DhcpServer {
        config: DhcpConfig {
            router: Some(ip("192.168.1.1")),
            netmask: ip("255.255.255.0"),
            lease_time: 86400,
            domain: Some("lan".into()),
            ..Default::default()
        },
        leases: HashMap::new(),
        pool: pool("192.168.1.100", "192.168.1.200"),
        offered: HashMap::new(),
        declined: HashMap::new(),
    }
}

#[test]
fn test_pool_next_available_sequential() {
    let mut p = pool("10.0.0.1", "10.0.0.3");
    assert_eq!(p.next_available(&HashSet::new()), Some(ip("10.0.0.1")));
    assert_eq!(p.next_available(&HashSet::new()), Some(ip("10.0.0.2")));
    assert_eq!(p.next_available(&HashSet::new()), Some(ip("10.0.0.3")));
    assert_eq!(p.next_available(&HashSet::new()), None);
}

#[test]
fn test_pool_skips_allocated() {
    let mut p = pool("10.0.0.1", "10.0.0.3");
    p.mark_allocated(ip("10.0.0.2"));
    assert_eq!(p.next_available(&HashSet::new()), Some(ip("10.0.0.1")));
    assert_eq!(p.next_available(&HashSet::new()), Some(ip("10.0.0.3")));
    assert_eq!(p.next_available(&HashSet::new()), None);
}

#[test]
fn test_pool_skips_declined() {
    let mut p = pool("10.0.0.1", "10.0.0.3");
    let declined = HashSet::from([ip("10.0.0.2")]);
    assert_eq!(p.next_available(&declined), Some(ip("10.0.0.1")));
    assert_eq!(p.next_available(&declined), Some(ip("10.0.0.3")));
    assert_eq!(p.next_available(&declined), None);
}

#[test]
fn test_pool_full() {
    let mut p = pool("10.0.0.1", "10.0.0.2");
    assert!(p.next_available(&HashSet::new()).is_some());
    assert!(p.next_available(&HashSet::new()).is_some());
    assert!(p.next_available(&HashSet::new()).is_none());
}

#[test]
fn test_pool_release() {
    let mut p = pool("10.0.0.1", "10.0.0.1");
    let allocated = p.next_available(&HashSet::new()).unwrap();
    assert_eq!(allocated, ip("10.0.0.1"));
    p.release(allocated);
    assert_eq!(p.next_available(&HashSet::new()), Some(ip("10.0.0.1")));
}

#[test]
fn test_pool_contains_boundaries() {
    let p = pool("10.0.0.10", "10.0.0.20");
    assert!(!p.contains(ip("10.0.0.9")));
    assert!(p.contains(ip("10.0.0.10")));
    assert!(p.contains(ip("10.0.0.15")));
    assert!(p.contains(ip("10.0.0.20")));
    assert!(!p.contains(ip("10.0.0.21")));
}

#[test]
fn test_pool_mark_allocated_out_of_range() {
    let mut p = pool("10.0.0.1", "10.0.0.5");
    p.mark_allocated(ip("10.0.0.255"));
    assert_eq!(p.next_available(&HashSet::new()), Some(ip("10.0.0.1")));
}

fn sample_discover() -> DhcpPacket {
    DhcpPacket {
        xid: 12345,
        flags: 0,
        ciaddr: 0,
        chaddr: vec![0xAA, 0xBB, 0xCC, 0xDD, 0xEE, 0xFF],
        message_type: Some(1),
        requested_ip: None,
        hostname: None,
    }
}

fn on_the_wire(reply: &DhcpReply) -> Message {
    let bytes = encode_reply(reply).unwrap();
    Message::decode(&mut Decoder::new(&bytes)).unwrap()
}

#[test]
fn test_build_offer_timing_options() {
    let server = make_server();
    let offer = on_the_wire(&build_offer(&sample_discover(), ip("192.168.1.50"), &server));
    let opts = offer.opts();
    assert_eq!(opts.get(OptionCode::AddressLeaseTime), Some(&DhcpOption::AddressLeaseTime(86400)));
    assert_eq!(opts.get(OptionCode::Renewal), Some(&DhcpOption::Renewal(43200)));
    assert_eq!(opts.get(OptionCode::Rebinding), Some(&DhcpOption::Rebinding(64800)));
}

#[test]
fn test_build_offer_required_options() {
    let server = make_server();
    let offer = on_the_wire(&build_offer(&sample_discover(), ip("192.168.1.50"), &server));
    let opts = offer.opts();
    assert!(opts.get(OptionCode::SubnetMask).is_some());
    assert!(opts.get(OptionCode::Router).is_some());
    assert!(opts.get(OptionCode::ServerIdentifier).is_some());
    assert_eq!(opts.get(OptionCode::MessageType), Some(&DhcpOption::MessageType(MessageType::Offer)));
    assert_eq!(opts.get(OptionCode::DomainName), Some(&DhcpOption::DomainName("lan".into())));
    assert_eq!(offer.xid(), 12345);
    assert_eq!(offer.opcode(), Opcode::BootReply);
    assert_eq!(offer.chaddr(), &[0xAA, 0xBB, 0xCC, 0xDD, 0xEE, 0xFF]);
}

#[test]
fn test_build_offer_dns_server() {
    let mut server = make_server();
    server.config.dns_server = None;
    let offer = on_the_wire(&build_offer(&sample_discover(), ip("192.168.1.50"), &server));
    let dns = |m: &Message| match m.opts().get(OptionCode::DomainNameServer).unwrap() {
        DhcpOption::DomainNameServer(v) => v.iter().map(|a| u32::from(*a)).collect::<Vec<u32>>(),
        _ => panic!("missing DNS"),
    };
    assert_eq!(dns(&offer), vec![ip("192.168.1.1")]);

    server.config.dns_server = Some(ip("1.1.1.1"));
    let offer = on_the_wire(&build_offer(&sample_discover(), ip("192.168.1.50"), &server));
    assert_eq!(dns(&offer), vec![ip("1.1.1.1")]);
}

#[test]
fn test_build_ack() {
    let server = make_server();
    let ack = on_the_wire(&build_ack(&sample_discover(), ip("192.168.1.50"), &server));
    let opts = ack.opts();
    assert_eq!(opts.get(OptionCode::MessageType), Some(&DhcpOption::MessageType(MessageType::Ack)));
    assert!(opts.get(OptionCode::SubnetMask).is_some());
    assert!(opts.get(OptionCode::Router).is_some());
    assert!(opts.get(OptionCode::ServerIdentifier).is_some());
    assert!(opts.get(OptionCode::AddressLeaseTime).is_some());
    assert_eq!(u32::from(ack.yiaddr()), ip("192.168.1.50"));
}

#[test]
fn test_build_nak() {
    let server = make_server();
    let nak = on_the_wire(&build_nak(&sample_discover(), &server));
    let opts = nak.opts();
    assert_eq!(opts.get(OptionCode::MessageType), Some(&DhcpOption::MessageType(MessageType::Nak)));
    assert!(opts.get(OptionCode::ServerIdentifier).is_some());
    assert_eq!(u32::from(nak.yiaddr()), 0);
}

fn mac_a() -> MacAddr {
    MacAddr(0xAA, 0xBB, 0xCC, 0xDD, 0xEE, 0x01)
}

fn mac_b() -> MacAddr {
    MacAddr(0xAA, 0xBB, 0xCC, 0xDD, 0xEE, 0x02)
}

#[test]
fn test_commit_empty() {
    let mut server = make_server();
    let ok = server.try_commit_lease(mac_a(), ip("192.168.1.50"), 9999999999, None);
    assert!(ok);
    assert!(server.leases.contains_key(&mac_a().key()));
    assert_eq!(server.leases.get(&mac_a().key()).unwrap().ip, ip("192.168.1.50"));
}

#[test]
fn test_commit_conflict() {
    let mut server = make_server();
    assert!(server.try_commit_lease(mac_a(), ip("192.168.1.50"), 9999999999, None));
    assert!(!server.try_commit_lease(mac_b(), ip("192.168.1.50"), 9999999999, None));
    assert_eq!(server.leases.get(&mac_a().key()).unwrap().ip, ip("192.168.1.50"));
    assert!(server.leases.get(&mac_b().key()).is_none());
}

#[test]
fn test_commit_renew() {
    let mut server = make_server();
    assert!(server.try_commit_lease(mac_a(), ip("192.168.1.50"), 100, None));
    assert!(server.try_commit_lease(mac_a(), ip("192.168.1.50"), 9999999999, None));
    assert_eq!(server.leases.get(&mac_a().key()).unwrap().expires_at, 9999999999);
}

#[test]
fn test_commit_concurrent_same_ip_single_winner() {
    // A lock lets one client in at a time; whatever the order, one of them wins.
    let mut server = make_server();
    let mut winners = 0;
    for i in 0..20u8 {
        let mac = MacAddr(i, 0, 0, 0, 0, 0);
        if server.try_commit_lease(mac, ip("192.168.1.50"), 9999999999, None) {
            winners += 1;
        }
    }
    assert_eq!(winners, 1);
    assert_eq!(server.leases.len(), 1);
}

fn lease(address: &str, mac: MacAddr, expires_at: i64) -> Lease {
    Lease { ip: ip(address), mac, hostname: None, expires_at }
}

#[test]
fn test_reclaim_expired_lease() {
    let mut server = make_server();
    server.leases.insert(mac_a().key(), lease("192.168.1.100", mac_a(), 1));
    server.pool.mark_allocated(ip("192.168.1.100"));
    server.reclaim_expired();
    assert!(server.leases.is_empty());
    assert_eq!(server.pool.next_available(&HashSet::new()), Some(ip("192.168.1.100")));
}

#[test]
fn test_reclaim_expired_offer() {
    let mut server = make_server();
    let now = chrono::Utc::now().timestamp();
    server.offered.insert(ip("192.168.1.100"), Offer { expires_at: now - 10, mac: mac_a() });
    server.pool.mark_allocated(ip("192.168.1.100"));
    server.reclaim_expired();
    assert!(server.offered.is_empty());
    assert_eq!(server.pool.next_available(&HashSet::new()), Some(ip("192.168.1.100")));
}

#[test]
fn test_reclaim_expired_declined() {
    let mut server = make_server();
    server.declined.insert(ip("192.168.1.100"), 1);
    server.pool.mark_allocated(ip("192.168.1.100"));
    server.reclaim_expired();
    assert!(server.declined.is_empty());
    assert_eq!(server.pool.next_available(&HashSet::new()), Some(ip("192.168.1.100")));
}

fn datagram(mac: MacAddr, kind: MessageType, requested: Option<&str>, hostname: Option<&str>) -> Vec<u8> {
    let mut msg = Message::default();
    msg.set_xid(77);
    msg.set_opcode(Opcode::BootRequest);
    msg.set_chaddr(&[mac.0, mac.1, mac.2, mac.3, mac.4, mac.5]);
    let mut opts = DhcpOptions::new();
    opts.insert(DhcpOption::MessageType(kind));
    if let Some(r) = requested {
        opts.insert(DhcpOption::RequestedIpAddress(ip(r).into()));
    }
    if let Some(h) = hostname {
        opts.insert(DhcpOption::Hostname(h.to_string()));
    }
    msg.set_opts(opts);
    let mut buf = Vec::new();
    msg.encode(&mut Encoder::new(&mut buf)).unwrap();
    buf
}

fn reply_type(bytes: &[u8]) -> (MessageType, u32) {
    let m = Message::decode(&mut Decoder::new(bytes)).unwrap();
    match m.opts().get(OptionCode::MessageType).unwrap() {
        DhcpOption::MessageType(t) => (*t, u32::from(m.yiaddr())),
        _ => panic!("no type"),
    }
}

#[test]
fn a_client_gets_the_address_that_it_was_offered() {
    let mut server = make_server();
    let out = handle_dhcp_packet_at(&mut server, &datagram(mac_a(), MessageType::Discover, None, None), NOW);
    let (offer, _) = out.reply.unwrap();
    assert_eq!(reply_type(&offer), (MessageType::Offer, ip("192.168.1.100")));
    assert!(matches!(out.store, StoreChange::Keep));

    let ask = datagram(mac_a(), MessageType::Request, Some("192.168.1.100"), Some("laptop"));
    let out = handle_dhcp_packet_at(&mut server, &ask, NOW);
    let (ack, _) = out.reply.unwrap();
    assert_eq!(reply_type(&ack), (MessageType::Ack, ip("192.168.1.100")));
    match out.store {
        StoreChange::Save { mac, ip: saved, hostname, expires_at } => {
            assert_eq!(mac, "aa:bb:cc:dd:ee:01");
            assert_eq!(saved, ip("192.168.1.100"));
            assert_eq!(hostname, "laptop");
            assert_eq!(expires_at, NOW + 86400);
        }
        other => panic!("expected Save, got {:?}", other),
    }

    // Another client is offered the next address, and refused the first one.
    let out = handle_dhcp_packet_at(&mut server, &datagram(mac_b(), MessageType::Discover, None, None), NOW);
    assert_eq!(reply_type(&out.reply.unwrap().0).1, ip("192.168.1.101"));
    let ask = datagram(mac_b(), MessageType::Request, Some("192.168.1.100"), None);
    let out = handle_dhcp_packet_at(&mut server, &ask, NOW);
    assert_eq!(reply_type(&out.reply.unwrap().0).0, MessageType::Nak);

    // A release names the address in the header; one without address changes nothing.
    let mut release = datagram(mac_a(), MessageType::Release, None, None);
    let out = handle_dhcp_packet_at(&mut server, &release, NOW);
    assert!(matches!(out.store, StoreChange::Keep));
    release[12..16].copy_from_slice(&[192, 168, 1, 100]);
    let out = handle_dhcp_packet_at(&mut server, &release, NOW);
    assert!(out.reply.is_none());
    assert!(matches!(out.store, StoreChange::Delete { .. }));
    assert!(!server.leases.contains_key(&mac_a().key()));
}

#[test]
fn a_declined_address_is_kept_back_for_ten_minutes() {
    let mut server = make_server();
    handle_dhcp_packet_at(&mut server, &datagram(mac_a(), MessageType::Discover, None, None), NOW);
    let decline = datagram(mac_a(), MessageType::Decline, Some("192.168.1.100"), None);
    assert!(handle_dhcp_packet_at(&mut server, &decline, NOW).reply.is_none());
    assert_eq!(server.declined.get(&ip("192.168.1.100")), Some(&(NOW + 600)));
    let out = handle_dhcp_packet_at(&mut server, &datagram(mac_b(), MessageType::Discover, None, None), NOW);
    assert_eq!(reply_type(&out.reply.unwrap().0).1, ip("192.168.1.101"));
}

#[test]
fn what_is_no_message_is_ignored() {
    let mut server = make_server();
    assert!(handle_dhcp_packet(&mut server, &[1, 2, 3]).reply.is_none());
    let mut long_hardware = datagram(mac_a(), MessageType::Discover, None, None);
    long_hardware[2] = 17;
    assert!(handle_dhcp_packet(&mut server, &long_hardware).reply.is_none());
    assert!(server.offered.is_empty());
}

// A request for an address with more options, each a code and its bytes, before the end mark.
fn with_options(more: &[u8]) -> Vec<u8> {
    let mut bytes = datagram(mac_a(), MessageType::Discover, None, None);
    assert_eq!(bytes.pop(), Some(255));
    bytes.extend_from_slice(more);
    bytes.push(255);
    bytes
}

#[test]
fn options_of_the_wrong_length_do_not_matter() {
    let more: [&[u8]; 17] = [
        &[80, 1, 0],
        &[81, 2, 0, 0],
        &[94, 2, 1, 3],
        &[152, 3, 1, 2, 3],
        &[153, 5, 1, 2, 3, 4, 5],
        &[154, 0],
        &[155, 2, 0, 0],
        &[94, 3, 1, 3, 16, 94, 1, 0],
        // An option that cannot be read, and ill-sized ones behind it.
        &[1, 3, 0, 0, 0, 80, 1, 0, 81, 0],
        // Options as they should be.
        &[80, 0],
        &[81, 3, 0, 0, 0],
        &[94, 3, 1, 3, 16],
        &[152, 4, 0, 0, 0, 9],
        &[0, 0, 155, 4, 0, 0, 0, 9],
        &[153, 2, 0, 0, 153, 2, 0, 9],
        // Behind the end mark, or in an option that is cut off, nothing is read.
        &[255, 80, 1, 0],
        &[200, 255, 80, 1, 0],
    ];
    for options in more {
        let mut server = make_server();
        let bytes = with_options(options);
        let (offer, _) = handle_dhcp_packet_at(&mut server, &bytes, NOW).reply.unwrap();
        assert_eq!(reply_type(&offer), (MessageType::Offer, ip("192.168.1.100")));
    }
}

#[test]
fn a_request_with_odd_options_is_answered() {
    let mut ask = datagram(mac_a(), MessageType::Inform, None, None);
    ask.truncate(240);
    ask.extend_from_slice(&[53, 1, 3, 80, 2, 1, 1, 50, 4, 192, 168, 1, 150]);
    ask.extend_from_slice(&[1, 3, 0, 0, 0, 80, 1, 0, 255]);
    let mut server = make_server();
    let (ack, _) = handle_dhcp_packet_at(&mut server, &ask, NOW).reply.unwrap();
    assert_eq!(reply_type(&ack), (MessageType::Ack, ip("192.168.1.150")));
    assert_eq!(server.leases.len(), 1);
    // Behind an option that holds too little, nothing is read: no address is asked for.
    ask.truncate(240);
    ask.extend_from_slice(&[53, 1, 3, 94, 1, 0, 50, 4, 192, 168, 1, 150, 255]);
    let mut server = make_server();
    assert!(handle_dhcp_packet_at(&mut server, &ask, NOW).reply.is_none());
    // Behind one that holds too much, it is.
    ask.truncate(240);
    ask.extend_from_slice(&[53, 1, 3, 94, 4, 0, 0, 0, 0, 50, 4, 192, 168, 1, 150, 255]);
    let (ack, _) = handle_dhcp_packet_at(&mut server, &ask, NOW).reply.unwrap();
    assert_eq!(reply_type(&ack), (MessageType::Ack, ip("192.168.1.150")));
}

#[test]
fn datagrams_are_prepared() {
    let cases: [(&[u8], &[u8]); 7] = [
        (&[53, 1, 3, 80, 1, 9, 255], &[53, 1, 3, 0, 0, 0, 255]),
        (&[94, 1, 7, 94, 3, 1, 1, 1, 0, 255], &[0, 0, 0, 0, 0, 0, 0, 0, 0, 255]),
        (&[94, 1, 7, 94, 2, 1, 1, 255], &[94, 1, 7, 94, 2, 1, 1, 255]),
        (&[12, 1, 65, 81, 2, 0, 0, 80, 1, 0], &[12, 1, 65, 255, 2, 0, 0, 80, 1, 0]),
        (&[152, 5, 1, 2, 3, 4, 5, 155, 3, 1, 2, 3], &[0, 0, 0, 0, 0, 0, 0, 255, 3, 1, 2, 3]),
        (&[80, 9, 1], &[80, 9, 1]),
        (&[255, 80, 1, 0], &[255, 80, 1, 0]),
    ];
    for (options, want) in cases {
        let mut bytes = vec![7u8; 240];
        bytes.extend_from_slice(options);
        let mut wanted = vec![7u8; 240];
        wanted.extend_from_slice(want);
        assert_eq!(prepare(&bytes), wanted);
        assert_eq!(prepare(&wanted), wanted);
    }
    assert_eq!(prepare(&[80, 1, 0]), vec![80, 1, 0]);
}

#[test]
fn replies_have_the_transaction_and_the_hardware_address() {
    let mut server = make_server();
    let ask = datagram(mac_a(), MessageType::Discover, None, None);
    let (reply, to) = handle_dhcp_packet_at(&mut server, &ask, NOW).reply.unwrap();
    assert_eq!(reply[4..8], ask[4..8]);
    assert_eq!(reply[28..34], ask[28..34]);
    assert_eq!((reply[0], reply[2]), (2, 6));
    assert_eq!(reply[16..20], [192, 168, 1, 100]);
    assert_eq!(to, 0xffff_ffff);
    // Asked again, the server repeats its offer.
    let (again, _) = handle_dhcp_packet_at(&mut server, &ask, NOW + 29).reply.unwrap();
    assert_eq!(reply_type(&again).1, ip("192.168.1.100"));
}

#[test]
fn leases_are_listed_while_they_last() {
    let mut server = make_server();
    server.leases.insert(mac_a().key(), lease("192.168.1.100", mac_a(), NOW + 10));
    server.leases.insert(mac_b().key(), lease("192.168.1.101", mac_b(), NOW - 10));
    let listed = server.get_leases_at(NOW);
    assert_eq!(listed.len(), 1);
    assert_eq!(listed[0].mac, mac_a());
    assert_eq!(server.get_lease_count_at(NOW), 1);
    assert!(get_leases(&mut server).is_empty());
    assert_eq!(get_lease_count(&mut server), 0);
}

#[test]
fn kept_leases_are_taken_up_again() {
    let row = |mac: &str, address: &str, hostname: &str, expires_at: i64| LeaseRow {
        mac: mac.to_string(),
        ip: ip(address),
        hostname: hostname.to_string(),
        expires_at,
    };
    let rows = vec![
        row("aa:bb:cc:dd:ee:01", "192.168.1.150", "laptop", NOW + 50),
        row("aa:bb:cc:dd:ee:02", "192.168.1.151", "", NOW - 50),
        row("nonsense", "192.168.1.152", "", NOW + 50),
    ];
    let kept = load_persisted_leases(&rows, ip("192.168.1.100"), ip("192.168.1.200"), NOW);
    assert_eq!(kept.len(), 1);
    assert_eq!(kept[&mac_a().key()].hostname.as_deref(), Some("laptop"));
    let mut server = DhcpServer::start_with(make_server().config, &rows, NOW);
    assert_eq!(server.leases.len(), 1);
    assert_eq!(server.get_leases_at(NOW)[0].ip, ip("192.168.1.150"));
}

#[test]
fn hardware_addresses_are_written_and_read() {
    assert_eq!(mac_a().to_text(), "aa:bb:cc:dd:ee:01");
    assert_eq!(MacAddr::from_text("aa:bb:cc:dd:ee:01"), Some(mac_a()));
    assert_eq!(MacAddr::from_text("aa:bb:cc"), None);
    assert_eq!(mac_a().key(), 0xAABB_CCDD_EE01);
}
