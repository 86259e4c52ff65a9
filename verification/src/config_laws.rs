//! What holds of the configuration, whatever it is read from.

use crate::address::{IpAddr, SocketAddr};
use crate::config::{
    entries, entry_fields, entry_is_tls, env_key, env_outcome, env_setting, first_http, is_upstream,
    named_mode, parse_blocking_mode, port_entries, upstream_addresses, upstream_entries,
    upstreams_outcome, variable_outcome, variables_outcome, web_port, web_ports, AddressReading,
    BlockingMode, Config, ConfigError, DatabaseConfig, DnsUpstream, EnvKey, EnvVariable, Place,
    WebPort, WebServerConfig,
};
use crate::text;
use vstd::prelude::*;

verus! {

broadcast use vstd::string::group_string_axioms;

/// Each setting has its own names, and a name is that of one setting: the one under which it is
/// listed here. Any other name is that of none.
pub proof fn law_settings_have_their_names(k: Seq<char>)
    ensures
        env_key(k) == EnvKey::DnsUpstreams ==> k == "dns_upstreams"@,
        env_key(k) == EnvKey::DnsBlockingMode ==> k == "dns_blocking_mode"@ || k
            == "dns_blockingMode"@,
        env_key(k) == EnvKey::DnsRateLimit ==> k == "dns_rate_limit"@ || k == "dns_rateLimit"@,
        env_key(k) == EnvKey::DnsPort ==> k == "dns_port"@,
        env_key(k) == EnvKey::DnsBind ==> k == "dns_bind"@,
        env_key(k) == EnvKey::DnsBlockingIp ==> k == "dns_blocking_ip"@ || k == "dns_blockingIp"@,
        env_key(k) == EnvKey::DnsQueryLog ==> k == "dns_query_log"@,
        env_key(k) == EnvKey::WebserverPort ==> k == "webserver_port"@,
        env_key(k) == EnvKey::DhcpEnabled ==> k == "dhcp_enabled"@,
        env_key(k) == EnvKey::DhcpPoolStart ==> k == "dhcp_pool_start"@ || k == "dhcp_poolStart"@,
        env_key(k) == EnvKey::DhcpPoolEnd ==> k == "dhcp_pool_end"@ || k == "dhcp_poolEnd"@,
        env_key(k) == EnvKey::DhcpRouter ==> k == "dhcp_router"@,
        env_key(k) == EnvKey::DhcpDnsServer ==> k == "dhcp_dns_server"@ || k == "dhcp_dnsServer"@,
        env_key(k) == EnvKey::DhcpLeaseTime ==> k == "dhcp_lease_time"@ || k == "dhcp_leaseTime"@,
        env_key(k) == EnvKey::DhcpDomain ==> k == "dhcp_domain"@,
        env_key(k) == EnvKey::BlockingSourceUrl ==> k == "blocking_source_url"@,
        env_key(k) == EnvKey::BlockingRefreshInterval ==> k == "blocking_refresh_interval"@,
        env_key(k) == EnvKey::DebugAll ==> k == "debug_all"@ || k == "debug_All"@,
        env_key(k) == EnvKey::DebugResolver ==> k == "debug_resolver"@,
        env_key(k) == EnvKey::DebugApi ==> k == "debug_api"@,
        env_key(k) == EnvKey::DebugDatabase ==> k == "debug_database"@ || k == "debug_Database"@,
        env_key(k) == EnvKey::DebugDns ==> k == "debug_dns"@ || k == "debug_DNS"@,
        env_key(k) == EnvKey::DebugLocking ==> k == "debug_locking"@,
        env_key(k) == EnvKey::DebugEdns0 ==> k == "debug_edns0"@ || k == "debug_EDNS0"@,
        env_key(k) == EnvKey::DebugRegex ==> k == "debug_regex"@,
        env_key(k) == EnvKey::DebugConfig ==> k == "debug_config"@,
        env_key(k) == EnvKey::DebugDot ==> k == "debug_dot"@ || k == "debug_DoT"@,
        env_key(k) == EnvKey::Unknown ==> k != "dns_upstreams"@ && k != "dns_blocking_mode"@ && k
            != "dns_rate_limit"@ && k != "dns_port"@ && k != "dns_bind"@ && k != "dns_blocking_ip"@
            && k != "dns_query_log"@ && k != "webserver_port"@ && k != "dhcp_enabled"@ && k
            != "dhcp_pool_start"@ && k != "dhcp_pool_end"@ && k != "dhcp_router"@ && k
            != "dhcp_dns_server"@ && k != "dhcp_lease_time"@ && k != "dhcp_domain"@ && k
            != "blocking_source_url"@ && k != "blocking_refresh_interval"@ && k != "debug_all"@ && k
            != "debug_resolver"@ && k != "debug_api"@ && k != "debug_database"@ && k
            != "debug_dns"@ && k != "debug_locking"@ && k != "debug_edns0"@ && k != "debug_regex"@
            && k != "debug_config"@ && k != "debug_dot"@,
        env_key(k) == EnvKey::Unknown ==> k != "dns_blockingMode"@ && k != "dns_rateLimit"@ && k
            != "dns_blockingIp"@ && k != "dhcp_poolStart"@ && k != "dhcp_poolEnd"@ && k
            != "dhcp_dnsServer"@ && k != "dhcp_leaseTime"@ && k != "debug_All"@ && k
            != "debug_Database"@ && k != "debug_DNS"@ && k != "debug_EDNS0"@ && k != "debug_DoT"@,
{
}

/// A variable is a setting exactly where its name starts with `FTLCONF_`, and the setting is named by
/// what follows.
pub proof fn law_settings_start_with_their_prefix(variable: &str, name: Seq<char>, r: Option<String>)
    requires
        env_setting.ensures((variable,), r),
    ensures
        variable@ == "FTLCONF_"@ + name ==> r is Some && r->0@ == name,
        r is Some ==> variable@ == "FTLCONF_"@ + r->0@,
{
    reveal_strlit("FTLCONF_");
    let p = "FTLCONF_"@;
    if variable@ == p + name {
        assert((p + name).subrange(0, 8) =~= p);
        assert((p + name).subrange(8, (p + name).len() as int) =~= name);
    }
    if r is Some {
        assert(variable@ =~= p + variable@.subrange(8, variable@.len() as int));
    }
}

/// A setting of the resolver changes its own field and no other section; a value that cannot be read is
/// an error, and changes nothing. The port of the listener is also that of its address.
pub proof fn law_resolver_settings(
    a: Config,
    key: EnvKey,
    value: Seq<char>,
    reading: AddressReading,
    b: Config,
    r: Result<(), ConfigError>,
)
    requires
        env_outcome(a, key, value, reading, b, r),
    ensures
        ({
            let n = text::unsigned_value(value, 10, 0xffff_ffff);
            let p = text::unsigned_value(value, 10, 0xffff);
            &&& key == EnvKey::DnsRateLimit ==> (r is Ok <==> n is Some) && (n is Some
                ==> b.dns.rate_limit == n->0)
            &&& key == EnvKey::DnsPort ==> (r is Ok <==> p is Some) && (p is Some ==> b.dns.port
                == p->0 && b.dns.bind.port == p->0 && b.dns.bind.ip == a.dns.bind.ip)
            &&& key == EnvKey::DnsBind ==> (r is Ok <==> reading.socket is Some) && (
            reading.socket is Some ==> b.dns.bind == reading.socket->0)
            &&& key == EnvKey::DnsBlockingIp ==> (r is Ok <==> reading.ip is Some) && (
            reading.ip is Some ==> b.dns.blocking_ip == reading.ip->0)
            &&& key == EnvKey::DnsQueryLog ==> r is Ok && (b.dns.query_log <==> value == "true"@
                || value == "1"@)
            &&& key == EnvKey::DnsBlockingMode ==> (r is Ok <==> named_mode(value) is Some) && (r is Ok
                ==> b.dns.blocking_mode == named_mode(value)->0)
            &&& r is Err ==> b.dns == a.dns
            &&& key != EnvKey::DnsRateLimit ==> b.dns.rate_limit == a.dns.rate_limit
            &&& key != EnvKey::DnsPort ==> b.dns.port == a.dns.port
            &&& key != EnvKey::DnsPort && key != EnvKey::DnsBind ==> b.dns.bind == a.dns.bind
            &&& key != EnvKey::DnsBlockingIp ==> b.dns.blocking_ip == a.dns.blocking_ip
            &&& key != EnvKey::DnsQueryLog ==> b.dns.query_log == a.dns.query_log
            &&& key != EnvKey::DnsBlockingMode ==> b.dns.blocking_mode == a.dns.blocking_mode
            &&& key != EnvKey::DnsUpstreams ==> b.dns.upstreams == a.dns.upstreams
            &&& key == EnvKey::DnsUpstreams && r is Ok ==> upstreams_outcome(
                value,
                reading.upstreams@,
                Ok(b.dns.upstreams),
            )
            &&& b.dns.cache_size == a.dns.cache_size && b.dns.query_retention
                == a.dns.query_retention
        }),
{
}

/// A setting of the DHCP server changes its own field, where its value can be read; no other.
pub proof fn law_dhcp_settings(
    a: Config,
    key: EnvKey,
    value: Seq<char>,
    reading: AddressReading,
    b: Config,
    r: Result<(), ConfigError>,
)
    requires
        env_outcome(a, key, value, reading, b, r),
    ensures
        ({
            let n = text::unsigned_value(value, 10, 0xffff_ffff);
            let (x, y) = (a.dhcp, b.dhcp);
            let taken = |k: EnvKey, old_value: Option<u32>, new_value: Option<u32>|
                if key == k && reading.ipv4 is Some {
                    new_value == reading.ipv4
                } else {
                    new_value == old_value
                };
            &&& key == EnvKey::DhcpEnabled ==> (y.enabled <==> value == "true"@ || value == "1"@)
            &&& key != EnvKey::DhcpEnabled ==> y.enabled == x.enabled
            &&& taken(EnvKey::DhcpPoolStart, x.pool_start, y.pool_start)
            &&& taken(EnvKey::DhcpPoolEnd, x.pool_end, y.pool_end)
            &&& taken(EnvKey::DhcpRouter, x.router, y.router)
            &&& taken(EnvKey::DhcpDnsServer, x.dns_server, y.dns_server)
            &&& key == EnvKey::DhcpLeaseTime && n is Some ==> y.lease_time == n->0
            &&& key != EnvKey::DhcpLeaseTime || n is None ==> y.lease_time == x.lease_time
            &&& key == EnvKey::DhcpDomain ==> y.domain is Some && y.domain->0@ == value
            &&& key != EnvKey::DhcpDomain ==> y.domain == x.domain
            &&& y.netmask == x.netmask && y.interface == x.interface
        }),
{
}

/// The settings of the other sections: the ports of the web server are those between the commas of the
/// value, without white space round them; the blocklist is fetched from the address that is given, as
/// often as is given; a setting for details of the log switches its own flag on. Nothing else changes.
pub proof fn law_other_settings(
    a: Config,
    key: EnvKey,
    value: Seq<char>,
    reading: AddressReading,
    b: Config,
    r: Result<(), ConfigError>,
)
    requires
        env_outcome(a, key, value, reading, b, r),
    ensures
        ({
            let n = text::unsigned_value(value, 10, 0xffff_ffff_ffff_ffff);
            let (x, y) = (a.debug, b.debug);
            &&& key == EnvKey::WebserverPort ==> text::texts(b.webserver.ports@) == port_entries(
                value,
            )
            &&& key != EnvKey::WebserverPort ==> b.webserver == a.webserver
            &&& b.webserver.password_hash == a.webserver.password_hash
                && b.webserver.session_timeout == a.webserver.session_timeout
            &&& key == EnvKey::BlockingSourceUrl ==> b.blocking.source_url@ == value
            &&& key != EnvKey::BlockingSourceUrl ==> b.blocking.source_url == a.blocking.source_url
            &&& key == EnvKey::BlockingRefreshInterval && n is Some ==> b.blocking.refresh_interval
                == n->0
            &&& key != EnvKey::BlockingRefreshInterval || n is None ==> b.blocking.refresh_interval
                == a.blocking.refresh_interval
            &&& y.all == (x.all || key == EnvKey::DebugAll)
            &&& y.resolver == (x.resolver || key == EnvKey::DebugResolver)
            &&& y.api == (x.api || key == EnvKey::DebugApi)
            &&& y.database == (x.database || key == EnvKey::DebugDatabase)
            &&& y.dns == (x.dns || key == EnvKey::DebugDns)
            &&& y.locking == (x.locking || key == EnvKey::DebugLocking)
            &&& y.edns0 == (x.edns0 || key == EnvKey::DebugEdns0)
            &&& y.regex == (x.regex || key == EnvKey::DebugRegex)
            &&& y.config == (x.config || key == EnvKey::DebugConfig)
            &&& y.dot == (x.dot || key == EnvKey::DebugDot)
            &&& b.database == a.database && b.misc == a.misc && b.files == a.files
        }),
{
}

/// The entries of a list of ports are the texts between its commas, each without the white space round
/// it.
pub proof fn law_ports_stand_between_commas(front: Seq<char>, entry: Seq<char>)
    requires
        !entry.contains(','),
    ensures
        port_entries(front + seq![','] + entry) == port_entries(front).push(text::trimmed(entry)),
        port_entries(entry) == seq![text::trimmed(entry)],
{
    lemma_one_piece(entry, ',');
    text::lemma_pieces_concat(front, entry, ',');
    assert(port_entries(front + seq![','] + entry) =~= port_entries(front).push(
        text::trimmed(entry),
    ));
    assert(port_entries(entry) =~= seq![text::trimmed(entry)]);
}

proof fn lemma_one_piece(s: Seq<char>, c: char)
    requires
        !s.contains(c),
    ensures
        text::pieces(s, c) == seq![s],
{
    text::lemma_first_index(s, c);
    let i = text::first_index(s, c);
    if i < s.len() {
        assert(s.contains(s[i]));
    }
}

/// The modes have their names, in whatever case these are written; any other name is refused.
pub proof fn law_modes_have_their_names(s: &str, r: Result<BlockingMode, ConfigError>)
    requires
        parse_blocking_mode.ensures((s,), r),
    ensures
        ({
            let u = text::uppercase(s@);
            &&& r == Ok::<BlockingMode, ConfigError>(BlockingMode::Null) ==> u == "NULL"@
            &&& r == Ok::<BlockingMode, ConfigError>(BlockingMode::Nxdomain) ==> u == "NXDOMAIN"@
            &&& r == Ok::<BlockingMode, ConfigError>(BlockingMode::Ip) ==> u == "IP"@
            &&& r == Ok::<BlockingMode, ConfigError>(BlockingMode::Refused) ==> u == "REFUSED"@
            &&& r == Ok::<BlockingMode, ConfigError>(BlockingMode::Nodata) ==> u == "NODATA"@
            &&& r == Ok::<BlockingMode, ConfigError>(BlockingMode::Disabled) ==> u == "DISABLED"@
            &&& r is Err ==> u != "NULL"@ && u != "NXDOMAIN"@ && u != "IP"@ && u != "REFUSED"@ && u
                != "NODATA"@ && u != "DISABLED"@
        }),
{
}

/// How an upstream server is written: `tls://` where it speaks TLS, the address, and behind number signs
/// the port and, for TLS, the name of its certificate. Without a port, or with one that is none, it is
/// 853 for TLS and 53 else; without a name it is the address.
pub proof fn law_upstreams_are_written_so(
    address: Seq<char>,
    port: Seq<char>,
    name: Seq<char>,
    ip: IpAddr,
    u: DnsUpstream,
)
    requires
        !address.contains('#'),
        !port.contains('#'),
        !name.contains('#'),
        !"tls://"@.is_prefix_of(address),
        address.len() >= 6 || address.len() == 0 || address[0] != 't',
    ensures
        ({
            let tls = "tls://"@;
            let sign = seq!['#'];
            let n = text::unsigned_value(port, 10, 0xffff);
            let with_usual = |usual: u16|
                if n is Some {
                    n->0 as u16
                } else {
                    usual
                };
            &&& is_upstream(u, tls + (address + sign + (port + sign + name)), ip) ==> (
            u matches DnsUpstream::Tls { address: a, port: p, hostname } && a == ip && p
                == with_usual(853) && hostname@ == name)
            &&& is_upstream(u, tls + (address + sign + port), ip) ==> (
            u matches DnsUpstream::Tls { address: a, port: p, hostname } && a == ip && p
                == with_usual(853) && hostname@ == address)
            &&& is_upstream(u, tls + address, ip) ==> (u matches DnsUpstream::Tls {
                address: a,
                port: p,
                hostname,
            } && a == ip && p == 853 && hostname@ == address)
            &&& is_upstream(u, address, ip) ==> (u matches DnsUpstream::Plain {
                address: a,
                port: p,
            } && a == ip && p == 53)
            &&& address.len() > 0 && address[0] != 't' && is_upstream(u, address + sign + port, ip)
                ==> (u matches DnsUpstream::Plain { address: a, port: p } && a == ip && p
                == with_usual(53))
        }),
{
    reveal_strlit("tls://");
    let tls = "tls://"@;
    let sign = seq!['#'];
    lemma_one_piece(address, '#');
    lemma_one_piece(port, '#');
    lemma_one_piece(name, '#');
    text::lemma_pieces_concat(port, name, '#');
    text::lemma_pieces_concat(address, port + sign + name, '#');
    text::lemma_pieces_concat(address, port, '#');
    let long = tls + (address + sign + (port + sign + name));
    let mid = tls + (address + sign + port);
    let short = tls + address;
    lemma_behind_tls(address + sign + (port + sign + name));
    lemma_behind_tls(address + sign + port);
    lemma_behind_tls(address);
    assert(entry_fields(long) == seq![address] + (seq![port] + seq![name]));
    assert(entry_fields(mid) == seq![address] + seq![port]);
    assert(entry_fields(short) == seq![address]);
    let plain = address + sign + port;
    if address.len() > 0 && address[0] != 't' {
        assert(plain[0] == address[0]);
        if tls.is_prefix_of(plain) {
            assert(plain.subrange(0, 6)[0] == 't');
        }
        assert(entry_fields(plain) == seq![address] + seq![port]);
    }
}

proof fn lemma_behind_tls(s: Seq<char>)
    ensures
        entry_is_tls("tls://"@ + s),
        ("tls://"@ + s).subrange(6, ("tls://"@ + s).len() as int) == s,
{
    reveal_strlit("tls://");
    let e = "tls://"@ + s;
    assert(e.subrange(0, 6) =~= "tls://"@);
    assert(e.subrange(6, e.len() as int) =~= s);
}

/// A list of upstream servers is read in its order: one more entry behind a semicolon is one more server
/// behind the others. White space round an entry, and entries without characters, do not matter.
pub proof fn law_upstreams_come_in_order(list: Seq<char>, entry: Seq<char>)
    requires
        !entry.contains(';'),
    ensures
        upstream_entries(list + seq![';'] + entry) == (if text::trimmed(entry).len() == 0 {
            upstream_entries(list)
        } else {
            upstream_entries(list).push(text::trimmed(entry))
        }),
        text::trimmed(entry).len() > 0 ==> upstream_entries(entry) == seq![text::trimmed(entry)],
{
    lemma_one_piece(entry, ';');
    text::lemma_pieces_concat(list, entry, ';');
    let all = text::pieces(list, ';') + seq![entry];
    assert(all.drop_last() =~= text::pieces(list, ';'));
    assert(all.last() == entry);
    let one = seq![entry];
    assert(one.drop_last() =~= Seq::<Seq<char>>::empty());
    assert(entries(Seq::<Seq<char>>::empty()) =~= Seq::<Seq<char>>::empty());
    if text::trimmed(entry).len() > 0 {
        assert(entries(one) =~= seq![text::trimmed(entry)]);
    }
}

/// Upstream servers are read all or not at all: there is one for each entry, in order, where each entry
/// has an address; else there is an error.
pub proof fn law_every_upstream_is_read(
    input: Seq<char>,
    readings: Seq<Option<IpAddr>>,
    r: Result<Vec<DnsUpstream>, ConfigError>,
)
    requires
        upstreams_outcome(input, readings, r),
        readings.len() == upstream_entries(input).len(),
    ensures
        r is Ok <==> upstream_entries(input).len() > 0 && forall|i: int|
            0 <= i < readings.len() ==> (#[trigger] readings[i]) is Some,
        r matches Ok(v) ==> v@.len() == readings.len() && forall|i: int|
            0 <= i < v@.len() ==> is_upstream(
                #[trigger] v@[i],
                upstream_entries(input)[i],
                readings[i]->0,
            ),
{
    match r {
        Ok(v) => {
            assert forall|i: int| 0 <= i < readings.len() implies (#[trigger] readings[i]) is Some by {
                assert(crate::config::reading_at(readings, i) is Some);
            }
            assert forall|i: int| 0 <= i < v@.len() implies is_upstream(
                #[trigger] v@[i],
                upstream_entries(input)[i],
                readings[i]->0,
            ) by {
                assert(crate::config::reading_at(readings, i) == readings[i]);
            }
        },
        Err(_) => {
            if upstream_entries(input).len() > 0 {
                let i = choose|i: int|
                    0 <= i < readings.len() && #[trigger] crate::config::reading_at(
                        readings,
                        i,
                    ) is None;
                assert(readings[i] is None);
            }
        },
    }
}

proof fn lemma_port_text(d: Seq<char>)
    requires
        text::unsigned_value(d, 10, 0xffff) is Some,
    ensures
        d.len() > 0,
        !text::white_space(d[0]),
        '0' <= d[d.len() - 1] && d[d.len() - 1] <= '9',
{
    let digits = if d[0] == '+' {
        d.subrange(1, d.len() as int)
    } else {
        d
    };
    assert(digits.len() > 0);
    assert(text::digit_value(digits[digits.len() - 1]) < 10);
    assert(digits[digits.len() - 1] == d[d.len() - 1]);
    assert(text::digit_value(digits[0]) < 10);
}

/// A port of the web server is its number, alone or with `o` behind it; with `os` behind it, it speaks
/// TLS. White space in front does not matter.
pub proof fn law_web_ports_are_written_so(lead: Seq<char>, digits: Seq<char>)
    requires
        text::all_white(lead),
        text::unsigned_value(digits, 10, 0xffff) is Some,
    ensures
        ({
            let n = text::unsigned_value(digits, 10, 0xffff)->0 as u16;
            &&& web_port(lead + digits) == Some(WebPort::Http(n))
            &&& web_port(lead + digits.push('o')) == Some(WebPort::Http(n))
            &&& web_port(lead + digits.push('o').push('s')) == Some(WebPort::Https(n))
        }),
{
    lemma_port_text(digits);
    let n = digits.len() as int;
    let plain = digits.push('o');
    let tls = plain.push('s');
    text::lemma_bare_text(lead, digits);
    assert(plain[0] == digits[0] && tls[0] == digits[0]);
    text::lemma_bare_text(lead, plain);
    text::lemma_bare_text(lead, tls);
    assert(plain.subrange(0, n) =~= digits);
    assert(tls.subrange(0, n) =~= digits);
}

proof fn lemma_first_http(ports: Seq<WebPort>, i: int)
    requires
        0 <= i <= ports.len(),
        forall|j: int| 0 <= j < i ==> (#[trigger] ports[j]) is Https,
    ensures
        first_http(ports) == first_http(ports.subrange(i, ports.len() as int)),
    decreases i,
{
    if i == 0 {
        assert(ports.subrange(0, ports.len() as int) =~= ports);
    } else {
        let rest = ports.subrange(1, ports.len() as int);
        assert(ports[0] is Https);
        assert forall|j: int| 0 <= j < i - 1 implies (#[trigger] rest[j]) is Https by {
            assert(rest[j] == ports[j + 1]);
        }
        lemma_first_http(rest, i - 1);
        assert(rest.subrange(i - 1, rest.len() as int) =~= ports.subrange(i, ports.len() as int));
    }
}

/// The web server listens at the first of its ports that speaks no TLS, at 8080 where there is none.
pub proof fn law_first_plain_port_is_used(ports: Seq<WebPort>, i: int, p: u16)
    requires
        0 <= i <= ports.len(),
        forall|j: int| 0 <= j < i ==> (#[trigger] ports[j]) is Https,
    ensures
        i < ports.len() && ports[i] == WebPort::Http(p) ==> first_http(ports) == p,
        i == ports.len() ==> first_http(ports) == 8080,
{
    lemma_first_http(ports, i);
    if i < ports.len() {
        assert(ports.subrange(i, ports.len() as int)[0] == ports[i]);
    }
}

/// Entries that are no port are passed over; all others are ports, in their order.
pub proof fn law_readable_ports_are_used(entries: Seq<Seq<char>>, more: Seq<char>)
    ensures
        web_port(more) is None ==> web_ports(entries.push(more)) == web_ports(entries),
        web_port(more) is Some ==> web_ports(entries.push(more)) == web_ports(entries).push(
            web_port(more)->0,
        ),
        web_ports(Seq::empty()) == Seq::<WebPort>::empty(),
{
    assert(entries.push(more).drop_last() =~= entries);
}

/// The settings of the environment are applied one after the other, and the first that cannot be read
/// ends it with its error. Variables that are no settings do not matter.
pub proof fn law_environment_is_applied_in_order(
    a: Config,
    v: EnvVariable,
    rest: Seq<EnvVariable>,
    b: Config,
    r: Result<(), ConfigError>,
)
    requires
        variables_outcome(a, seq![v] + rest, b, r),
    ensures
        exists|m: Config, q: Result<(), ConfigError>|
            {
                &&& #[trigger] variable_outcome(a, v, m, q)
                &&& q is Ok ==> variables_outcome(m, rest, b, r)
                &&& q is Err ==> r == q && b == m
            },
        !"FTLCONF_"@.is_prefix_of(v.name@) ==> variables_outcome(a, rest, b, r),
{
    let all = seq![v] + rest;
    assert(all[0] == v);
    assert(all.subrange(1, all.len() as int) =~= rest);
    let (m, q) = choose|m: Config, q: Result<(), ConfigError>|
        {
            &&& #[trigger] variable_outcome(a, all[0], m, q)
            &&& if q is Ok {
                variables_outcome(m, all.subrange(1, all.len() as int), b, r)
            } else {
                b == m && r == q
            }
        };
    assert(variable_outcome(a, v, m, q));
}

/// Without settings of the environment nothing changes.
pub proof fn law_empty_environment_changes_nothing(a: Config, b: Config, r: Result<(), ConfigError>)
    requires
        variables_outcome(a, Seq::empty(), b, r),
    ensures
        b == a,
        r is Ok,
{
}

/// A configuration can be run with exactly where it has an upstream server and a rate limit above zero.
pub proof fn law_usable_configurations(c: &Config, r: Result<(), ConfigError>)
    requires
        Config::validate.ensures((c,), r),
    ensures
        r is Ok <==> c.dns.upstreams@.len() > 0 && c.dns.rate_limit > 0,
        r is Err ==> r->Err_0 is Validation,
{
}

/// What the server runs with where nothing is configured: it can be run with; it listens on port 53 of
/// every interface, blocks with the null address, logs queries and keeps them for thirty days; leases
/// last for a day; the list is fetched once a day; sessions last for a day, and there is no password.
pub proof fn law_defaults_can_be_run_with(c: Config)
    requires
        call_ensures(<Config as Default>::default, (), c),
    ensures
        c.dns.upstreams@.len() == 2,
        c.dns.rate_limit == 1000,
        c.dns.bind == (SocketAddr { ip: IpAddr::V4(0), port: 53 }),
        c.dns.port == 53,
        c.dns.blocking_mode == BlockingMode::Null,
        c.dns.cache_size == 10_000,
        c.dns.query_log,
        c.dns.query_retention == 2_592_000,
        c.dns.max_concurrent_queries == 150,
        !c.dhcp.enabled,
        c.dhcp.lease_time == 86_400,
        c.dhcp.netmask == 0xffff_ff00,
        c.blocking.refresh_interval == 86_400,
        c.webserver.session_timeout == 86_400,
        c.webserver.password_hash is None,
        c.misc.nice == -999,
        c.database.busy_timeout == 1000,
{
}

/// The configuration that is loaded is the one of the file, with the settings of the environment, and it
/// can be run with. There is none exactly where a setting cannot be read or it cannot be run with.
pub proof fn law_loaded_configuration(
    from_file: Config,
    vars: &Vec<EnvVariable>,
    r: Result<Config, ConfigError>,
)
    requires
        Config::load.ensures((from_file, vars), r),
    ensures
        r matches Ok(c) ==> c.dns.upstreams@.len() > 0 && c.dns.rate_limit > 0 && exists|
            q: Result<(), ConfigError>,
        | #[trigger]
            variables_outcome(from_file, vars@, c, q) && q is Ok,
        r matches Err(e) ==> exists|c: Config, q: Result<(), ConfigError>|
            {
                &&& #[trigger] variables_outcome(from_file, vars@, c, q)
                &&& q is Err ==> q == Err::<(), ConfigError>(e)
                &&& q is Ok ==> c.dns.upstreams@.len() == 0 || c.dns.rate_limit == 0
            },
{
    let (c, q) = choose|c: Config, q: Result<(), ConfigError>|
        {
            &&& #[trigger] variables_outcome(from_file, vars@, c, q)
            &&& match r {
                Ok(loaded) => q is Ok && loaded == c && c.problem() is None,
                Err(e) => q == Err::<(), ConfigError>(e) || (q is Ok && (
                e matches ConfigError::Validation(m) && c.problem() == Some(m@))),
            }
        };
    assert(variables_outcome(from_file, vars@, c, q));
}

/// The web server listens on every interface, at the port that `http_port` gives.
pub proof fn law_web_server_listens_everywhere(
    c: &WebServerConfig,
    iface: &str,
    r: SocketAddr,
    p: u16,
)
    requires
        WebServerConfig::bind_addr.ensures((c, iface), r),
        WebServerConfig::http_port.ensures((c,), p),
    ensures
        r.ip == IpAddr::V4(0),
        r.port == p,
        p == first_http(web_ports(text::texts(c.ports@))),
{
}

/// A file stands where the environment puts it; else at its usual place, if the directory is there; else
/// among the temporary files.
pub proof fn law_files_have_their_places(place: Place, usual: &str, r: String)
    requires
        Place::pick.ensures((place, usual), r),
    ensures
        place.from_env matches Some(p) ==> r@ == p@,
        place.from_env is None && place.directory_exists ==> r@ == usual@,
        place.from_env is None && !place.directory_exists ==> r@ == place.temporary@,
{
}

/// The databases stand where the environment puts them, else in the directory of the configuration.
pub proof fn law_databases_have_their_places(
    gravity: Option<String>,
    nimbus: Option<String>,
    r: DatabaseConfig,
)
    requires
        DatabaseConfig::from_env.ensures((gravity, nimbus), r),
    ensures
        gravity matches Some(p) ==> r.gravity_db@ == p@,
        nimbus matches Some(p) ==> r.nimbus_db@ == p@,
        gravity is None ==> r.gravity_db@ == "/etc/nimbusdns/gravity.db"@,
        nimbus is None ==> r.nimbus_db@ == "/etc/nimbusdns/nimbusdns.db"@,
        r.max_queries_stored == 500_000,
        r.query_retention == 31_536_000,
{
}

/// The texts that have to be read as addresses are those of the entries, in order: what stands before the
/// first number sign, behind `tls://` where that stands in front.
pub proof fn law_addresses_stand_first(input: &str, r: Vec<String>, i: int)
    requires
        upstream_addresses.ensures((input,), r),
        0 <= i < r@.len(),
    ensures
        r@.len() == upstream_entries(input@).len(),
        ({
            let e = upstream_entries(input@)[i];
            let body = if "tls://"@.is_prefix_of(e) {
                e.subrange(6, e.len() as int)
            } else {
                e
            };
            r@[i]@ == text::pieces(body, '#')[0]
        }),
{
}

/// An error says what failed, and why.
pub proof fn law_configuration_errors_say_what_failed(e: &ConfigError, r: String)
    requires
        ConfigError::message.ensures((e,), r),
    ensures
        e matches ConfigError::FileRead { path, reason } ==> r@ == "Failed to read config file "@
            + path@ + ": "@ + reason@,
        e matches ConfigError::Parse(m) ==> r@ == "Failed to parse config file: "@ + m@,
        e matches ConfigError::Env(m) ==> r@ == "Environment variable error: "@ + m@,
        e matches ConfigError::Validation(m) ==> r@ == "Validation error: "@ + m@,
{
}

} // verus!
