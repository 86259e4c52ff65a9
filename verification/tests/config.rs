use nimbusdns::address::{ipv4, IpAddr, SocketAddr};
use nimbusdns::config::{
    env_setting, find_env_key, parse_blocking_mode, parse_upstreams, upstream_addresses,
    AddressReading, BlockingMode, Config, ConfigError, DatabaseConfig, DnsUpstream, EnvKey,
    EnvVariable, FileConfig, Place, WebPort, WebServerConfig,
};

fn v4(a: u8, b: u8, c: u8, d: u8) -> IpAddr {
    IpAddr::V4(ipv4(a, b, c, d))
}

// Reads the few addresses that occur here.
fn reading(s: &str) -> Option<IpAddr> {
    let parts: Vec<Option<u8>> = s.split('.').map(|p| p.parse().ok()).collect();
    match parts[..] {
        [Some(a), Some(b), Some(c), Some(d)] => Some(v4(a, b, c, d)),
        _ => None,
    }
}

fn upstreams(input: &str) -> Result<Vec<DnsUpstream>, ConfigError> {
    let readings = upstream_addresses(input).iter().map(|a| reading(a)).collect();
    parse_upstreams(input, &readings)
}

#[test]
fn test_parse_upstreams_plain() {
    let upstreams = upstreams("8.8.8.8;1.1.1.1#53").unwrap();
    assert_eq!(upstreams.len(), 2);
    assert_eq!(upstreams[0], DnsUpstream::Plain { address: v4(8, 8, 8, 8), port: 53 });
    assert_eq!(upstreams[1], DnsUpstream::Plain { address: v4(1, 1, 1, 1), port: 53 });
}

#[test]
fn test_parse_upstreams_tls() {
    let upstreams = upstreams("tls://8.8.8.8#853#dns.google").unwrap();
    assert_eq!(upstreams.len(), 1);
    assert_eq!(
        upstreams[0],
        DnsUpstream::Tls { address: v4(8, 8, 8, 8), port: 853, hostname: "dns.google".into() }
    );
}

#[test]
fn upstreams_with_bad_addresses_are_refused() {
    assert!(upstreams("nonsense").is_err());
    assert!(upstreams("tls://nonsense#853#x").is_err());
}

#[test]
fn test_parse_blocking_mode() {
    assert_eq!(parse_blocking_mode("NULL").unwrap(), BlockingMode::Null);
    assert_eq!(parse_blocking_mode("NXDOMAIN").unwrap(), BlockingMode::Nxdomain);
    assert!(parse_blocking_mode("INVALID").is_err());
}

#[test]
fn blocking_modes_are_read_in_any_case() {
    assert_eq!(parse_blocking_mode("ip").unwrap(), BlockingMode::Ip);
    assert_eq!(parse_blocking_mode("Refused").unwrap(), BlockingMode::Refused);
    assert_eq!(parse_blocking_mode("nodata").unwrap(), BlockingMode::Nodata);
    assert_eq!(parse_blocking_mode("disabled").unwrap(), BlockingMode::Disabled);
    let e = parse_blocking_mode("x").unwrap_err().message();
    assert!(
        e.ends_with("Unknown blocking mode: x. Valid: NULL, NXDOMAIN, IP, REFUSED, NODATA, DISABLED"),
        "{e}"
    );
}

#[test]
fn errors_have_their_texts() {
    let e = ConfigError::FileRead { path: "/a".into(), reason: "gone".into() };
    assert_eq!(e.message(), "Failed to read config file /a: gone");
    assert_eq!(ConfigError::Parse("x".into()).message(), "Failed to parse config file: x");
    assert_eq!(ConfigError::Env("x".into()).message(), "Environment variable error: x");
    assert_eq!(ConfigError::Validation("x".into()).message(), "Validation error: x");
}

fn no_reading() -> AddressReading {
    AddressReading { ip: None, ipv4: None, socket: None, upstreams: vec![] }
}

#[test]
fn the_environment_changes_settings() {
    let mut c = Config::default();
    c.set_from_env("dns_blockingMode", "NODATA", &no_reading()).unwrap();
    assert_eq!(c.dns.blocking_mode, BlockingMode::Nodata);
    c.set_from_env("dns_rate_limit", "17", &no_reading()).unwrap();
    assert_eq!(c.dns.rate_limit, 17);
    c.set_from_env("dns_query_log", "false", &no_reading()).unwrap();
    assert!(!c.dns.query_log);
    c.set_from_env("blocking_source_url", "http://x/hosts", &no_reading()).unwrap();
    assert_eq!(c.blocking.source_url, "http://x/hosts");
    c.set_from_env("blocking_refresh_interval", "60", &no_reading()).unwrap();
    assert_eq!(c.blocking.refresh_interval, 60);
    c.set_from_env("dhcp_router", "10.0.0.1", &AddressReading {
        ip: Some(v4(10, 0, 0, 1)),
        ipv4: Some(ipv4(10, 0, 0, 1)),
        ..no_reading()
    })
    .unwrap();
    assert_eq!(c.dhcp.router, Some(ipv4(10, 0, 0, 1)));
    c.set_from_env("debug_DoT", "", &no_reading()).unwrap();
    assert!(c.debug.dot);
    assert!(!c.debug.dns);
    let before = format!("{:?}", c);
    c.set_from_env("no_such_setting", "1", &no_reading()).unwrap();
    assert_eq!(format!("{:?}", c), before);
    assert!(c.set_from_env("dns_blocking_mode", "bad", &no_reading()).is_err());
    assert_eq!(find_env_key("dns_port"), EnvKey::DnsPort);
    assert_eq!(find_env_key("dns_Port"), EnvKey::Unknown);
}

#[test]
fn variables_have_a_prefix() {
    assert_eq!(env_setting("FTLCONF_dns_port").as_deref(), Some("dns_port"));
    assert_eq!(env_setting("FTLCONF_").as_deref(), Some(""));
    assert_eq!(env_setting("PATH"), None);
}

#[test]
fn defaults_are_valid() {
    let c = Config::default();
    assert!(c.validate().is_ok());
    assert_eq!(c.dns.upstreams.len(), 2);
    assert_eq!(c.dns.bind, SocketAddr { ip: v4(0, 0, 0, 0), port: 53 });
    assert_eq!(c.dns.query_retention, 30 * 86_400);
    assert_eq!(c.dhcp.lease_time, 86_400);
}

#[test]
fn a_config_needs_an_upstream_and_a_rate() {
    let mut c = Config::default();
    c.dns.rate_limit = 0;
    assert_eq!(c.validate().unwrap_err().message(), "Validation error: Rate limit must be > 0");
    c.dns.upstreams.clear();
    assert_eq!(
        c.validate().unwrap_err().message(),
        "Validation error: At least one DNS upstream must be configured"
    );
}

#[test]
fn web_ports_are_read() {
    assert_eq!(WebPort::parse(" 80o "), Some(WebPort::Http(80)));
    assert_eq!(WebPort::parse("443os"), Some(WebPort::Https(443)));
    assert_eq!(WebPort::parse("8080"), Some(WebPort::Http(8080)));
    assert_eq!(WebPort::parse("99999o"), None);
    assert_eq!(WebPort::parse("x"), None);
    let w = WebServerConfig {
        ports: vec!["443os".into(), "bad".into(), "81o".into()],
        ..WebServerConfig::default()
    };
    assert_eq!(w.parsed_ports(), vec![WebPort::Https(443), WebPort::Http(81)]);
    assert_eq!(w.http_port(), 81);
    assert_eq!(w.bind_addr("eth0"), SocketAddr { ip: v4(0, 0, 0, 0), port: 81 });
    let none = WebServerConfig { ports: vec![], ..WebServerConfig::default() };
    assert_eq!(none.http_port(), 8080);
    assert!(WebPort::Https(1).is_tls());
    assert_eq!(WebPort::Http(7).port(), 7);
}

#[test]
fn files_are_put_where_they_can_be() {
    let place = |env: Option<&str>, there: bool| Place {
        from_env: env.map(String::from),
        directory_exists: there,
        temporary: "/tmp/x".to_string(),
    };
    assert_eq!(place(Some("/e"), true).pick("/usual"), "/e");
    assert_eq!(place(None, true).pick("/usual"), "/usual");
    assert_eq!(place(None, false).pick("/usual"), "/tmp/x");
    let f = FileConfig::from_places(place(None, true), place(None, false), place(Some("/s"), false));
    assert_eq!(f.pid_file, "/run/nimbusdns.pid");
    assert_eq!(f.log_file.as_deref(), Some("/tmp/x"));
    assert_eq!(f.socket.as_deref(), Some("/s"));
    let d = DatabaseConfig::from_env(Some("/g.db".into()), None);
    assert_eq!(d.gravity_db, "/g.db");
    assert_eq!(d.nimbus_db, DatabaseConfig::default().nimbus_db);
}

fn variable(name: &str, value: &str) -> EnvVariable {
    EnvVariable { name: name.to_string(), value: value.to_string(), reading: no_reading() }
}

#[test]
fn a_config_is_loaded_with_the_environment() {
    let vars = vec![
        variable("PATH", "/bin"),
        variable("FTLCONF_dns_rate_limit", "5"),
        variable("FTLCONF_dns_rate_limit", "6"),
        variable("FTLCONF_dhcp_enabled", "1"),
    ];
    let c = Config::load(Config::default(), &vars).unwrap();
    assert_eq!(c.dns.rate_limit, 6);
    assert!(c.dhcp.enabled);

    let bad = vec![variable("FTLCONF_dns_port", "x"), variable("FTLCONF_dns_rate_limit", "0")];
    let mut c = Config::default();
    let e = c.apply_env_overrides(&bad).unwrap_err();
    assert_eq!(e.message(), "Validation error: Invalid port: x");
    assert_eq!(c.dns.rate_limit, 1000, "the first error ends the matter");

    let zero = vec![variable("FTLCONF_dns_rate_limit", "0")];
    let e = Config::load(Config::default(), &zero).unwrap_err();
    assert_eq!(e.message(), "Validation error: Rate limit must be > 0");
}
