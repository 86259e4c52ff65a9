//! The configuration: its sections, their defaults, and the overrides that the environment
//! may hold.

use crate::address::{IpAddr, SocketAddr};
use crate::text;
use vstd::prelude::*;

verus! {

broadcast use vstd::string::group_string_axioms;

/// Why a configuration was not accepted.
#[derive(Debug, Clone, PartialEq)]
pub enum ConfigError {
    /// The file at `path` could not be read.
    FileRead { path: String, reason: String },
    /// The file is not in the expected format.
    Parse(String),
    /// The environment could not be read.
    Env(String),
    /// A value is not acceptable.
    Validation(String),
}

impl ConfigError {
    /// The text of the error.
    pub open spec fn text(&self) -> Seq<char> {
        match *self {
            ConfigError::FileRead { path, reason } => "Failed to read config file "@ + path@ + ": "@
                + reason@,
            ConfigError::Parse(m) => "Failed to parse config file: "@ + m@,
            ConfigError::Env(m) => "Environment variable error: "@ + m@,
            ConfigError::Validation(m) => "Validation error: "@ + m@,
        }
    }

    /// The error as a line for people.
    pub fn message(&self) -> (r: String)
        ensures
            r@ == self.text(),
    {
        match self {
            ConfigError::FileRead { path, reason } => {
                let mut s = "Failed to read config file ".to_owned();
                s.append(path.as_str());
                s.append(": ");
                s.append(reason.as_str());
                s
            },
            ConfigError::Parse(m) => {
                let mut s = "Failed to parse config file: ".to_owned();
                s.append(m.as_str());
                s
            },
            ConfigError::Env(m) => {
                let mut s = "Environment variable error: ".to_owned();
                s.append(m.as_str());
                s
            },
            ConfigError::Validation(m) => {
                let mut s = "Validation error: ".to_owned();
                s.append(m.as_str());
                s
            },
        }
    }
}

/// A validation error whose text is `label` followed by `value`.
fn invalid(label: &str, value: &str) -> (r: ConfigError)
    ensures
        r matches ConfigError::Validation(m) && m@ == label@ + value@,
{
    let mut s = label.to_owned();
    s.append(value);
    ConfigError::Validation(s)
}

/// The whole configuration.
#[derive(Debug, Clone)]
pub struct Config {
    pub dns: DnsConfig,
    pub dhcp: DhcpConfig,
    pub webserver: WebServerConfig,
    pub database: DatabaseConfig,
    pub debug: DebugConfig,
    pub misc: MiscConfig,
    pub blocking: BlockingConfig,
    pub files: FileConfig,
}

/// The resolver.
#[derive(Debug, Clone)]
pub struct DnsConfig {
    /// The servers that queries are forwarded to, in order.
    pub upstreams: Vec<DnsUpstream>,
    /// Where the listener is bound.
    pub bind: SocketAddr,
    /// How a blocked query is answered.
    pub blocking_mode: BlockingMode,
    /// Queries per second that one client may send.
    pub rate_limit: u32,
    /// How many answers the cache holds.
    pub cache_size: usize,
    /// Whether queries are logged.
    pub query_log: bool,
    /// How long logged queries are kept, in seconds.
    pub query_retention: u64,
    /// The address that a blocked query is answered with in mode `Ip`.
    pub blocking_ip: IpAddr,
    /// The interface to listen on; all of them where there is none.
    pub interface: Option<String>,
    /// The port of the listener.
    pub port: u16,
    /// How many queries may be in work at a time.
    pub max_concurrent_queries: usize,
    /// Connections per TLS upstream.
    pub dot_conn_max: usize,
    /// Queries in flight per TLS connection.
    pub dot_job_max: usize,
    /// Queries that may wait for a TLS connection.
    pub dot_pending_max: usize,
}

/// A server that queries are forwarded to.
#[derive(Debug, Clone, PartialEq)]
pub enum DnsUpstream {
    /// Plain DNS over UDP and TCP.
    Plain { address: IpAddr, port: u16 },
    /// DNS over TLS; the certificate must be that of `hostname`.
    Tls { address: IpAddr, port: u16, hostname: String },
}

/// How a blocked query is answered.
#[derive(Debug, Clone, Copy, PartialEq, Eq, Structural)]
pub enum BlockingMode {
    /// With 0.0.0.0, or :: for AAAA.
    Null,
    /// With NXDOMAIN.
    Nxdomain,
    /// With the configured address.
    Ip,
    /// With REFUSED.
    Refused,
    /// With an empty answer.
    Nodata,
    /// Nothing is blocked.
    Disabled,
}

/// The DHCP server.
#[derive(Debug, Clone)]
pub struct DhcpConfig {
    pub enabled: bool,
    pub interface: Option<String>,
    /// The gateway that is handed out; it also identifies the server.
    pub router: Option<u32>,
    pub netmask: u32,
    /// The name server that is handed out; the server itself where there is none.
    pub dns_server: Option<u32>,
    pub pool_start: Option<u32>,
    pub pool_end: Option<u32>,
    /// Seconds that a lease lasts.
    pub lease_time: u32,
    pub domain: Option<String>,
}

/// The web server and its API.
#[derive(Debug, Clone)]
pub struct WebServerConfig {
    /// Ports, each a number followed by `o` (plain) or `os` (TLS).
    pub ports: Vec<String>,
    pub tls_cert: Option<String>,
    pub tls_key: Option<String>,
    /// The password of the API, hashed.
    pub password_hash: Option<String>,
    /// Seconds that a session lasts.
    pub session_timeout: u64,
    pub api_rate_limit: u32,
    pub totp_enabled: bool,
    pub totp_secret: Option<String>,
}

/// The databases.
#[derive(Debug, Clone)]
pub struct DatabaseConfig {
    pub gravity_db: String,
    pub nimbus_db: String,
    pub max_queries_stored: u64,
    pub analyze_interval: u64,
    pub delete_interval: u64,
    pub query_retention: u64,
    /// Milliseconds to wait for a locked database.
    pub busy_timeout: u64,
}

/// What is logged in detail.
#[derive(Debug, Clone, Copy, PartialEq, Eq, Structural)]
pub struct DebugConfig {
    pub all: bool,
    pub resolver: bool,
    pub api: bool,
    pub database: bool,
    pub dns: bool,
    pub locking: bool,
    pub edns0: bool,
    pub regex: bool,
    pub config: bool,
    pub dot: bool,
}

/// Everything else.
#[derive(Debug, Clone, Copy, PartialEq, Eq, Structural)]
pub struct MiscConfig {
    /// Seconds to wait before the start.
    pub delay_startup: u64,
    /// The nice value of the process; -999 leaves it as it is.
    pub nice: i32,
    pub check_other_instance: bool,
    pub enable_ipv6: bool,
    pub normalize_cpu: bool,
}

/// The blocklist.
#[derive(Debug, Clone)]
pub struct BlockingConfig {
    /// Where the hosts file is fetched from.
    pub source_url: String,
    /// Seconds between two fetches.
    pub refresh_interval: u64,
}

/// Paths of files.
#[derive(Debug, Clone)]
pub struct FileConfig {
    pub pid_file: String,
    pub log_file: Option<String>,
    pub socket: Option<String>,
    pub setup_vars: Option<String>,
}

impl Default for BlockingMode {
    /// Blocked queries are answered with the null address.
    fn default() -> (r: Self)
        ensures
            r == BlockingMode::Null,
    {
        BlockingMode::Null
    }
}

impl Default for DhcpConfig {
    /// Not enabled; leases of a day in a /24 network.
    fn default() -> (r: Self)
        ensures
            !r.enabled && r.interface is None && r.router is None && r.dns_server is None,
            r.pool_start is None && r.pool_end is None && r.domain is None,
            r.netmask == crate::address::ipv4_number(255, 255, 255, 0),
            r.lease_time == 86400,
    {
        DhcpConfig {
            enabled: false,
            interface: None,
            router: None,
            netmask: crate::address::ipv4(255, 255, 255, 0),
            dns_server: None,
            pool_start: None,
            pool_end: None,
            lease_time: 86400,
            domain: None,
        }
    }
}

impl Default for BlockingConfig {
    /// The StevenBlack hosts file, fetched daily.
    fn default() -> (r: Self)
        ensures
            r.source_url@ == "https://raw.githubusercontent.com/StevenBlack/hosts/master/hosts"@,
            r.refresh_interval == 86400,
    {
        BlockingConfig {
            source_url: "https://raw.githubusercontent.com/StevenBlack/hosts/master/hosts".to_owned(),
            refresh_interval: 86400,
        }
    }
}

impl Default for DebugConfig {
    /// Nothing is logged in detail.
    fn default() -> (r: Self)
        ensures
            !r.all && !r.resolver && !r.api && !r.database && !r.dns,
            !r.locking && !r.edns0 && !r.regex && !r.config && !r.dot,
    {
        DebugConfig {
            all: false,
            resolver: false,
            api: false,
            database: false,
            dns: false,
            locking: false,
            edns0: false,
            regex: false,
            config: false,
            dot: false,
        }
    }
}

impl DebugConfig {
    /// Whether anything is logged in detail.
    pub fn any(&self) -> (r: bool)
        ensures
            r == (self.all || self.resolver || self.api || self.database || self.dns || self.locking
                || self.edns0 || self.regex || self.config || self.dot),
    {
        self.all || self.resolver || self.api || self.database || self.dns || self.locking
            || self.edns0 || self.regex || self.config || self.dot
    }
}

impl Default for MiscConfig {
    fn default() -> (r: Self)
        ensures
            r.delay_startup == 0,
            r.nice == -999,
            r.check_other_instance && r.enable_ipv6 && r.normalize_cpu,
    {
        MiscConfig {
            delay_startup: 0,
            nice: -999,
            check_other_instance: true,
            enable_ipv6: true,
            normalize_cpu: true,
        }
    }
}

impl Default for WebServerConfig {
    /// Plain on port 80 and TLS on port 443; sessions of a day; no password.
    fn default() -> (r: Self)
        ensures
            r.ports@.len() == 2,
            r.ports@[0]@ == "80o"@,
            r.ports@[1]@ == "443os"@,
            r.tls_cert is None && r.tls_key is None && r.password_hash is None,
            r.session_timeout == 86400,
            r.api_rate_limit == 100,
            !r.totp_enabled && r.totp_secret is None,
    {
        let mut ports: Vec<String> = Vec::new();
        ports.push("80o".to_owned());
        ports.push("443os".to_owned());
        WebServerConfig {
            ports,
            tls_cert: None,
            tls_key: None,
            password_hash: None,
            session_timeout: 86400,
            api_rate_limit: 100,
            totp_enabled: false,
            totp_secret: None,
        }
    }
}

/// A path from the environment, or else the usual one.
fn path_or(from_env: Option<String>, usual: &str) -> (r: String)
    ensures
        r@ == (match from_env {
            Some(p) => p@,
            None => usual@,
        }),
{
    match from_env {
        Some(p) => p,
        None => usual.to_owned(),
    }
}

impl DatabaseConfig {
    /// The defaults, with the two paths as the environment gives them.
    pub fn from_env(gravity_db: Option<String>, nimbus_db: Option<String>) -> (r: Self)
        ensures
            r.gravity_db@ == (match gravity_db {
                Some(p) => p@,
                None => "/etc/nimbusdns/gravity.db"@,
            }),
            r.nimbus_db@ == (match nimbus_db {
                Some(p) => p@,
                None => "/etc/nimbusdns/nimbusdns.db"@,
            }),
            r.max_queries_stored == 500_000,
            r.analyze_interval == 604_800,
            r.delete_interval == 86_400,
            r.query_retention == 365 * 86_400,
            r.busy_timeout == 1000,
    {
        DatabaseConfig {
            gravity_db: path_or(gravity_db, "/etc/nimbusdns/gravity.db"),
            nimbus_db: path_or(nimbus_db, "/etc/nimbusdns/nimbusdns.db"),
            max_queries_stored: 500_000,
            analyze_interval: 604_800,
            delete_interval: 86_400,
            query_retention: 365 * 86_400,
            busy_timeout: 1000,
        }
    }
}

impl Default for DatabaseConfig {
    /// The defaults where the environment gives no path.
    fn default() -> (r: Self)
        ensures
            r.gravity_db@ == "/etc/nimbusdns/gravity.db"@,
            r.nimbus_db@ == "/etc/nimbusdns/nimbusdns.db"@,
            r.max_queries_stored == 500_000,
            r.analyze_interval == 604_800,
            r.delete_interval == 86_400,
            r.query_retention == 365 * 86_400,
            r.busy_timeout == 1000,
    {
        DatabaseConfig::from_env(None, None)
    }
}

/// A place for a file: where the environment puts it; else the usual place, if its directory is
/// there; else a place among the temporary files.
pub struct Place {
    pub from_env: Option<String>,
    pub directory_exists: bool,
    pub temporary: String,
}

impl Place {
    /// The path that is chosen when the usual place is `usual`.
    pub open spec fn chosen(&self, usual: Seq<char>) -> Seq<char> {
        match self.from_env {
            Some(p) => p@,
            None => if self.directory_exists {
                usual
            } else {
                self.temporary@
            },
        }
    }

    /// Chooses the path.
    pub fn pick(self, usual: &str) -> (r: String)
        ensures
            r@ == self.chosen(usual@),
    {
        match self.from_env {
            Some(p) => p,
            None => if self.directory_exists {
                usual.to_owned()
            } else {
                self.temporary
            },
        }
    }
}

impl FileConfig {
    /// The paths, chosen by what the environment says and which directories there are.
    pub fn from_places(pid_file: Place, log_file: Place, socket: Place) -> (r: Self)
        ensures
            r.pid_file@ == pid_file.chosen("/run/nimbusdns.pid"@),
            r.log_file is Some && r.log_file->0@ == log_file.chosen("/var/log/nimbusdns/nimbus.log"@),
            r.socket is Some && r.socket->0@ == socket.chosen("/run/nimbusdns/nimbus.sock"@),
            r.setup_vars is Some && r.setup_vars->0@ == "/etc/nimbusdns/nimbus.conf"@,
    {
        FileConfig {
            pid_file: pid_file.pick("/run/nimbusdns.pid"),
            log_file: Some(log_file.pick("/var/log/nimbusdns/nimbus.log")),
            socket: Some(socket.pick("/run/nimbusdns/nimbus.sock")),
            setup_vars: Some("/etc/nimbusdns/nimbus.conf".to_owned()),
        }
    }
}

impl Default for FileConfig {
    /// The usual places.
    fn default() -> (r: Self)
        ensures
            r.pid_file@ == "/run/nimbusdns.pid"@,
            r.log_file is Some && r.log_file->0@ == "/var/log/nimbusdns/nimbus.log"@,
            r.socket is Some && r.socket->0@ == "/run/nimbusdns/nimbus.sock"@,
            r.setup_vars is Some && r.setup_vars->0@ == "/etc/nimbusdns/nimbus.conf"@,
    {
        FileConfig {
            pid_file: "/run/nimbusdns.pid".to_owned(),
            log_file: Some("/var/log/nimbusdns/nimbus.log".to_owned()),
            socket: Some("/run/nimbusdns/nimbus.sock".to_owned()),
            setup_vars: Some("/etc/nimbusdns/nimbus.conf".to_owned()),
        }
    }
}

impl Default for DnsConfig {
    /// Two TLS upstreams; listening on port 53 of every interface.
    fn default() -> (r: Self)
        ensures
            r.upstreams@.len() == 2,
            r.upstreams@[0] matches DnsUpstream::Tls { address, port, hostname } && address
                == IpAddr::V4(0x0808_0808) && port == 853 && hostname@ == "dns.google"@,
            r.upstreams@[1] matches DnsUpstream::Tls { address, port, hostname } && address
                == IpAddr::V4(0x0101_0101) && port == 853 && hostname@ == "cloudflare-dns.com"@,
            r.bind == (SocketAddr { ip: IpAddr::V4(0), port: 53 }),
            r.blocking_mode == BlockingMode::Null,
            r.rate_limit == 1000,
            r.cache_size == 10_000,
            r.query_log,
            r.query_retention == 30 * 86_400,
            r.blocking_ip == IpAddr::V4(0),
            r.interface is None,
            r.port == 53,
            r.max_concurrent_queries == 150,
            r.dot_conn_max == 4,
            r.dot_job_max == 32,
            r.dot_pending_max == 16,
    {
        let mut upstreams: Vec<DnsUpstream> = Vec::new();
        upstreams.push(
            DnsUpstream::Tls {
                address: IpAddr::V4(0x0808_0808),
                port: 853,
                hostname: "dns.google".to_owned(),
            },
        );
        upstreams.push(
            DnsUpstream::Tls {
                address: IpAddr::V4(0x0101_0101),
                port: 853,
                hostname: "cloudflare-dns.com".to_owned(),
            },
        );
        DnsConfig {
            upstreams,
            bind: SocketAddr { ip: IpAddr::V4(0), port: 53 },
            blocking_mode: BlockingMode::Null,
            rate_limit: 1000,
            cache_size: 10_000,
            query_log: true,
            query_retention: 30 * 86_400,
            blocking_ip: IpAddr::V4(0),
            interface: None,
            port: 53,
            max_concurrent_queries: 150,
            dot_conn_max: 4,
            dot_job_max: 32,
            dot_pending_max: 16,
        }
    }
}

/// A port of the web server.
#[derive(Debug, Clone, Copy, PartialEq, Eq, Structural)]
pub enum WebPort {
    /// Plain HTTP.
    Http(u16),
    /// HTTP over TLS.
    Https(u16),
}

/// The port number that a text writes.
pub open spec fn port_number(s: Seq<char>) -> Option<u16> {
    match text::unsigned_value(s, 10, 0xffff) {
        Some(n) => Some(n as u16),
        None => None,
    }
}

/// Reads a port number.
fn parse_port(s: &[char]) -> (r: Option<u16>)
    ensures
        r == port_number(s@),
{
    match text::parse_unsigned(s, 10, 0xffff) {
        Some(n) => Some(n as u16),
        None => None,
    }
}

/// The port that an entry such as `80o` or `443os` stands for: white space round it is ignored,
/// `os` at the end means TLS, `o` or nothing at the end means plain.
pub open spec fn web_port(s: Seq<char>) -> Option<WebPort> {
    let t = text::trimmed(s);
    let n = t.len() as int;
    if n >= 2 && t[n - 2] == 'o' && t[n - 1] == 's' {
        match port_number(t.subrange(0, n - 2)) {
            Some(p) => Some(WebPort::Https(p)),
            None => None,
        }
    } else if n >= 1 && t[n - 1] == 'o' {
        match port_number(t.subrange(0, n - 1)) {
            Some(p) => Some(WebPort::Http(p)),
            None => None,
        }
    } else {
        match port_number(t) {
            Some(p) => Some(WebPort::Http(p)),
            None => None,
        }
    }
}

impl WebPort {
    /// Reads an entry such as `80o` (plain) or `443os` (TLS).
    pub fn parse(s: &str) -> (r: Option<WebPort>)
        ensures
            r == web_port(s@),
    {
        let c = text::chars_of(s);
        let t: &[char] = text::trim(c.as_slice());
        let n: usize = t.len();
        if n >= 2 && t[n - 2] == 'o' && t[n - 1] == 's' {
            match parse_port(&t[0..n - 2]) {
                Some(p) => Some(WebPort::Https(p)),
                None => None,
            }
        } else if n >= 1 && t[n - 1] == 'o' {
            match parse_port(&t[0..n - 1]) {
                Some(p) => Some(WebPort::Http(p)),
                None => None,
            }
        } else {
            match parse_port(t) {
                Some(p) => Some(WebPort::Http(p)),
                None => None,
            }
        }
    }

    /// The port number.
    pub open spec fn number(&self) -> u16 {
        match *self {
            WebPort::Http(p) => p,
            WebPort::Https(p) => p,
        }
    }

    /// The port number.
    pub fn port(&self) -> (r: u16)
        ensures
            r == self.number(),
    {
        match self {
            WebPort::Http(p) => *p,
            WebPort::Https(p) => *p,
        }
    }

    /// Whether the port uses TLS.
    pub fn is_tls(&self) -> (r: bool)
        ensures
            r == (*self is Https),
    {
        match self {
            WebPort::Http(_) => false,
            WebPort::Https(_) => true,
        }
    }
}

/// The ports that the readable entries stand for, in order.
pub open spec fn web_ports(entries: Seq<Seq<char>>) -> Seq<WebPort>
    decreases entries.len(),
{
    if entries.len() == 0 {
        Seq::empty()
    } else {
        let before = web_ports(entries.drop_last());
        match web_port(entries.last()) {
            Some(p) => before.push(p),
            None => before,
        }
    }
}

/// The number of the first plain port, or 8080.
pub open spec fn first_http(ports: Seq<WebPort>) -> u16
    decreases ports.len(),
{
    if ports.len() == 0 {
        8080
    } else if ports[0] is Http {
        ports[0].number()
    } else {
        first_http(ports.subrange(1, ports.len() as int))
    }
}

impl WebServerConfig {
    /// The ports, in order; entries that cannot be read are left out.
    pub fn parsed_ports(&self) -> (r: Vec<WebPort>)
        ensures
            r@ == web_ports(text::texts(self.ports@)),
    {
        let mut out: Vec<WebPort> = Vec::new();
        let ghost all = text::texts(self.ports@);
        let mut i: usize = 0;
        while i < self.ports.len()
            invariant
                i <= self.ports@.len(),
                all == text::texts(self.ports@),
                out@ == web_ports(all.subrange(0, i as int)),
            decreases self.ports@.len() - i,
        {
            proof {
                let longer = all.subrange(0, i + 1);
                assert(longer.drop_last() =~= all.subrange(0, i as int));
                assert(longer.last() == self.ports@[i as int]@);
            }
            match WebPort::parse(self.ports[i].as_str()) {
                Some(p) => {
                    out.push(p);
                },
                None => {},
            }
            i += 1;
        }
        assert(all.subrange(0, all.len() as int) =~= all);
        out
    }

    /// The first plain port, or 8080 where there is none.
    pub fn http_port(&self) -> (r: u16)
        ensures
            r == first_http(web_ports(text::texts(self.ports@))),
    {
        let ports = self.parsed_ports();
        let mut i: usize = 0;
        assert(ports@.subrange(0, ports@.len() as int) =~= ports@);
        while i < ports.len()
            invariant
                i <= ports@.len(),
                ports@ == web_ports(text::texts(self.ports@)),
                first_http(ports@) == first_http(ports@.subrange(i as int, ports@.len() as int)),
            decreases ports@.len() - i,
        {
            let ghost tail = ports@.subrange(i as int, ports@.len() as int);
            if !ports[i].is_tls() {
                assert(tail[0] == ports@[i as int]);
                return ports[i].port();
            }
            proof {
                assert(tail[0] == ports@[i as int]);
                assert(tail.subrange(1, tail.len() as int) =~= ports@.subrange(
                    i + 1,
                    ports@.len() as int,
                ));
            }
            i += 1;
        }
        8080
    }

    /// Where the server named `iface` listens: on every interface, at the first plain port.
    pub fn bind_addr(&self, iface: &str) -> (r: SocketAddr)
        ensures
            r == (SocketAddr {
                ip: IpAddr::V4(0),
                port: first_http(web_ports(text::texts(self.ports@))),
            }),
    {
        SocketAddr { ip: IpAddr::V4(0), port: self.http_port() }
    }
}

impl Default for Config {
    fn default() -> (r: Self)
        ensures
            call_ensures(DnsConfig::default, (), r.dns),
            call_ensures(DhcpConfig::default, (), r.dhcp),
            call_ensures(WebServerConfig::default, (), r.webserver),
            call_ensures(DatabaseConfig::default, (), r.database),
            call_ensures(DebugConfig::default, (), r.debug),
            call_ensures(MiscConfig::default, (), r.misc),
            call_ensures(BlockingConfig::default, (), r.blocking),
            call_ensures(FileConfig::default, (), r.files),
    {
        Config {
            dns: DnsConfig::default(),
            dhcp: DhcpConfig::default(),
            webserver: WebServerConfig::default(),
            database: DatabaseConfig::default(),
            debug: DebugConfig::default(),
            misc: MiscConfig::default(),
            blocking: BlockingConfig::default(),
            files: FileConfig::default(),
        }
    }
}

/// What the parser of addresses says of one value of the environment.
pub struct AddressReading {
    /// The value read as an address.
    pub ip: Option<IpAddr>,
    /// The value read as an IPv4 address.
    pub ipv4: Option<u32>,
    /// The value read as an address with a port.
    pub socket: Option<SocketAddr>,
    /// The texts that `upstream_addresses` finds in the value, each read as an address.
    pub upstreams: Vec<Option<IpAddr>>,
}

/// The setting that a name in the environment speaks of.
#[derive(Debug, Clone, Copy, PartialEq, Eq, Structural)]
pub enum EnvKey {
    DnsUpstreams,
    DnsBlockingMode,
    DnsRateLimit,
    DnsPort,
    DnsBind,
    DnsBlockingIp,
    DnsQueryLog,
    WebserverPort,
    DhcpEnabled,
    DhcpPoolStart,
    DhcpPoolEnd,
    DhcpRouter,
    DhcpDnsServer,
    DhcpLeaseTime,
    DhcpDomain,
    BlockingSourceUrl,
    BlockingRefreshInterval,
    DebugAll,
    DebugResolver,
    DebugApi,
    DebugDatabase,
    DebugDns,
    DebugLocking,
    DebugEdns0,
    DebugRegex,
    DebugConfig,
    DebugDot,
    Unknown,
}

/// The setting of a name, which stands behind the prefix `FTLCONF_`.
pub open spec fn env_key(k: Seq<char>) -> EnvKey {
    if k == "dns_upstreams"@ {
        EnvKey::DnsUpstreams
    } else if k == "dns_blocking_mode"@ || k == "dns_blockingMode"@ {
        EnvKey::DnsBlockingMode
    } else if k == "dns_rate_limit"@ || k == "dns_rateLimit"@ {
        EnvKey::DnsRateLimit
    } else if k == "dns_port"@ {
        EnvKey::DnsPort
    } else if k == "dns_bind"@ {
        EnvKey::DnsBind
    } else if k == "dns_blocking_ip"@ || k == "dns_blockingIp"@ {
        EnvKey::DnsBlockingIp
    } else if k == "dns_query_log"@ {
        EnvKey::DnsQueryLog
    } else if k == "webserver_port"@ {
        EnvKey::WebserverPort
    } else if k == "dhcp_enabled"@ {
        EnvKey::DhcpEnabled
    } else if k == "dhcp_pool_start"@ || k == "dhcp_poolStart"@ {
        EnvKey::DhcpPoolStart
    } else if k == "dhcp_pool_end"@ || k == "dhcp_poolEnd"@ {
        EnvKey::DhcpPoolEnd
    } else if k == "dhcp_router"@ {
        EnvKey::DhcpRouter
    } else if k == "dhcp_dns_server"@ || k == "dhcp_dnsServer"@ {
        EnvKey::DhcpDnsServer
    } else if k == "dhcp_lease_time"@ || k == "dhcp_leaseTime"@ {
        EnvKey::DhcpLeaseTime
    } else if k == "dhcp_domain"@ {
        EnvKey::DhcpDomain
    } else if k == "blocking_source_url"@ {
        EnvKey::BlockingSourceUrl
    } else if k == "blocking_refresh_interval"@ {
        EnvKey::BlockingRefreshInterval
    } else if k == "debug_all"@ || k == "debug_All"@ {
        EnvKey::DebugAll
    } else if k == "debug_resolver"@ {
        EnvKey::DebugResolver
    } else if k == "debug_api"@ {
        EnvKey::DebugApi
    } else if k == "debug_database"@ || k == "debug_Database"@ {
        EnvKey::DebugDatabase
    } else if k == "debug_dns"@ || k == "debug_DNS"@ {
        EnvKey::DebugDns
    } else if k == "debug_locking"@ {
        EnvKey::DebugLocking
    } else if k == "debug_edns0"@ || k == "debug_EDNS0"@ {
        EnvKey::DebugEdns0
    } else if k == "debug_regex"@ {
        EnvKey::DebugRegex
    } else if k == "debug_config"@ {
        EnvKey::DebugConfig
    } else if k == "debug_dot"@ || k == "debug_DoT"@ {
        EnvKey::DebugDot
    } else {
        EnvKey::Unknown
    }
}

/// Finds the setting of a name.
pub fn find_env_key(key: &str) -> (r: EnvKey)
    ensures
        r == env_key(key@),
{
    let c = text::chars_of(key);
    let k: &[char] = c.as_slice();
    if text::is_text(k, "dns_upstreams") {
        EnvKey::DnsUpstreams
    } else if text::is_text(k, "dns_blocking_mode") || text::is_text(k, "dns_blockingMode") {
        EnvKey::DnsBlockingMode
    } else if text::is_text(k, "dns_rate_limit") || text::is_text(k, "dns_rateLimit") {
        EnvKey::DnsRateLimit
    } else if text::is_text(k, "dns_port") {
        EnvKey::DnsPort
    } else if text::is_text(k, "dns_bind") {
        EnvKey::DnsBind
    } else if text::is_text(k, "dns_blocking_ip") || text::is_text(k, "dns_blockingIp") {
        EnvKey::DnsBlockingIp
    } else if text::is_text(k, "dns_query_log") {
        EnvKey::DnsQueryLog
    } else if text::is_text(k, "webserver_port") {
        EnvKey::WebserverPort
    } else if text::is_text(k, "dhcp_enabled") {
        EnvKey::DhcpEnabled
    } else if text::is_text(k, "dhcp_pool_start") || text::is_text(k, "dhcp_poolStart") {
        EnvKey::DhcpPoolStart
    } else if text::is_text(k, "dhcp_pool_end") || text::is_text(k, "dhcp_poolEnd") {
        EnvKey::DhcpPoolEnd
    } else if text::is_text(k, "dhcp_router") {
        EnvKey::DhcpRouter
    } else if text::is_text(k, "dhcp_dns_server") || text::is_text(k, "dhcp_dnsServer") {
        EnvKey::DhcpDnsServer
    } else if text::is_text(k, "dhcp_lease_time") || text::is_text(k, "dhcp_leaseTime") {
        EnvKey::DhcpLeaseTime
    } else if text::is_text(k, "dhcp_domain") {
        EnvKey::DhcpDomain
    } else if text::is_text(k, "blocking_source_url") {
        EnvKey::BlockingSourceUrl
    } else if text::is_text(k, "blocking_refresh_interval") {
        EnvKey::BlockingRefreshInterval
    } else if text::is_text(k, "debug_all") || text::is_text(k, "debug_All") {
        EnvKey::DebugAll
    } else if text::is_text(k, "debug_resolver") {
        EnvKey::DebugResolver
    } else if text::is_text(k, "debug_api") {
        EnvKey::DebugApi
    } else if text::is_text(k, "debug_database") || text::is_text(k, "debug_Database") {
        EnvKey::DebugDatabase
    } else if text::is_text(k, "debug_dns") || text::is_text(k, "debug_DNS") {
        EnvKey::DebugDns
    } else if text::is_text(k, "debug_locking") {
        EnvKey::DebugLocking
    } else if text::is_text(k, "debug_edns0") || text::is_text(k, "debug_EDNS0") {
        EnvKey::DebugEdns0
    } else if text::is_text(k, "debug_regex") {
        EnvKey::DebugRegex
    } else if text::is_text(k, "debug_config") {
        EnvKey::DebugConfig
    } else if text::is_text(k, "debug_dot") || text::is_text(k, "debug_DoT") {
        EnvKey::DebugDot
    } else {
        EnvKey::Unknown
    }
}

/// The blocking mode that a text names, without regard to case.
pub open spec fn named_mode(s: Seq<char>) -> Option<BlockingMode> {
    let u = text::uppercase(s);
    if u == "NULL"@ {
        Some(BlockingMode::Null)
    } else if u == "NXDOMAIN"@ {
        Some(BlockingMode::Nxdomain)
    } else if u == "IP"@ {
        Some(BlockingMode::Ip)
    } else if u == "REFUSED"@ {
        Some(BlockingMode::Refused)
    } else if u == "NODATA"@ {
        Some(BlockingMode::Nodata)
    } else if u == "DISABLED"@ {
        Some(BlockingMode::Disabled)
    } else {
        None
    }
}

/// The text of the error for a mode that has no such name.
pub open spec fn unknown_mode_text(s: Seq<char>) -> Seq<char> {
    "Unknown blocking mode: "@ + s + ". Valid: NULL, NXDOMAIN, IP, REFUSED, NODATA, DISABLED"@
}

/// Reads the name of a blocking mode.
pub fn parse_blocking_mode(s: &str) -> (r: Result<BlockingMode, ConfigError>)
    ensures
        match named_mode(s@) {
            Some(m) => r == Ok::<BlockingMode, ConfigError>(m),
            None => r matches Err(ConfigError::Validation(t)) && t@ == unknown_mode_text(s@),
        },
        // A name in ASCII letters is read whatever the case of its letters.
        text::all_ascii(s@) ==> text::uppercase(s@) == text::ascii_upper(s@),
{
    let upper = text::to_uppercase(s);
    let c = text::chars_of(upper.as_str());
    let u: &[char] = c.as_slice();
    if text::is_text(u, "NULL") {
        Ok(BlockingMode::Null)
    } else if text::is_text(u, "NXDOMAIN") {
        Ok(BlockingMode::Nxdomain)
    } else if text::is_text(u, "IP") {
        Ok(BlockingMode::Ip)
    } else if text::is_text(u, "REFUSED") {
        Ok(BlockingMode::Refused)
    } else if text::is_text(u, "NODATA") {
        Ok(BlockingMode::Nodata)
    } else if text::is_text(u, "DISABLED") {
        Ok(BlockingMode::Disabled)
    } else {
        let mut m = "Unknown blocking mode: ".to_owned();
        m.append(s);
        m.append(". Valid: NULL, NXDOMAIN, IP, REFUSED, NODATA, DISABLED");
        Err(ConfigError::Validation(m))
    }
}

/// The entries of a list: its pieces without the white space round them, and without the empty
/// ones.
pub open spec fn entries(pieces: Seq<Seq<char>>) -> Seq<Seq<char>>
    decreases pieces.len(),
{
    if pieces.len() == 0 {
        Seq::empty()
    } else {
        let before = entries(pieces.drop_last());
        let t = text::trimmed(pieces.last());
        if t.len() == 0 {
            before
        } else {
            before.push(t)
        }
    }
}

/// The entries of a list of upstreams, which are separated by `;`.
pub open spec fn upstream_entries(input: Seq<char>) -> Seq<Seq<char>> {
    entries(text::pieces(input, ';'))
}

/// The entry is that of a TLS upstream.
pub open spec fn entry_is_tls(e: Seq<char>) -> bool {
    "tls://"@.is_prefix_of(e)
}

/// The fields of an entry, which are separated by `#`: address, port, name.
pub open spec fn entry_fields(e: Seq<char>) -> Seq<Seq<char>> {
    let body = if entry_is_tls(e) {
        e.subrange(6, e.len() as int)
    } else {
        e
    };
    text::pieces(body, '#')
}

/// The port of an entry: its second field where that is a port, else the usual port.
pub open spec fn entry_port(e: Seq<char>) -> u16 {
    let fields = entry_fields(e);
    let usual: u16 = if entry_is_tls(e) {
        853
    } else {
        53
    };
    if fields.len() > 1 {
        match port_number(fields[1]) {
            Some(p) => p,
            None => usual,
        }
    } else {
        usual
    }
}

/// The name of a TLS entry: its third field, else its address.
pub open spec fn entry_name(e: Seq<char>) -> Seq<char> {
    let fields = entry_fields(e);
    if fields.len() > 2 {
        fields[2]
    } else {
        fields[0]
    }
}

/// `u` is the upstream of the entry `e` whose address is `a`.
pub open spec fn is_upstream(u: DnsUpstream, e: Seq<char>, a: IpAddr) -> bool {
    match u {
        DnsUpstream::Plain { address, port } => !entry_is_tls(e) && address == a && port
            == entry_port(e),
        DnsUpstream::Tls { address, port, hostname } => entry_is_tls(e) && address == a && port
            == entry_port(e) && hostname@ == entry_name(e),
    }
}

/// What was read of the address of the entry with index `i`.
pub open spec fn reading_at(readings: Seq<Option<IpAddr>>, i: int) -> Option<IpAddr> {
    if 0 <= i < readings.len() {
        readings[i]
    } else {
        None
    }
}

/// The result of reading a list of upstreams: the upstream of each entry, in order; an error at
/// the first entry whose address is none; an error where there is no entry.
pub open spec fn upstreams_outcome(
    input: Seq<char>,
    readings: Seq<Option<IpAddr>>,
    r: Result<Vec<DnsUpstream>, ConfigError>,
) -> bool {
    let list = upstream_entries(input);
    match r {
        Ok(v) => {
            &&& list.len() > 0
            &&& v@.len() == list.len()
            &&& forall|i: int| 0 <= i < list.len() ==> #[trigger] reading_at(readings, i) is Some
            &&& forall|i: int|
                0 <= i < list.len() ==> is_upstream(
                    #[trigger] v@[i],
                    list[i],
                    reading_at(readings, i)->0,
                )
        },
        Err(e) => {
            ||| list.len() == 0 && (e matches ConfigError::Validation(m) && m@
                == "No valid upstreams found in environment variable"@)
            ||| exists|i: int|
                {
                    &&& 0 <= i < list.len()
                    &&& #[trigger] reading_at(readings, i) is None
                    &&& forall|j: int| 0 <= j < i ==> #[trigger] reading_at(readings, j) is Some
                    &&& e matches ConfigError::Validation(m) && m@ == "Invalid IP in upstream: "@
                        + entry_fields(list[i])[0]
                }
        },
    }
}

/// Splits a list of upstreams into its entries.
fn split_entries(input: &str) -> (r: Vec<Vec<char>>)
    ensures
        r@.len() == upstream_entries(input@).len(),
        forall|i: int| 0 <= i < r@.len() ==> (#[trigger] r@[i])@ == upstream_entries(input@)[i],
{
    let c = text::chars_of(input);
    let parts = text::split(c.as_slice(), ';');
    let ghost all = text::pieces(input@, ';');
    let mut out: Vec<Vec<char>> = Vec::new();
    let mut i: usize = 0;
    while i < parts.len()
        invariant
            i <= parts@.len(),
            parts@.len() == all.len(),
            forall|k: int| 0 <= k < parts@.len() ==> (#[trigger] parts@[k])@ == all[k],
            out@.len() == entries(all.subrange(0, i as int)).len(),
            forall|k: int|
                0 <= k < out@.len() ==> (#[trigger] out@[k])@ == entries(
                    all.subrange(0, i as int),
                )[k],
        decreases parts@.len() - i,
    {
        proof {
            let longer = all.subrange(0, i + 1);
            assert(longer.drop_last() =~= all.subrange(0, i as int));
            assert(longer.last() == parts@[i as int]@);
        }
        let t: &[char] = text::trim(parts[i].as_slice());
        if t.len() > 0 {
            out.push(text::copy_chars(t));
        }
        i += 1;
    }
    assert(all.subrange(0, all.len() as int) =~= all);
    out
}

/// Splits an entry into its fields.
fn split_fields(e: &[char]) -> (r: Vec<Vec<char>>)
    ensures
        r@.len() == entry_fields(e@).len(),
        r@.len() > 0,
        forall|i: int| 0 <= i < r@.len() ==> (#[trigger] r@[i])@ == entry_fields(e@)[i],
{
    proof {
        reveal_strlit("tls://");
        lemma_pieces_nonempty(e@, '#');
        if entry_is_tls(e@) {
            lemma_pieces_nonempty(e@.subrange(6, e@.len() as int), '#');
        }
    }
    if text::starts_with(e, "tls://") {
        text::split(&e[6..e.len()], '#')
    } else {
        text::split(e, '#')
    }
}

proof fn lemma_pieces_nonempty(s: Seq<char>, c: char)
    ensures
        text::pieces(s, c).len() > 0,
{
}

/// The texts in a list of upstreams that must be read as addresses, in order.
pub fn upstream_addresses(input: &str) -> (r: Vec<String>)
    ensures
        r@.len() == upstream_entries(input@).len(),
        forall|i: int|
            0 <= i < r@.len() ==> (#[trigger] r@[i])@ == entry_fields(
                upstream_entries(input@)[i],
            )[0],
{
    let list = split_entries(input);
    let mut out: Vec<String> = Vec::new();
    let mut i: usize = 0;
    while i < list.len()
        invariant
            i <= list@.len(),
            out@.len() == i,
            list@.len() == upstream_entries(input@).len(),
            forall|k: int|
                0 <= k < list@.len() ==> (#[trigger] list@[k])@ == upstream_entries(input@)[k],
            forall|k: int|
                0 <= k < i ==> (#[trigger] out@[k])@ == entry_fields(
                    upstream_entries(input@)[k],
                )[0],
        decreases list@.len() - i,
    {
        let fields = split_fields(list[i].as_slice());
        out.push(text::string_of(fields[0].as_slice()));
        i += 1;
    }
    out
}

/// Reads one entry whose address is known.
fn read_upstream(e: &[char], fields: &Vec<Vec<char>>, address: IpAddr) -> (r: DnsUpstream)
    requires
        fields@.len() == entry_fields(e@).len(),
        fields@.len() > 0,
        forall|i: int| 0 <= i < fields@.len() ==> (#[trigger] fields@[i])@ == entry_fields(e@)[i],
    ensures
        is_upstream(r, e@, address),
{
    let tls: bool = text::starts_with(e, "tls://");
    let usual: u16 = if tls {
        853
    } else {
        53
    };
    let port: u16 = if fields.len() > 1 {
        match parse_port(fields[1].as_slice()) {
            Some(p) => p,
            None => usual,
        }
    } else {
        usual
    };
    if tls {
        let name: &Vec<char> = if fields.len() > 2 {
            &fields[2]
        } else {
            &fields[0]
        };
        DnsUpstream::Tls { address, port, hostname: text::string_of(name.as_slice()) }
    } else {
        DnsUpstream::Plain { address, port }
    }
}

/// Reads a list of upstreams such as `tls://8.8.8.8#853#dns.google;1.1.1.1#53`. What the parser
/// of addresses says of the texts of `upstream_addresses` stands in `readings`.
pub fn parse_upstreams(input: &str, readings: &Vec<Option<IpAddr>>) -> (r: Result<
    Vec<DnsUpstream>,
    ConfigError,
>)
    ensures
        upstreams_outcome(input@, readings@, r),
{
    let list = split_entries(input);
    let ghost want = upstream_entries(input@);
    let mut out: Vec<DnsUpstream> = Vec::new();
    let mut i: usize = 0;
    while i < list.len()
        invariant
            i <= list@.len(),
            out@.len() == i,
            want == upstream_entries(input@),
            list@.len() == want.len(),
            forall|k: int| 0 <= k < list@.len() ==> (#[trigger] list@[k])@ == want[k],
            forall|k: int| 0 <= k < i ==> #[trigger] reading_at(readings@, k) is Some,
            forall|k: int|
                0 <= k < i ==> is_upstream(
                    #[trigger] out@[k],
                    want[k],
                    reading_at(readings@, k)->0,
                ),
        decreases list@.len() - i,
    {
        let fields = split_fields(list[i].as_slice());
        let reading: Option<IpAddr> = if i < readings.len() {
            readings[i]
        } else {
            None
        };
        assert(reading == reading_at(readings@, i as int));
        match reading {
            Some(address) => {
                let u = read_upstream(list[i].as_slice(), &fields, address);
                out.push(u);
            },
            None => {
                let bad = text::string_of(fields[0].as_slice());
                return Err(invalid("Invalid IP in upstream: ", bad.as_str()));
            },
        }
        i += 1;
    }
    if out.len() == 0 {
        return Err(
            ConfigError::Validation(
                "No valid upstreams found in environment variable".to_owned(),
            ),
        );
    }
    Ok(out)
}

/// A number without sign that a text writes.
pub open spec fn number(s: Seq<char>, max: nat) -> Option<nat> {
    text::unsigned_value(s, 10, max)
}

/// The text says yes: `true` or `1`.
pub open spec fn says_yes(s: Seq<char>) -> bool {
    s == "true"@ || s == "1"@
}

/// The entries of a list of web ports, which are separated by `,`.
pub open spec fn port_entries(s: Seq<char>) -> Seq<Seq<char>> {
    text::pieces(s, ',').map_values(|p: Seq<char>| text::trimmed(p))
}

/// `r` is the validation error with the text `label` followed by `value`.
pub open spec fn rejected(r: Result<(), ConfigError>, label: Seq<char>, value: Seq<char>) -> bool {
    r matches Err(ConfigError::Validation(m)) && m@ == label + value
}

/// The resolver settings `b` that the setting `key` with the value `value` makes of `a`, and the
/// result `r` that is reported. Only the field of the setting changes; on an error nothing does.
pub open spec fn dns_outcome(
    a: DnsConfig,
    key: EnvKey,
    value: Seq<char>,
    reading: AddressReading,
    b: DnsConfig,
    r: Result<(), ConfigError>,
) -> bool {
    let ok = r == Ok::<(), ConfigError>(());
    match key {
        EnvKey::DnsUpstreams => {
            if r is Ok {
                &&& upstreams_outcome(value, reading.upstreams@, Ok(b.upstreams))
                &&& b == DnsConfig { upstreams: b.upstreams, ..a }
            } else {
                &&& upstreams_outcome(value, reading.upstreams@, Err(r->Err_0))
                &&& b == a
            }
        },
        EnvKey::DnsBlockingMode => match named_mode(value) {
            Some(m) => ok && b == (DnsConfig { blocking_mode: m, ..a }),
            None => b == a && (r matches Err(ConfigError::Validation(t)) && t@
                == unknown_mode_text(value)),
        },
        EnvKey::DnsRateLimit => match number(value, u32::MAX as nat) {
            Some(n) => ok && b == (DnsConfig { rate_limit: n as u32, ..a }),
            None => b == a && rejected(r, "Invalid rate_limit: "@, value),
        },
        EnvKey::DnsPort => match port_number(value) {
            Some(p) => ok && b == (DnsConfig {
                port: p,
                bind: SocketAddr { port: p, ..a.bind },
                ..a
            }),
            None => b == a && rejected(r, "Invalid port: "@, value),
        },
        EnvKey::DnsBind => match reading.socket {
            Some(s) => ok && b == (DnsConfig { bind: s, ..a }),
            None => b == a && rejected(r, "Invalid bind address: "@, value),
        },
        EnvKey::DnsBlockingIp => match reading.ip {
            Some(i) => ok && b == (DnsConfig { blocking_ip: i, ..a }),
            None => b == a && rejected(r, "Invalid blocking IP: "@, value),
        },
        EnvKey::DnsQueryLog => ok && b == (DnsConfig { query_log: says_yes(value), ..a }),
        _ => ok && b == a,
    }
}

/// The new value of a setting that is changed only where a value could be read.
pub open spec fn replaced(old_value: Option<u32>, read: Option<u32>) -> Option<u32> {
    if read is Some {
        read
    } else {
        old_value
    }
}

/// The DHCP settings `b` that the setting `key` makes of `a`. A value that cannot be read changes
/// nothing.
pub open spec fn dhcp_outcome(
    a: DhcpConfig,
    key: EnvKey,
    value: Seq<char>,
    reading: AddressReading,
    b: DhcpConfig,
) -> bool {
    match key {
        EnvKey::DhcpEnabled => b == (DhcpConfig { enabled: says_yes(value), ..a }),
        EnvKey::DhcpPoolStart => b == (DhcpConfig {
            pool_start: replaced(a.pool_start, reading.ipv4),
            ..a
        }),
        EnvKey::DhcpPoolEnd => b == (DhcpConfig {
            pool_end: replaced(a.pool_end, reading.ipv4),
            ..a
        }),
        EnvKey::DhcpRouter => b == (DhcpConfig { router: replaced(a.router, reading.ipv4), ..a }),
        EnvKey::DhcpDnsServer => b == (DhcpConfig {
            dns_server: replaced(a.dns_server, reading.ipv4),
            ..a
        }),
        EnvKey::DhcpLeaseTime => match number(value, u32::MAX as nat) {
            Some(n) => b == (DhcpConfig { lease_time: n as u32, ..a }),
            None => b == a,
        },
        EnvKey::DhcpDomain => {
            &&& b.domain is Some
            &&& b.domain->0@ == value
            &&& b == DhcpConfig { domain: b.domain, ..a }
        },
        _ => b == a,
    }
}

/// The debug settings that the setting `key` makes of `a`: its flag is set, whatever the value.
pub open spec fn debug_outcome(a: DebugConfig, key: EnvKey) -> DebugConfig {
    match key {
        EnvKey::DebugAll => DebugConfig { all: true, ..a },
        EnvKey::DebugResolver => DebugConfig { resolver: true, ..a },
        EnvKey::DebugApi => DebugConfig { api: true, ..a },
        EnvKey::DebugDatabase => DebugConfig { database: true, ..a },
        EnvKey::DebugDns => DebugConfig { dns: true, ..a },
        EnvKey::DebugLocking => DebugConfig { locking: true, ..a },
        EnvKey::DebugEdns0 => DebugConfig { edns0: true, ..a },
        EnvKey::DebugRegex => DebugConfig { regex: true, ..a },
        EnvKey::DebugConfig => DebugConfig { config: true, ..a },
        EnvKey::DebugDot => DebugConfig { dot: true, ..a },
        _ => a,
    }
}

/// The blocklist settings `b` that the setting `key` makes of `a`.
pub open spec fn blocking_outcome(
    a: BlockingConfig,
    key: EnvKey,
    value: Seq<char>,
    b: BlockingConfig,
) -> bool {
    match key {
        EnvKey::BlockingSourceUrl => {
            &&& b.source_url@ == value
            &&& b.refresh_interval == a.refresh_interval
        },
        EnvKey::BlockingRefreshInterval => match number(value, u64::MAX as nat) {
            Some(n) => b == (BlockingConfig { refresh_interval: n as u64, ..a }),
            None => b == a,
        },
        _ => b == a,
    }
}

/// The web server settings `b` that the setting `key` makes of `a`.
pub open spec fn webserver_outcome(
    a: WebServerConfig,
    key: EnvKey,
    value: Seq<char>,
    b: WebServerConfig,
) -> bool {
    if key == EnvKey::WebserverPort {
        &&& text::texts(b.ports@) == port_entries(value)
        &&& b == WebServerConfig { ports: b.ports, ..a }
    } else {
        b == a
    }
}

/// The configuration `b` that the setting `key` with the value `value` makes of `a`, and the
/// result `r` that is reported. Each section changes as its own settings say.
pub open spec fn env_outcome(
    a: Config,
    key: EnvKey,
    value: Seq<char>,
    reading: AddressReading,
    b: Config,
    r: Result<(), ConfigError>,
) -> bool {
    &&& dns_outcome(a.dns, key, value, reading, b.dns, r)
    &&& dhcp_outcome(a.dhcp, key, value, reading, b.dhcp)
    &&& webserver_outcome(a.webserver, key, value, b.webserver)
    &&& blocking_outcome(a.blocking, key, value, b.blocking)
    &&& b.debug == debug_outcome(a.debug, key)
    &&& b.database == a.database
    &&& b.misc == a.misc
    &&& b.files == a.files
}

/// Reads a list of web ports.
fn parse_port_entries(value: &str) -> (r: Vec<String>)
    ensures
        text::texts(r@) == port_entries(value@),
{
    let c = text::chars_of(value);
    let parts = text::split(c.as_slice(), ',');
    let mut out: Vec<String> = Vec::new();
    let mut i: usize = 0;
    while i < parts.len()
        invariant
            i <= parts@.len(),
            out@.len() == i,
            parts@.len() == text::pieces(value@, ',').len(),
            forall|k: int|
                0 <= k < parts@.len() ==> (#[trigger] parts@[k])@ == text::pieces(value@, ',')[k],
            forall|k: int|
                0 <= k < i ==> (#[trigger] out@[k])@ == text::trimmed(
                    text::pieces(value@, ',')[k],
                ),
        decreases parts@.len() - i,
    {
        out.push(text::string_of(text::trim(parts[i].as_slice())));
        i += 1;
    }
    assert(text::texts(out@) =~= port_entries(value@));
    out
}

/// Whether a text says yes.
fn parse_yes(value: &str) -> (r: bool)
    ensures
        r == says_yes(value@),
{
    text::same_text(value, "true") || text::same_text(value, "1")
}

/// Reads a number without sign up to `max`.
fn parse_number(value: &str, max: u64) -> (r: Option<u64>)
    ensures
        r is Some <==> number(value@, max as nat) is Some,
        r is Some ==> r->0 == number(value@, max as nat)->0 && r->0 <= max,
{
    let c = text::chars_of(value);
    text::parse_unsigned(c.as_slice(), 10, max)
}

impl DnsConfig {
    /// Applies a setting of the resolver; any other changes nothing.
    fn set_from_env(&mut self, key: EnvKey, value: &str, reading: &AddressReading) -> (r: Result<
        (),
        ConfigError,
    >)
        ensures
            dns_outcome(*old(self), key, value@, *reading, *final(self), r),
    {
        match key {
            EnvKey::DnsUpstreams => match parse_upstreams(value, &reading.upstreams) {
                Ok(list) => {
                    self.upstreams = list;
                },
                Err(e) => {
                    return Err(e);
                },
            },
            EnvKey::DnsBlockingMode => match parse_blocking_mode(value) {
                Ok(m) => {
                    self.blocking_mode = m;
                },
                Err(e) => {
                    return Err(e);
                },
            },
            EnvKey::DnsRateLimit => match parse_number(value, u32::MAX as u64) {
                Some(n) => {
                    self.rate_limit = n as u32;
                },
                None => {
                    return Err(invalid("Invalid rate_limit: ", value));
                },
            },
            EnvKey::DnsPort => {
                let c = text::chars_of(value);
                match parse_port(c.as_slice()) {
                    Some(p) => {
                        self.port = p;
                        self.bind.port = p;
                    },
                    None => {
                        return Err(invalid("Invalid port: ", value));
                    },
                }
            },
            EnvKey::DnsBind => match reading.socket {
                Some(s) => {
                    self.bind = s;
                },
                None => {
                    return Err(invalid("Invalid bind address: ", value));
                },
            },
            EnvKey::DnsBlockingIp => match reading.ip {
                Some(i) => {
                    self.blocking_ip = i;
                },
                None => {
                    return Err(invalid("Invalid blocking IP: ", value));
                },
            },
            EnvKey::DnsQueryLog => {
                self.query_log = parse_yes(value);
            },
            _ => {},
        }
        Ok(())
    }
}

impl DhcpConfig {
    /// Applies a DHCP setting; any other changes nothing.
    fn set_from_env(&mut self, key: EnvKey, value: &str, reading: &AddressReading)
        ensures
            dhcp_outcome(*old(self), key, value@, *reading, *final(self)),
    {
        match key {
            EnvKey::DhcpEnabled => {
                self.enabled = parse_yes(value);
            },
            EnvKey::DhcpPoolStart => {
                if reading.ipv4.is_some() {
                    self.pool_start = reading.ipv4;
                }
            },
            EnvKey::DhcpPoolEnd => {
                if reading.ipv4.is_some() {
                    self.pool_end = reading.ipv4;
                }
            },
            EnvKey::DhcpRouter => {
                if reading.ipv4.is_some() {
                    self.router = reading.ipv4;
                }
            },
            EnvKey::DhcpDnsServer => {
                if reading.ipv4.is_some() {
                    self.dns_server = reading.ipv4;
                }
            },
            EnvKey::DhcpLeaseTime => match parse_number(value, u32::MAX as u64) {
                Some(n) => {
                    self.lease_time = n as u32;
                },
                None => {},
            },
            EnvKey::DhcpDomain => {
                self.domain = Some(value.to_owned());
            },
            _ => {},
        }
    }
}

impl DebugConfig {
    /// Applies a debug setting; any other changes nothing.
    fn set_from_env(&mut self, key: EnvKey)
        ensures
            *final(self) == debug_outcome(*old(self), key),
    {
        match key {
            EnvKey::DebugAll => {
                self.all = true;
            },
            EnvKey::DebugResolver => {
                self.resolver = true;
            },
            EnvKey::DebugApi => {
                self.api = true;
            },
            EnvKey::DebugDatabase => {
                self.database = true;
            },
            EnvKey::DebugDns => {
                self.dns = true;
            },
            EnvKey::DebugLocking => {
                self.locking = true;
            },
            EnvKey::DebugEdns0 => {
                self.edns0 = true;
            },
            EnvKey::DebugRegex => {
                self.regex = true;
            },
            EnvKey::DebugConfig => {
                self.config = true;
            },
            EnvKey::DebugDot => {
                self.dot = true;
            },
            _ => {},
        }
    }
}

impl Config {
    /// Applies one setting of the environment: `key` is its name behind the prefix `FTLCONF_`.
    /// What the parser of addresses says of the value stands in `reading`.
    #[verifier::rlimit(50)]
    pub fn set_from_env(&mut self, key: &str, value: &str, reading: &AddressReading) -> (r: Result<
        (),
        ConfigError,
    >)
        ensures
            env_outcome(*old(self), env_key(key@), value@, *reading, *final(self), r),
    {
        let k = find_env_key(key);
        self.dhcp.set_from_env(k, value, reading);
        self.debug.set_from_env(k);
        match k {
            EnvKey::WebserverPort => {
                self.webserver.ports = parse_port_entries(value);
            },
            EnvKey::BlockingSourceUrl => {
                self.blocking.source_url = value.to_owned();
            },
            EnvKey::BlockingRefreshInterval => match parse_number(value, u64::MAX) {
                Some(n) => {
                    self.blocking.refresh_interval = n;
                },
                None => {},
            },
            _ => {},
        }
        self.dns.set_from_env(k, value, reading)
    }

    /// Why the configuration cannot be run with, where it cannot.
    pub open spec fn problem(self) -> Option<Seq<char>> {
        if self.dns.upstreams@.len() == 0 {
            Some("At least one DNS upstream must be configured"@)
        } else if self.dns.rate_limit == 0 {
            Some("Rate limit must be > 0"@)
        } else {
            None
        }
    }

    /// Whether the configuration can be run with: it needs an upstream, and a rate limit above
    /// zero.
    pub fn validate(&self) -> (r: Result<(), ConfigError>)
        ensures
            match r {
                Ok(_) => self.problem() is None,
                Err(e) => e matches ConfigError::Validation(m) && self.problem() == Some(m@),
            },
    {
        if self.dns.upstreams.len() == 0 {
            return Err(
                ConfigError::Validation(
                    "At least one DNS upstream must be configured".to_owned(),
                ),
            );
        }
        if self.dns.rate_limit == 0 {
            return Err(ConfigError::Validation("Rate limit must be > 0".to_owned()));
        }
        Ok(())
    }
}

/// The name behind the prefix `FTLCONF_` of a variable of the environment, where it has that
/// prefix.
pub fn env_setting(variable: &str) -> (r: Option<String>)
    ensures
        r is Some <==> "FTLCONF_"@.is_prefix_of(variable@),
        r is Some ==> r->0@ == variable@.subrange(8, variable@.len() as int),
{
    proof {
        reveal_strlit("FTLCONF_");
    }
    let c = text::chars_of(variable);
    if text::starts_with(c.as_slice(), "FTLCONF_") {
        let rest: &[char] = &c.as_slice()[8..c.len()];
        Some(text::string_of(rest))
    } else {
        None
    }
}

/// A variable of the environment, and what the parser of addresses says of its value.
pub struct EnvVariable {
    pub name: String,
    pub value: String,
    pub reading: AddressReading,
}

/// The name is that of a setting.
pub open spec fn is_setting(name: Seq<char>) -> bool {
    "FTLCONF_"@.is_prefix_of(name)
}

/// The configuration `b` that a variable makes of `a`, and the result `r` that is reported. A
/// variable that is no setting changes nothing.
pub open spec fn variable_outcome(
    a: Config,
    v: EnvVariable,
    b: Config,
    r: Result<(), ConfigError>,
) -> bool {
    if is_setting(v.name@) {
        env_outcome(
            a,
            env_key(v.name@.subrange(8, v.name@.len() as int)),
            v.value@,
            v.reading,
            b,
            r,
        )
    } else {
        b == a && r == Ok::<(), ConfigError>(())
    }
}

/// The configuration `b` that the variables make of `a`, one after the other, and the result `r`
/// that is reported. The first error ends the matter.
pub open spec fn variables_outcome(
    a: Config,
    vars: Seq<EnvVariable>,
    b: Config,
    r: Result<(), ConfigError>,
) -> bool
    decreases vars.len(),
{
    if vars.len() == 0 {
        b == a && r == Ok::<(), ConfigError>(())
    } else {
        exists|m: Config, q: Result<(), ConfigError>|
            {
                &&& #[trigger] variable_outcome(a, vars[0], m, q)
                &&& if q is Ok {
                    variables_outcome(m, vars.subrange(1, vars.len() as int), b, r)
                } else {
                    b == m && r == q
                }
            }
    }
}

impl Config {
    /// Applies the settings of the environment, in the order in which they are given. An error ends
    /// the matter.
    pub fn apply_env_overrides(&mut self, vars: &Vec<EnvVariable>) -> (r: Result<(), ConfigError>)
        ensures
            variables_outcome(*old(self), vars@, *final(self), r),
    {
        let ghost a = *self;
        let mut i: usize = 0;
        assert(vars@.subrange(0, vars@.len() as int) =~= vars@);
        while i < vars.len()
            invariant
                i <= vars@.len(),
                a == *old(self),
                forall|b: Config, r: Result<(), ConfigError>| #[trigger]
                    variables_outcome(*self, vars@.subrange(i as int, vars@.len() as int), b, r)
                        ==> variables_outcome(a, vars@, b, r),
            decreases vars@.len() - i,
        {
            let ghost m = *self;
            let ghost rest = vars@.subrange(i as int, vars@.len() as int);
            assert(rest[0] == vars@[i as int]);
            assert(rest.subrange(1, rest.len() as int) =~= vars@.subrange(
                i + 1,
                vars@.len() as int,
            ));
            match env_setting(vars[i].name.as_str()) {
                Some(key) => {
                    let r = self.set_from_env(key.as_str(), vars[i].value.as_str(), &vars[i].reading);
                    assert(variable_outcome(m, rest[0], *self, r));
                    match r {
                        Ok(_) => {},
                        Err(e) => {
                            assert(variables_outcome(m, rest, *self, Err::<(), ConfigError>(e)));
                            return Err(e);
                        },
                    }
                },
                None => {
                    assert(variable_outcome(m, rest[0], *self, Ok::<(), ConfigError>(())));
                },
            }
            assert forall|b: Config, r: Result<(), ConfigError>| #[trigger]
                variables_outcome(
                    *self,
                    vars@.subrange(i + 1, vars@.len() as int),
                    b,
                    r,
                ) implies variables_outcome(a, vars@, b, r) by {
                assert(variable_outcome(m, rest[0], *self, Ok::<(), ConfigError>(())));
                assert(variables_outcome(m, rest, b, r));
            }
            i += 1;
        }
        let ghost none = vars@.subrange(vars@.len() as int, vars@.len() as int);
        assert(variables_outcome(*self, none, *self, Ok::<(), ConfigError>(())));
        Ok(())
    }

    /// The configuration that the server runs with: what the file says, with the settings of the
    /// environment, if it can be run with.
    pub fn load(from_file: Config, vars: &Vec<EnvVariable>) -> (r: Result<Config, ConfigError>)
        ensures
            exists|c: Config, q: Result<(), ConfigError>|
                {
                    &&& #[trigger] variables_outcome(from_file, vars@, c, q)
                    &&& match r {
                        Ok(loaded) => q is Ok && loaded == c && c.problem() is None,
                        Err(e) => q == Err::<(), ConfigError>(e) || (q is Ok && (
                        e matches ConfigError::Validation(m) && c.problem() == Some(m@))),
                    }
                },
    {
        let mut c: Config = from_file;
        let q = c.apply_env_overrides(vars);
        assert(variables_outcome(from_file, vars@, c, q));
        match q {
            Err(e) => Err(e),
            Ok(_) => match c.validate() {
                Ok(_) => Ok(c),
                Err(e) => Err(e),
            },
        }
    }
}

} // verus!
