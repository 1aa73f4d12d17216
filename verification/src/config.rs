//! Configuration types and their defaults.
use crate::text::{ascii_lower, lemma_lower_twice, lower_text, same_text};
use vstd::prelude::*;
use vstd::string::*;

verus! {

/// The whole configuration.
#[derive(Debug, Clone)]
pub struct Config {
    /// Global server settings
    pub server: ServerConfig,
    /// Per-domain configurations
    pub domains: DomainTable,
}

/// Server-level settings.
#[derive(Debug, Clone)]
pub struct ServerConfig {
    /// HTTP port (default: 80)
    pub http_port: u16,
    /// HTTPS/TLS port (default: 443)
    pub https_port: u16,
    /// Per-request timeout in seconds (default: 30)
    pub timeout_secs: u64,
    /// Maximum simultaneous connections across all clients (default: 10000)
    pub max_connections: usize,
    /// Maximum simultaneous connections from a single IP (default: 100)
    pub max_connections_per_ip: usize,
    /// Max requests per second per IP, 0 disables rate limiting (default: 100)
    pub rate_limit_rps: u32,
    /// Burst allowance (default: 200)
    pub rate_limit_burst: u32,
    /// Security feature flags
    pub security: SecurityFlags,
}

/// Fine-grained on/off switches for security features.
#[derive(Debug, Clone, Copy, PartialEq, Eq, Structural)]
pub struct SecurityFlags {
    /// Block obvious SQL injection patterns in URLs (default: true)
    pub waf_sqli: bool,
    /// Block obvious XSS patterns (default: true)
    pub waf_xss: bool,
    /// Block directory traversal attempts (default: true)
    pub waf_path_traversal: bool,
    /// Block IPs after too many failed TLS handshakes (default: true)
    pub block_tls_abusers: bool,
    /// TLS failures before an IP is blocked (default: 10)
    pub max_tls_failures: u32,
    /// Block requests with no User-Agent header (default: false)
    pub block_empty_user_agent: bool,
}

/// The configuration of one domain.
#[derive(Debug, Clone)]
pub struct DomainConfig {
    /// Upstream backends, e.g. `http://127.0.0.1:3000`
    pub backends: Vec<String>,
    /// Load-balancing strategy (default: round robin)
    pub load_balance: LoadBalance,
    /// TLS certificate files for this domain
    pub tls: Option<TlsConfig>,
    /// Static files to serve
    pub static_files: Option<StaticFilesConfig>,
    /// Redirect all HTTP requests for this domain to HTTPS
    pub redirect_to_https: bool,
    /// Health-check configuration for backends
    pub health_check: HealthCheckConfig,
    /// Extra response headers to inject
    pub headers: Vec<ExtraHeader>,
}

/// How a backend is picked.
#[derive(Debug, Clone, Copy, PartialEq, Eq, Structural)]
pub enum LoadBalance {
    /// Distribute requests evenly across backends in order (default)
    RoundRobin,
    /// Always pick the backend with the fewest active connections
    LeastConnections,
    /// Always send the same IP to the same backend
    IpHash,
}

/// The certificate files of a domain.
#[derive(Debug, Clone)]
pub struct TlsConfig {
    /// Path to the PEM certificate chain file
    pub cert: String,
    /// Path to the PEM private key file
    pub key: String,
}

/// The static files of a domain.
#[derive(Debug, Clone)]
pub struct StaticFilesConfig {
    /// Root directory to serve files from, as an absolute path
    pub root: String,
    /// Files to look for when a directory is requested (default: `index.html`)
    pub index: Vec<String>,
    /// Show a directory listing when no index file exists (default: false)
    pub autoindex: bool,
}

/// Periodic health checks.
#[derive(Debug, Clone)]
pub struct HealthCheckConfig {
    /// Enable periodic health checks (default: true)
    pub enabled: bool,
    /// How often to check, in seconds (default: 15)
    pub interval_secs: u64,
    /// How long to wait for a response, in seconds (default: 5)
    pub timeout_secs: u64,
    /// Path to request (default: `/`)
    pub path: String,
}

/// A header to put on the responses of a domain.
#[derive(Debug, Clone)]
pub struct ExtraHeader {
    pub name: String,
    pub value: String,
}

/// The default HTTP port.
pub fn default_http_port() -> (r: u16)
    ensures
        r == 80,
{
    80
}

/// The default HTTPS port.
pub fn default_https_port() -> (r: u16)
    ensures
        r == 443,
{
    443
}

/// The default timeout of a request, in seconds.
pub fn default_timeout() -> (r: u64)
    ensures
        r == 30,
{
    30
}

/// The default number of connections at a time.
pub fn default_max_connections() -> (r: usize)
    ensures
        r == 10_000,
{
    10_000
}

/// The default number of connections of one client at a time.
pub fn default_max_connections_per_ip() -> (r: usize)
    ensures
        r == 100,
{
    100
}

/// The default number of requests per second of one client.
pub fn default_rps() -> (r: u32)
    ensures
        r == 100,
{
    100
}

/// The default number of requests of one client at once.
pub fn default_burst() -> (r: u32)
    ensures
        r == 200,
{
    200
}

/// The default of what is switched on.
pub fn default_true() -> (r: bool)
    ensures
        r,
{
    true
}

/// The default of what is switched off.
pub fn default_false() -> (r: bool)
    ensures
        !r,
{
    false
}

/// The default number of TLS failures before a client is blocked.
pub fn default_tls_failures() -> (r: u32)
    ensures
        r == 10,
{
    10
}

/// The default number of seconds between health checks.
pub fn default_hc_interval() -> (r: u64)
    ensures
        r == 15,
{
    15
}

/// The default timeout of a health check, in seconds.
pub fn default_hc_timeout() -> (r: u64)
    ensures
        r == 5,
{
    5
}

/// The default path of health checks.
pub fn default_hc_path() -> (r: String)
    ensures
        r@ == "/"@,
{
    "/".to_string()
}

/// The default index files.
pub fn default_index_files() -> (r: Vec<String>)
    ensures
        r@.len() == 1,
        r@[0]@ == "index.html"@,
{
    let mut v: Vec<String> = Vec::new();
    v.push("index.html".to_string());
    v
}

/// The default security flags.
pub open spec fn spec_default_flags() -> SecurityFlags {
    SecurityFlags {
        waf_sqli: true,
        waf_xss: true,
        waf_path_traversal: true,
        block_tls_abusers: true,
        max_tls_failures: 10,
        block_empty_user_agent: false,
    }
}

impl Default for SecurityFlags {
    fn default() -> (r: Self)
        ensures
            r == spec_default_flags(),
    {
        SecurityFlags {
            waf_sqli: default_true(),
            waf_xss: default_true(),
            waf_path_traversal: default_true(),
            block_tls_abusers: default_true(),
            max_tls_failures: default_tls_failures(),
            block_empty_user_agent: default_false(),
        }
    }
}

/// The default server settings.
pub open spec fn spec_default_server() -> ServerConfig {
    ServerConfig {
        http_port: 80,
        https_port: 443,
        timeout_secs: 30,
        max_connections: 10_000,
        max_connections_per_ip: 100,
        rate_limit_rps: 100,
        rate_limit_burst: 200,
        security: spec_default_flags(),
    }
}

impl Default for ServerConfig {
    fn default() -> (r: Self)
        ensures
            r == spec_default_server(),
    {
        ServerConfig {
            http_port: default_http_port(),
            https_port: default_https_port(),
            timeout_secs: default_timeout(),
            max_connections: default_max_connections(),
            max_connections_per_ip: default_max_connections_per_ip(),
            rate_limit_rps: default_rps(),
            rate_limit_burst: default_burst(),
            security: SecurityFlags::default(),
        }
    }
}

impl Default for LoadBalance {
    fn default() -> (r: Self)
        ensures
            r == LoadBalance::RoundRobin,
    {
        LoadBalance::RoundRobin
    }
}

impl Default for HealthCheckConfig {
    fn default() -> (r: Self)
        ensures
            r.enabled,
            r.interval_secs == 15,
            r.timeout_secs == 5,
            r.path@ == "/"@,
    {
        HealthCheckConfig {
            enabled: default_true(),
            interval_secs: default_hc_interval(),
            timeout_secs: default_hc_timeout(),
            path: default_hc_path(),
        }
    }
}

/// The configured domains. Each name stands in the table once, in lower case: names
/// are compared without regard to the case of ASCII letters.
#[derive(Debug, Clone)]
pub struct DomainTable {
    entries: Vec<(String, DomainConfig)>,
}

impl DomainTable {
    /// The names and their configurations, in the order of their first entry.
    pub closed spec fn view(&self) -> Seq<(Seq<char>, DomainConfig)> {
        Seq::new(self.entries@.len(), |i: int| (self.entries@[i].0@, self.entries@[i].1))
    }

    /// No name stands in the table twice, and all are in lower case.
    pub open spec fn wf(&self) -> bool {
        distinct_lower_names(self@)
    }

    /// A table with no domain.
    pub fn new() -> (t: Self)
        ensures
            t.wf(),
            t@.len() == 0,
    {
        DomainTable { entries: Vec::new() }
    }

    /// How many domains there are.
    pub fn len(&self) -> (n: usize)
        ensures
            n == self@.len(),
    {
        self.entries.len()
    }

    /// The name of domain number `i`.
    pub fn name(&self, i: usize) -> (r: &String)
        requires
            i < self@.len(),
        ensures
            r@ == self@[i as int].0,
    {
        &self.entries[i].0
    }

    /// The configuration of domain number `i`.
    pub fn config(&self, i: usize) -> (r: &DomainConfig)
        requires
            i < self@.len(),
        ensures
            *r == self@[i as int].1,
    {
        &self.entries[i].1
    }

    /// Which domain is called `name`.
    pub fn find(&self, name: &str) -> (r: Option<usize>)
        ensures
            r is None <==> !has_domain(self@, name@),
            r matches Some(i) ==> is_entry(self@, name@, i as int),
    {
        let lower = lower_text(name);
        let mut i: usize = 0;
        while i < self.entries.len()
            invariant
                0 <= i <= self@.len(),
                self@.len() == self.entries@.len(),
                lower@ == ascii_lower(name@),
                forall|j: int| 0 <= j < i ==> (#[trigger] self@[j]).0 != lower@,
            decreases self@.len() - i,
        {
            assert(self@[i as int].0 == self.entries@[i as int].0@);
            if same_text(self.entries[i].0.as_str(), lower.as_str()) {
                assert(is_entry(self@, name@, i as int));
                return Some(i);
            }
            i += 1;
        }
        None
    }

    /// The configuration of the domain called `name`.
    pub fn get(&self, name: &str) -> (r: Option<&DomainConfig>)
        requires
            self.wf(),
        ensures
            r is Some <==> has_domain(self@, name@),
            r matches Some(c) ==> *c == domain_config(self@, name@),
    {
        match self.find(name) {
            Some(i) => {
                proof {
                    lemma_domain_config(self, name@, i as int);
                }
                Some(self.config(i))
            },
            None => None,
        }
    }

    /// Gives the domain called `name` a configuration, in place of the one
    /// that it had.
    pub fn insert(&mut self, name: String, config: DomainConfig)
        requires
            old(self).wf(),
        ensures
            final(self).wf(),
            has_domain(final(self)@, name@),
            domain_config(final(self)@, name@) == config,
            !has_domain(old(self)@, name@) ==> final(self)@ == old(self)@.push(
                (ascii_lower(name@), config),
            ),
            has_domain(old(self)@, name@) ==> exists|i: int| #[trigger]
                is_entry(old(self)@, name@, i) && final(self)@ == old(self)@.update(
                    i,
                    (ascii_lower(name@), config),
                ),
            forall|n: Seq<char>|
                ascii_lower(n) != ascii_lower(name@) ==> has_domain(final(self)@, n) == has_domain(
                    old(self)@,
                    n,
                ),
            forall|n: Seq<char>|
                ascii_lower(n) != ascii_lower(name@) && has_domain(old(self)@, n)
                    ==> domain_config(final(self)@, n) == domain_config(old(self)@, n),
    {
        let found = self.find(name.as_str());
        let lower = lower_text(name.as_str());
        let ghost before = self@;
        let ghost n0 = lower@;
        proof {
            lemma_lower_twice(name@);
        }
        let ghost mut at: int = before.len() as int;
        match found {
            Some(i) => {
                proof {
                    at = i as int;
                }
                self.entries.set(i, (lower, config));
                assert(self@ =~= before.update(i as int, (n0, config)));
            },
            None => {
                self.entries.push((lower, config));
                assert(self@ =~= before.push((n0, config)));
                assert forall|i: int| 0 <= i < before.len() implies (#[trigger] before[i]).0
                    != n0 by {
                    assert(!is_entry(before, name@, i));
                }
            },
        }
        proof {
            assert(self@[at] == (n0, config));
            assert(forall|i: int| 0 <= i < before.len() && i != at ==> self@[i] == before[i]);
            assert(self.wf()) by {
                assert forall|i: int, j: int| 0 <= i < j < self@.len() implies (
                #[trigger] self@[i]).0 != (#[trigger] self@[j]).0 by {
                    if i < before.len() && j < before.len() {
                        assert(before[i].0 != before[j].0);
                    }
                }
                assert forall|i: int| 0 <= i < self@.len() implies ascii_lower(
                    (#[trigger] self@[i]).0,
                ) == self@[i].0 by {
                    if i != at {
                        assert(ascii_lower(before[i].0) == before[i].0);
                    }
                }
            }
            assert(is_entry(self@, name@, at));
            lemma_domain_config(self, name@, at);
            assert forall|n: Seq<char>| ascii_lower(n) != n0 implies has_domain(self@, n)
                == has_domain(before, n) && (has_domain(before, n) ==> domain_config(self@, n)
                == domain_config(before, n)) by {
                if has_domain(before, n) {
                    let j = choose|j: int| is_entry(before, n, j);
                    assert(is_entry(before, n, j));
                    assert(is_entry(self@, n, j));
                    lemma_domain_config(self, n, j);
                    lemma_domain_config(&*old(self), n, j);
                }
                if has_domain(self@, n) {
                    let j = choose|j: int| is_entry(self@, n, j);
                    assert(is_entry(self@, n, j));
                    assert(is_entry(before, n, j));
                }
            }
        }
    }
}

/// Whether no name stands in `table` twice, and all are in lower case.
pub open spec fn distinct_lower_names(table: Seq<(Seq<char>, DomainConfig)>) -> bool {
    &&& forall|i: int, j: int|
        0 <= i < j < table.len() ==> (#[trigger] table[i]).0 != (#[trigger] table[j]).0
    &&& forall|i: int|
        0 <= i < table.len() ==> ascii_lower((#[trigger] table[i]).0) == table[i].0
}

/// Whether entry number `i` of `table` is that of `name`, in whatever case it is
/// written.
pub open spec fn is_entry(table: Seq<(Seq<char>, DomainConfig)>, name: Seq<char>, i: int) -> bool {
    0 <= i < table.len() && table[i].0 == ascii_lower(name)
}

/// Whether `table` has a domain called `name`.
pub open spec fn has_domain(table: Seq<(Seq<char>, DomainConfig)>, name: Seq<char>) -> bool {
    exists|i: int| is_entry(table, name, i)
}

/// The configuration of the domain called `name`.
pub open spec fn domain_config(
    table: Seq<(Seq<char>, DomainConfig)>,
    name: Seq<char>,
) -> DomainConfig {
    table[choose|i: int| is_entry(table, name, i)].1
}

/// A table whose names are distinct holds one configuration for each name.
pub proof fn lemma_domain_config(t: &DomainTable, name: Seq<char>, i: int)
    requires
        t.wf(),
        is_entry(t@, name, i),
    ensures
        has_domain(t@, name),
        domain_config(t@, name) == t@[i].1,
{
    let j = choose|j: int| is_entry(t@, name, j);
    assert(is_entry(t@, name, j));
    if i < j {
        assert(t@[i].0 != t@[j].0);
    } else if j < i {
        assert(t@[j].0 != t@[i].0);
    }
}

impl Config {
    /// Whether there is a domain to serve: a configuration needs at least one.
    pub fn is_complete(&self) -> (r: bool)
        ensures
            r == (self.domains@.len() > 0),
    {
        self.domains.len() > 0
    }

    /// Puts the ports that were given on the command line in place of the
    /// configured ones.
    pub fn override_ports(&mut self, http_port: Option<u16>, https_port: Option<u16>)
        ensures
            final(self).domains == old(self).domains,
            final(self).server == (ServerConfig {
                http_port: match http_port {
                    Some(p) => p,
                    None => old(self).server.http_port,
                },
                https_port: match https_port {
                    Some(p) => p,
                    None => old(self).server.https_port,
                },
                ..old(self).server
            }),
    {
        if let Some(p) = http_port {
            self.server.http_port = p;
        }
        if let Some(p) = https_port {
            self.server.https_port = p;
        }
    }
}

/// Whatever is not configured is as documented: screening is on for patterns and TLS
/// abuse and off for missing User-Agents, and the limits are these numbers.
pub proof fn law_defaults_are_as_documented()
    ensures
        spec_default_flags().waf_sqli && spec_default_flags().waf_xss
            && spec_default_flags().waf_path_traversal && spec_default_flags().block_tls_abusers,
        spec_default_flags().max_tls_failures == 10,
        !spec_default_flags().block_empty_user_agent,
        spec_default_server().http_port == 80 && spec_default_server().https_port == 443,
        spec_default_server().timeout_secs == 30,
        spec_default_server().max_connections == 10000,
        spec_default_server().max_connections_per_ip == 100,
        spec_default_server().rate_limit_rps == 100 && spec_default_server().rate_limit_burst
            == 200,
        spec_default_server().security == spec_default_flags(),
{
}

}
