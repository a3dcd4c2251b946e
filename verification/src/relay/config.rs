//! Relay configuration: defaults, and which hostnames the relay serves.
//!
//! Reading the file is left to the program around this module. Optional
//! settings arrive as `None` and are filled from their defaults here.
use vstd::prelude::*;

use crate::relay::label;
use crate::relay::polar::{PolarPolicy, CAP_PRUNE_GRACE_SECS};
use crate::text;

verus! {

/// Top-level relay configuration.
#[derive(Clone, Debug)]
pub struct Config {
    pub server: ServerConfig,
    pub tls: TlsConfig,
    pub registry: RegistryConfig,
    pub tcp: TcpConfig,
    /// License enforcement; without it clients authenticate by local tokens
    /// only.
    pub polar: Option<PolarConfig>,
    pub limits: LimitsConfig,
}

/// Anti-abuse limits of the public listener.
#[derive(Clone, Debug)]
pub struct LimitsConfig {
    /// Ceiling on concurrent connections.
    pub max_connections: usize,
    /// Ceiling on concurrent connections per source.
    pub max_connections_per_ip: u32,
    /// Deadline for request headers in seconds; 0 disables.
    pub header_read_timeout_secs: u64,
    /// Ceiling on live control sessions.
    pub max_sessions: usize,
    /// Ceiling on live control sessions per source.
    pub max_sessions_per_ip: u32,
    /// Tear down a splice after this many silent seconds; 0 disables.
    pub proxy_idle_timeout_secs: u64,
    /// Ceiling on the life of a splice in seconds; 0 disables.
    pub proxy_absolute_max_secs: u64,
    /// How often a session re-validates its token in seconds; 0 disables.
    pub token_revalidate_interval_secs: u64,
}

/// The limits a configuration sets, the others being left to their defaults.
#[derive(Clone, Debug)]
pub struct LimitsPatch {
    pub max_connections: Option<usize>,
    pub max_connections_per_ip: Option<u32>,
    pub header_read_timeout_secs: Option<u64>,
    pub max_sessions: Option<usize>,
    pub max_sessions_per_ip: Option<u32>,
    pub proxy_idle_timeout_secs: Option<u64>,
    pub proxy_absolute_max_secs: Option<u64>,
    pub token_revalidate_interval_secs: Option<u64>,
}

/// `v`, or `d` where it is missing.
pub open spec fn or<T>(v: Option<T>, d: T) -> T {
    match v {
        Some(x) => x,
        None => d,
    }
}

fn usize_or(v: Option<usize>, d: usize) -> (r: usize)
    ensures
        r == or(v, d),
{
    match v {
        Some(x) => x,
        None => d,
    }
}

fn u32_or(v: Option<u32>, d: u32) -> (r: u32)
    ensures
        r == or(v, d),
{
    match v {
        Some(x) => x,
        None => d,
    }
}

fn u64_or(v: Option<u64>, d: u64) -> (r: u64)
    ensures
        r == or(v, d),
{
    match v {
        Some(x) => x,
        None => d,
    }
}

/// Default ceiling on concurrent connections and on live sessions.
pub const DEFAULT_MAX_CONNECTIONS: usize = 4096;

/// Default ceiling per source.
pub const DEFAULT_MAX_PER_IP: u32 = 64;

/// Default deadline for request headers in seconds.
pub const DEFAULT_HEADER_READ_TIMEOUT: u64 = 10;

/// Default token re-validation cadence in seconds.
pub const DEFAULT_REVALIDATE: u64 = 60;

/// The limits of a configuration that sets none.
pub open spec fn default_limits() -> LimitsConfig {
    LimitsConfig {
        max_connections: DEFAULT_MAX_CONNECTIONS,
        max_connections_per_ip: DEFAULT_MAX_PER_IP,
        header_read_timeout_secs: DEFAULT_HEADER_READ_TIMEOUT,
        max_sessions: DEFAULT_MAX_CONNECTIONS,
        max_sessions_per_ip: DEFAULT_MAX_PER_IP,
        proxy_idle_timeout_secs: 0,
        proxy_absolute_max_secs: 0,
        token_revalidate_interval_secs: DEFAULT_REVALIDATE,
    }
}

impl Default for LimitsConfig {
    fn default() -> (r: Self)
        ensures
            r == default_limits(),
    {
        LimitsConfig {
            max_connections: DEFAULT_MAX_CONNECTIONS,
            max_connections_per_ip: DEFAULT_MAX_PER_IP,
            header_read_timeout_secs: DEFAULT_HEADER_READ_TIMEOUT,
            max_sessions: DEFAULT_MAX_CONNECTIONS,
            max_sessions_per_ip: DEFAULT_MAX_PER_IP,
            proxy_idle_timeout_secs: 0,
            proxy_absolute_max_secs: 0,
            token_revalidate_interval_secs: DEFAULT_REVALIDATE,
        }
    }
}

impl LimitsConfig {
    /// Each limit as set, or its default.
    pub fn filled(p: &LimitsPatch) -> (r: Self)
        ensures
            r.max_connections == or(p.max_connections, default_limits().max_connections),
            r.max_connections_per_ip == or(
                p.max_connections_per_ip,
                default_limits().max_connections_per_ip,
            ),
            r.header_read_timeout_secs == or(
                p.header_read_timeout_secs,
                default_limits().header_read_timeout_secs,
            ),
            r.max_sessions == or(p.max_sessions, default_limits().max_sessions),
            r.max_sessions_per_ip == or(
                p.max_sessions_per_ip,
                default_limits().max_sessions_per_ip,
            ),
            r.proxy_idle_timeout_secs == or(
                p.proxy_idle_timeout_secs,
                default_limits().proxy_idle_timeout_secs,
            ),
            r.proxy_absolute_max_secs == or(
                p.proxy_absolute_max_secs,
                default_limits().proxy_absolute_max_secs,
            ),
            r.token_revalidate_interval_secs == or(
                p.token_revalidate_interval_secs,
                default_limits().token_revalidate_interval_secs,
            ),
    {
        LimitsConfig {
            max_connections: usize_or(p.max_connections, DEFAULT_MAX_CONNECTIONS),
            max_connections_per_ip: u32_or(p.max_connections_per_ip, DEFAULT_MAX_PER_IP),
            header_read_timeout_secs: u64_or(
                p.header_read_timeout_secs,
                DEFAULT_HEADER_READ_TIMEOUT,
            ),
            max_sessions: usize_or(p.max_sessions, DEFAULT_MAX_CONNECTIONS),
            max_sessions_per_ip: u32_or(p.max_sessions_per_ip, DEFAULT_MAX_PER_IP),
            proxy_idle_timeout_secs: u64_or(p.proxy_idle_timeout_secs, 0),
            proxy_absolute_max_secs: u64_or(p.proxy_absolute_max_secs, 0),
            token_revalidate_interval_secs: u64_or(
                p.token_revalidate_interval_secs,
                DEFAULT_REVALIDATE,
            ),
        }
    }
}

/// License enforcement.
#[derive(Clone, Debug)]
pub struct PolarConfig {
    /// The organization whose keys this relay accepts.
    pub organization_id: String,
    /// Base of the license service's API.
    pub api_base: String,
    /// Re-validate a cached key at most this often, in seconds.
    pub cache_ttl_secs: i64,
    /// Honour a cached grant this long past its last validation, in seconds.
    pub staleness_secs: i64,
    /// Bind a device on claim.
    pub activate_on_claim: bool,
    /// Benefit and the number of tunnels it grants.
    pub benefits: Vec<(String, i64)>,
}

impl PolarConfig {
    /// License enforcement for an organization, with defaults for what is not
    /// set.
    pub fn filled(
        organization_id: String,
        api_base: Option<String>,
        cache_ttl_secs: Option<i64>,
        staleness_secs: Option<i64>,
        activate_on_claim: Option<bool>,
        benefits: Vec<(String, i64)>,
    ) -> (r: Self)
        ensures
            r.organization_id == organization_id,
            match api_base {
                Some(b) => r.api_base == b,
                None => r.api_base@ == "https://api.polar.sh"@,
            },
            r.cache_ttl_secs == or(cache_ttl_secs, 300),
            r.staleness_secs == or(staleness_secs, 259_200),
            r.activate_on_claim == or(activate_on_claim, true),
            r.benefits == benefits,
    {
        PolarConfig {
            organization_id,
            api_base: match api_base {
                Some(b) => b,
                None => "https://api.polar.sh".to_owned(),
            },
            cache_ttl_secs: match cache_ttl_secs {
                Some(x) => x,
                None => 300,
            },
            staleness_secs: match staleness_secs {
                Some(x) => x,
                None => 259_200,
            },
            activate_on_claim: match activate_on_claim {
                Some(x) => x,
                None => true,
            },
            benefits,
        }
    }

    /// The policy of the license gate.
    pub fn policy(self) -> (r: PolarPolicy)
        ensures
            r.organization_id == self.organization_id,
            r.cache_ttl_secs == self.cache_ttl_secs,
            r.staleness_secs == self.staleness_secs,
            r.cap_prune_grace_secs == CAP_PRUNE_GRACE_SECS,
            r.activate_on_claim == self.activate_on_claim,
            r.benefits == self.benefits,
    {
        PolarPolicy {
            organization_id: self.organization_id,
            cache_ttl_secs: self.cache_ttl_secs,
            staleness_secs: self.staleness_secs,
            cap_prune_grace_secs: CAP_PRUNE_GRACE_SECS,
            activate_on_claim: self.activate_on_claim,
            benefits: self.benefits,
        }
    }
}

/// Raw-TCP tunnel settings.
#[derive(Clone, Debug)]
pub struct TcpConfig {
    /// Lowest and highest public port daemons may reserve.
    pub port_range: [u16; 2],
}

impl Default for TcpConfig {
    fn default() -> (r: Self)
        ensures
            r.port_range@ == seq![20000u16, 20999],
    {
        let r = TcpConfig { port_range: [20000, 20999] };
        assert(r.port_range@ =~= seq![20000u16, 20999]);
        r
    }
}

impl TcpConfig {
    /// True iff daemons may reserve `port`.
    pub fn in_range(&self, port: u16) -> (r: bool)
        ensures
            r == (self.port_range@[0] <= port <= self.port_range@[1]),
    {
        port >= self.port_range[0] && port <= self.port_range[1]
    }

    /// The range as a pair.
    pub fn range(&self) -> (r: (u16, u16))
        ensures
            r == (self.port_range@[0], self.port_range@[1]),
    {
        (self.port_range[0], self.port_range[1])
    }
}

/// Where the registry lives.
#[derive(Clone, Debug)]
pub struct RegistryConfig {
    pub db_path: String,
}

impl Default for RegistryConfig {
    fn default() -> (r: Self)
        ensures
            r.db_path@ == "/var/lib/ethertunnel/registry.db"@,
    {
        RegistryConfig { db_path: "/var/lib/ethertunnel/registry.db".to_owned() }
    }
}

/// The public side of the relay.
#[derive(Clone, Debug)]
pub struct ServerConfig {
    /// Base domain. Tunnels live one label below it; daemons connect to its
    /// `connect` label.
    pub domain: String,
    /// Public listen address.
    pub listen: String,
    /// Body returned on the apex.
    pub apex_response: String,
}

impl ServerConfig {
    /// Settings for a domain, with defaults for what is not set.
    pub fn filled(domain: String, listen: Option<String>, apex_response: Option<String>) -> (r:
        Self)
        ensures
            r.domain == domain,
            match listen {
                Some(l) => r.listen == l,
                None => r.listen@ == "0.0.0.0:443"@,
            },
            match apex_response {
                Some(a) => r.apex_response == a,
                None => r.apex_response@ == "EtherTunnel relay"@,
            },
    {
        ServerConfig {
            domain,
            listen: match listen {
                Some(l) => l,
                None => "0.0.0.0:443".to_owned(),
            },
            apex_response: match apex_response {
                Some(a) => a,
                None => "EtherTunnel relay".to_owned(),
            },
        }
    }
}

/// Certificate settings.
#[derive(Clone, Debug)]
pub struct TlsConfig {
    pub mode: TlsMode,
    /// Where issued certificates and the account are kept.
    pub state_dir: String,
    /// Needed with [`TlsMode::Acme`].
    pub acme: Option<AcmeConfig>,
    /// Needed with [`TlsMode::Manual`].
    pub manual: Option<ManualConfig>,
}

impl Default for TlsConfig {
    fn default() -> (r: Self)
        ensures
            r.mode == TlsMode::SelfSigned,
            r.state_dir@ == "/var/lib/ethertunnel/tls"@,
            r.acme is None,
            r.manual is None,
    {
        TlsConfig {
            mode: TlsMode::SelfSigned,
            state_dir: "/var/lib/ethertunnel/tls".to_owned(),
            acme: None,
            manual: None,
        }
    }
}

/// Issuance through ACME with a DNS challenge.
#[derive(Clone, Debug)]
pub struct AcmeConfig {
    /// Contact registered with the account.
    pub email: String,
    /// Use the staging directory.
    pub staging: bool,
    pub cloudflare: CloudflareConfig,
}

/// Credentials for the DNS challenge.
#[derive(Clone, Debug)]
pub struct CloudflareConfig {
    /// The zone of the relay's base domain.
    pub zone_id: String,
    /// File that holds the API token.
    pub api_token_file: String,
}

impl CloudflareConfig {
    /// The API token in the contents of the token file.
    pub fn token(&self, contents: &str) -> (r: String)
        ensures
            r@ == text::trimmed(contents@),
    {
        text::trim(contents)
    }
}

/// Operator-provided certificate files.
#[derive(Clone, Debug)]
pub struct ManualConfig {
    pub cert_file: String,
    pub key_file: String,
}

/// How the relay obtains its certificate.
#[derive(Clone, Copy, Debug, PartialEq, Eq, Structural)]
pub enum TlsMode {
    /// Issued and renewed automatically.
    Acme,
    /// Self-signed for the domain.
    SelfSigned,
    /// Operator-provided files.
    Manual,
}

impl Default for TlsMode {
    fn default() -> (r: Self)
        ensures
            r == TlsMode::SelfSigned,
    {
        TlsMode::SelfSigned
    }
}

/// The control endpoint of a domain.
pub open spec fn connect_name(domain: Seq<char>) -> Seq<char> {
    "connect."@ + domain
}

/// What tunnel hostnames of a domain end in.
pub open spec fn suffix_name(domain: Seq<char>) -> Seq<char> {
    "."@ + domain
}

/// A hostname of a tunnel: one label directly below the domain, and not a
/// reserved one.
pub open spec fn tunnel_name(domain: Seq<char>, host: Seq<char>) -> bool {
    let label = host.take(host.len() - suffix_name(domain).len());
    &&& host != connect_name(domain)
    &&& host != domain
    &&& suffix_name(domain).is_suffix_of(host)
    &&& label.len() > 0
    &&& !label.contains('.')
    &&& !label::reserved(label)
}

impl Config {
    /// The control endpoint daemons connect to.
    pub fn connect_host(&self) -> (r: String)
        ensures
            r@ == connect_name(self.server.domain@),
    {
        text::join2("connect.", self.server.domain.as_str())
    }

    /// The apex hostname.
    pub fn apex(&self) -> (r: &str)
        ensures
            r@ == self.server.domain@,
    {
        self.server.domain.as_str()
    }

    /// The suffix of tunnel hostnames, with the leading dot.
    pub fn suffix(&self) -> (r: String)
        ensures
            r@ == suffix_name(self.server.domain@),
    {
        text::join2(".", self.server.domain.as_str())
    }

    /// True iff `host` is a tunnel hostname of this relay: a single label
    /// below the apex that is not reserved.
    pub fn is_tunnel_host(&self, host: &str) -> (r: bool)
        ensures
            r == tunnel_name(self.server.domain@, host@),
    {
        if text::same(host, self.connect_host().as_str()) || text::same(
            host,
            self.server.domain.as_str(),
        ) {
            return false;
        }
        match text::strip_suffix(host, self.suffix().as_str()) {
            None => false,
            Some(l) => {
                if l.as_str().is_empty() || text::has_char(l.as_str(), '.') {
                    return false;
                }
                !label::is_reserved(l.as_str())
            },
        }
    }
}

/// Neither the apex, nor the control endpoint, nor any other reserved label is
/// ever a tunnel hostname.
pub proof fn reserved_names_are_no_tunnels(domain: Seq<char>, label: Seq<char>)
    ensures
        !tunnel_name(domain, domain),
        !tunnel_name(domain, connect_name(domain)),
        label::reserved(label) ==> !tunnel_name(domain, label + suffix_name(domain)),
        label.contains('.') ==> !tunnel_name(domain, label + suffix_name(domain)),
{
    let host = label + suffix_name(domain);
    assert(host.take(host.len() - suffix_name(domain).len()) =~= label);
}

/// A label that may be claimed names a tunnel hostname.
pub proof fn claimable_labels_are_tunnels(domain: Seq<char>, label: Seq<char>)
    requires
        label::label_fault(label) is None,
    ensures
        tunnel_name(domain, label + suffix_name(domain)),
{
    let host = label + suffix_name(domain);
    let suffix = suffix_name(domain);
    reveal_strlit(".");
    if label.contains('.') {
        let i = choose|i: int| 0 <= i < label.len() && label[i] == '.';
        assert(!label::label_char(label[i]));
    }
    assert(host.take(host.len() - suffix.len()) =~= label);
    assert(host.subrange(host.len() - suffix.len(), host.len() as int) =~= suffix);
    assert(suffix.is_suffix_of(host));
    assert(host.len() == label.len() + 1 + domain.len());
    if host == connect_name(domain) {
        reveal_strlit("connect.");
        reveal_strlit("connect");
        assert(label =~= host.take(host.len() - suffix.len()));
        assert(connect_name(domain).take(7) =~= "connect"@);
        assert(label =~= "connect"@);
    }
}

/// A hostname is a tunnel's exactly if it is one label below the domain that
/// the relay does not keep for itself.
pub proof fn tunnel_names_are_free_labels(domain: Seq<char>, label: Seq<char>, host: Seq<char>)
    ensures
        tunnel_name(domain, label + "."@ + domain) <==> label.len() > 0 && !label.contains('.')
            && !seq![
            "connect"@,
            "www"@,
            "admin"@,
            "api"@,
            "docs"@,
            "status"@,
            "mail"@,
        ].contains(label),
        tunnel_name(domain, host) ==> host == host.take(host.len() - domain.len() - 1) + "."@
            + domain,
{
    let kept = seq!["connect"@, "www"@, "admin"@, "api"@, "docs"@, "status"@, "mail"@];
    assert(kept[0] == "connect"@);
    assert(kept[1] == "www"@);
    assert(kept[2] == "admin"@);
    assert(kept[3] == "api"@);
    assert(kept[4] == "docs"@);
    assert(kept[5] == "status"@);
    assert(kept[6] == "mail"@);
    assert(kept.contains(label) == label::reserved(label));
    reveal_strlit(".");
    reveal_strlit("connect");
    reveal_strlit("connect.");
    let suffix = suffix_name(domain);
    let whole = label + "."@ + domain;
    assert(whole =~= label + suffix);
    assert(whole.take(whole.len() - suffix.len()) =~= label);
    assert(whole.subrange(whole.len() - suffix.len(), whole.len() as int) =~= suffix);
    assert(whole.len() != domain.len());
    assert(connect_name(domain) =~= "connect"@ + suffix);
    if whole == connect_name(domain) {
        assert(connect_name(domain).take(whole.len() - suffix.len()) =~= "connect"@);
    }
    if tunnel_name(domain, host) {
        assert(host =~= host.take(host.len() - suffix.len()) + suffix);
        assert(host =~= host.take(host.len() - domain.len() - 1) + "."@ + domain);
    }
}

/// The limits a relay has where the configuration is silent.
pub proof fn limits_have_defaults()
    ensures
        default_limits().max_connections == 4096,
        default_limits().max_connections_per_ip == 64,
        default_limits().header_read_timeout_secs == 10,
        default_limits().max_sessions == 4096,
        default_limits().max_sessions_per_ip == 64,
        default_limits().proxy_idle_timeout_secs == 0,
        default_limits().proxy_absolute_max_secs == 0,
        default_limits().token_revalidate_interval_secs == 60,
{
}

/// A setting that is given counts, and its default otherwise.
pub proof fn given_settings_count<T>(v: Option<T>, d: T)
    ensures
        v matches Some(x) ==> or(v, d) == x,
        v is None ==> or(v, d) == d,
        connect_name(seq!['x']) == "connect."@ + seq!['x'],
{
}

} // verus!
