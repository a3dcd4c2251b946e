//! The public listener: which connections are taken, and where each request
//! goes.
//!
//! One socket serves visitors and daemon control connections. A connection is
//! taken if its source is within the accept rate and the concurrency caps; a
//! request is routed by its `Host`.
use vstd::prelude::*;

use crate::proto::frames::PeerIp;
use crate::relay::config;
use crate::relay::config::{Config, LimitsConfig, TlsMode};
use crate::relay::proxy;
use crate::relay::proxy::{Header, HeaderView, Page, PageView, SpliceBounds};
use crate::relay::ratelimit;
use crate::relay::ratelimit::{ConnLimiter, ConnPermit, RateLimiter};
use crate::text;

verus! {

/// Accepts per second and source.
pub const ACCEPT_RATE: u32 = 20;

/// Accepts a source may make at once.
pub const ACCEPT_BURST: u32 = 40;

/// Seconds between two sweeps of idle buckets.
pub const SWEEP_INTERVAL: u64 = 60;

/// Seconds a peer has for its TLS handshake.
pub const TLS_HANDSHAKE_TIMEOUT: u64 = 5;

/// The limiters of a relay. Visitors and raw-TCP tunnels share one budget of
/// connections; live control sessions have their own.
pub struct Gates {
    pub rate: RateLimiter,
    pub connections: ConnLimiter,
    pub sessions: ConnLimiter,
    pub splice: SpliceBounds,
}

/// A setting in seconds, 0 meaning off, as milliseconds.
pub open spec fn bound_of(secs: u64) -> Option<u128> {
    if secs > 0 {
        Some((secs * 1000) as u128)
    } else {
        None
    }
}

impl Gates {
    /// The limiters a configuration asks for.
    pub fn new(limits: &LimitsConfig) -> (r: Self)
        ensures
            r.rate.wf(),
            r.connections.wf(),
            r.sessions.wf(),
            r.rate@ == (ratelimit::RateView {
                rate: ACCEPT_RATE,
                burst: ACCEPT_BURST,
                buckets: Map::empty(),
            }),
            r.connections@.held.len() == 0,
            r.connections@.global_max == clamped(limits.max_connections),
            r.connections@.per_key_max == at_least_one(limits.max_connections_per_ip),
            r.sessions@.held.len() == 0,
            r.sessions@.global_max == clamped(limits.max_sessions),
            r.sessions@.per_key_max == at_least_one(limits.max_sessions_per_ip),
            r.splice == (SpliceBounds {
                idle: bound_of(limits.proxy_idle_timeout_secs),
                absolute: bound_of(limits.proxy_absolute_max_secs),
            }),
    {
        Gates {
            rate: RateLimiter::new(ACCEPT_RATE, ACCEPT_BURST),
            connections: ConnLimiter::new(limits.max_connections, limits.max_connections_per_ip),
            sessions: ConnLimiter::new(limits.max_sessions, limits.max_sessions_per_ip),
            splice: SpliceBounds {
                idle: proxy::dur_or_off(limits.proxy_idle_timeout_secs),
                absolute: proxy::dur_or_off(limits.proxy_absolute_max_secs),
            },
        }
    }
}

/// An overall cap as a limiter takes it.
pub open spec fn clamped(n: usize) -> int {
    if n < 1 {
        1
    } else if n > ratelimit::MAX_PERMITS {
        ratelimit::MAX_PERMITS as int
    } else {
        n as int
    }
}

/// A per-source cap as a limiter takes it.
pub open spec fn at_least_one(n: u32) -> int {
    if n < 1 {
        1
    } else {
        n as int
    }
}

/// What becomes of an accepted connection.
pub enum Accepted {
    /// Its source connects too often: dropped.
    RateLimited,
    /// A concurrency cap is reached: dropped.
    AtCapacity,
    /// Served, with this permit held for its lifetime.
    Serve(ConnPermit),
}

/// Take or drop a connection from `peer` at `now` nanoseconds. The rate is
/// asked first; a connection it refuses takes no slot.
pub fn accept_connection(
    rate: &mut RateLimiter,
    connections: &mut ConnLimiter,
    peer: PeerIp,
    now: u64,
) -> (r: Accepted)
    requires
        old(rate).wf(),
        old(connections).wf(),
    ensures
        final(rate).wf(),
        final(connections).wf(),
        final(rate)@ == old(rate)@.asked(ratelimit::key_of(peer@), now).0,
        match r {
            Accepted::RateLimited => !old(rate)@.asked(ratelimit::key_of(peer@), now).1
                && final(connections)@ == old(connections)@,
            Accepted::AtCapacity => old(rate)@.asked(ratelimit::key_of(peer@), now).1
                && !old(connections)@.room(ratelimit::key_of(peer@)) && final(connections)@
                == old(connections)@,
            Accepted::Serve(p) => old(rate)@.asked(ratelimit::key_of(peer@), now).1
                && old(connections)@.room(ratelimit::key_of(peer@)) && p.key() == ratelimit::key_of(
                peer@,
            ) && final(connections)@ == (ratelimit::ConnView {
                held: old(connections)@.held.push(ratelimit::key_of(peer@)),
                ..old(connections)@
            }),
        },
{
    if !rate.check(peer, now) {
        return Accepted::RateLimited;
    }
    match connections.try_admit(peer) {
        Some(p) => Accepted::Serve(p),
        None => Accepted::AtCapacity,
    }
}

/// Where the relay's certificate comes from.
#[derive(Clone, Copy, Debug, PartialEq, Eq, Structural)]
pub enum TlsSource {
    /// The caller supplied it.
    Injected,
    SelfSigned,
    Manual,
    Acme,
}

/// Where the relay's certificate comes from: the caller's, if one was given,
/// or as the configuration says, whose mode needs its own section.
pub fn tls_source(config: &Config, injected: bool) -> (r: Result<TlsSource, &'static str>)
    ensures
        match r {
            Ok(s) => s == (if injected {
                TlsSource::Injected
            } else {
                match config.tls.mode {
                    TlsMode::SelfSigned => TlsSource::SelfSigned,
                    TlsMode::Manual => TlsSource::Manual,
                    TlsMode::Acme => TlsSource::Acme,
                }
            }) && (s == TlsSource::Manual ==> config.tls.manual is Some) && (s == TlsSource::Acme
                ==> config.tls.acme is Some),
            Err(why) => !injected && ((config.tls.mode == TlsMode::Manual && config.tls.manual
                is None && why@ == "tls.mode = manual requires [tls.manual]"@) || (config.tls.mode
                == TlsMode::Acme && config.tls.acme is None && why@
                == "tls.mode = acme requires [tls.acme]"@)),
        },
{
    if injected {
        return Ok(TlsSource::Injected);
    }
    match config.tls.mode {
        TlsMode::SelfSigned => Ok(TlsSource::SelfSigned),
        TlsMode::Manual => if config.tls.manual.is_some() {
            Ok(TlsSource::Manual)
        } else {
            Err("tls.mode = manual requires [tls.manual]")
        },
        TlsMode::Acme => if config.tls.acme.is_some() {
            Ok(TlsSource::Acme)
        } else {
            Err("tls.mode = acme requires [tls.acme]")
        },
    }
}

/// The hostname in a `Host` header: without the port, in lower case.
pub open spec fn host_in(s: Seq<HeaderView>) -> Option<Seq<char>> {
    match proxy::first_text(s, "host"@) {
        Some(t) => Some(text::lower(text::before(t, ':'))),
        None => None,
    }
}

/// The `Host` header, in lower case and without the port.
pub fn host_of(headers: &Vec<Header>) -> (r: Option<String>)
    ensures
        proxy::opt_text(r) == host_in(proxy::header_views(headers@)),
{
    match proxy::header_text(headers, "host") {
        Some(t) => {
            let name = text::cut_before(t.as_str(), ':');
            Some(text::to_lower(name.as_str()))
        },
        None => None,
    }
}

/// Where a request goes.
pub enum Route {
    /// The provisioning control plane.
    Admin,
    /// A daemon's control connection.
    Control,
    /// The apex page.
    Apex,
    /// The tunnel of this hostname.
    Tunnel(String),
    NotFound,
}

/// View of a [`Route`].
pub enum RouteView {
    Admin,
    Control,
    Apex,
    Tunnel(Seq<char>),
    NotFound,
}

impl View for Route {
    type V = RouteView;

    open spec fn view(&self) -> RouteView {
        match self {
            Route::Admin => RouteView::Admin,
            Route::Control => RouteView::Control,
            Route::Apex => RouteView::Apex,
            Route::Tunnel(h) => RouteView::Tunnel(h@),
            Route::NotFound => RouteView::NotFound,
        }
    }
}

/// Where a request for `host` goes; `admin` when it is one for the control
/// plane.
pub open spec fn destination(domain: Seq<char>, host: Option<Seq<char>>, admin: bool) -> RouteView {
    match host {
        None => RouteView::NotFound,
        Some(h) => if h == config::connect_name(domain) {
            if admin {
                RouteView::Admin
            } else {
                RouteView::Control
            }
        } else if h == domain {
            RouteView::Apex
        } else if config::tunnel_name(domain, h) {
            RouteView::Tunnel(h)
        } else {
            RouteView::NotFound
        },
    }
}

/// Route one request by its host: the control endpoint, the apex page, the
/// proxy for tunnel hostnames, and nothing else.
pub fn route(config: &Config, headers: &Vec<Header>, admin: bool) -> (r: Route)
    ensures
        r@ == destination(
            config.server.domain@,
            host_in(proxy::header_views(headers@)),
            admin,
        ),
{
    match host_of(headers) {
        None => Route::NotFound,
        Some(h) => if text::same(h.as_str(), config.connect_host().as_str()) {
            if admin {
                Route::Admin
            } else {
                Route::Control
            }
        } else if text::same(h.as_str(), config.apex()) {
            Route::Apex
        } else if config.is_tunnel_host(h.as_str()) {
            Route::Tunnel(h)
        } else {
            Route::NotFound
        },
    }
}

/// The page of the apex, and of a request that goes nowhere.
pub fn static_page(config: &Config, apex: bool) -> (r: Page)
    ensures
        r@ == (if apex {
            proxy::plain(200, config.server.apex_response@)
        } else {
            proxy::plain(404, "not found"@)
        }),
{
    if apex {
        proxy::plain_page(200, config.server.apex_response.as_str())
    } else {
        proxy::plain_page(404, "not found")
    }
}

/// The request asks for a WebSocket.
pub open spec fn websocket_asked(s: Seq<HeaderView>) -> bool {
    proxy::mentions(s, "upgrade"@, "websocket"@) && proxy::mentions(s, "connection"@, "upgrade"@)
}

/// True iff the request asks for a WebSocket.
pub fn is_websocket_upgrade(headers: &Vec<Header>) -> (r: bool)
    ensures
        r == websocket_asked(proxy::header_views(headers@)),
{
    proxy::header_contains(headers, "upgrade", "websocket") && proxy::header_contains(
        headers,
        "connection",
        "upgrade",
    )
}

/// The accept value for a WebSocket key.
pub uninterp spec fn ws_accept(key: Seq<u8>) -> Seq<char>;

/// `tungstenite::handshake::derive_accept_key`: a function of the key alone.
#[verifier::external_body]
fn derive_accept_key(key: &[u8]) -> (r: String)
    ensures
        r@ == ws_accept(key@),
{
    async_tungstenite::tungstenite::handshake::derive_accept_key(key)
}

/// The answer to a control upgrade.
pub enum UpgradeReply {
    /// This page, and no session.
    Refuse(Page),
    /// Switch protocols with these headers and run a session, holding the
    /// permit for its lifetime.
    Switch { headers: Vec<Header>, permit: Option<ConnPermit> },
}

/// What is wrong with an upgrade request, before capacity is asked.
pub open spec fn upgrade_fault(method: Seq<char>, s: Seq<HeaderView>) -> Option<PageView> {
    if method != "GET"@ || !websocket_asked(s) {
        Some(proxy::plain(400, "expected websocket upgrade"@))
    } else if proxy::first_value(s, "sec-websocket-key"@) is None {
        Some(proxy::plain(400, "missing Sec-WebSocket-Key"@))
    } else {
        None
    }
}

/// The headers of a switch to the WebSocket of this accept value.
pub open spec fn switch_headers(accept: Seq<char>) -> Seq<HeaderView> {
    seq![
        proxy::text_header("connection"@, "upgrade"@),
        proxy::text_header("upgrade"@, "websocket"@),
        proxy::text_header("sec-websocket-accept"@, accept),
    ]
}

/// Build the headers of a switch.
pub fn switching_headers(accept: &str) -> (r: Vec<Header>)
    ensures
        proxy::header_views(r@) == switch_headers(accept@),
{
    let a = proxy::make_header("connection", "upgrade");
    let b = proxy::make_header("upgrade", "websocket");
    let c = proxy::make_header("sec-websocket-accept", accept);
    let mut out: Vec<Header> = Vec::new();
    out.push(a);
    out.push(b);
    out.push(c);
    assert(proxy::header_views(out@) =~= switch_headers(accept@));
    out
}

/// Answer a request on the control endpoint. A well-formed upgrade takes a
/// session permit before the switch is promised; without a limiter, sessions
/// are unbounded.
pub fn handle_control_upgrade(
    method: &str,
    headers: &Vec<Header>,
    sessions: &mut Option<ConnLimiter>,
    peer: PeerIp,
) -> (r: UpgradeReply)
    requires
        (*old(sessions)) is Some ==> (*old(sessions))->0.wf(),
    ensures
        (*final(sessions)) is Some <==> (*old(sessions)) is Some,
        (*final(sessions)) is Some ==> (*final(sessions))->0.wf(),
        match upgrade_fault(method@, proxy::header_views(headers@)) {
            Some(p) => *final(sessions) == *old(sessions) && (match r {
                UpgradeReply::Refuse(q) => q@ == p,
                UpgradeReply::Switch { .. } => false,
            }),
            None => match r {
                UpgradeReply::Refuse(q) => {
                    &&& (*old(sessions)) is Some
                    &&& !(*old(sessions))->0@.room(ratelimit::key_of(peer@))
                    &&& (*final(sessions))->0@ == (*old(sessions))->0@
                    &&& q@ == proxy::plain(503, "relay at capacity"@)
                },
                UpgradeReply::Switch { headers: h, permit } => {
                    &&& proxy::header_views(h@) == switch_headers(
                        ws_accept(
                            proxy::first_value(
                                proxy::header_views(headers@),
                                "sec-websocket-key"@,
                            )->0,
                        ),
                    )
                    &&& permit is Some <==> (*old(sessions)) is Some
                    &&& (*old(sessions)) is Some ==> (*old(sessions))->0@.room(ratelimit::key_of(peer@))
                        && permit->0.key() == ratelimit::key_of(peer@) && (*final(sessions))->0@ == (
                    ratelimit::ConnView {
                        held: (*old(sessions))->0@.held.push(ratelimit::key_of(peer@)),
                        ..(*old(sessions))->0@
                    })
                },
            },
        },
{
    if !text::same(method, "GET") || !is_websocket_upgrade(headers) {
        return UpgradeReply::Refuse(proxy::plain_page(400, "expected websocket upgrade"));
    }
    let accept = match proxy::header_value(headers, "sec-websocket-key") {
        Some(k) => derive_accept_key(k.as_slice()),
        None => {
            return UpgradeReply::Refuse(proxy::plain_page(400, "missing Sec-WebSocket-Key"));
        },
    };
    let permit = match sessions {
        Some(limiter) => match limiter.try_admit(peer) {
            Some(p) => Some(p),
            None => {
                return UpgradeReply::Refuse(proxy::plain_page(503, "relay at capacity"));
            },
        },
        None => None,
    };
    UpgradeReply::Switch { headers: switching_headers(accept.as_str()), permit }
}

/// No request reaches a tunnel or the control plane but by its own hostname,
/// and none of the relay's own hostnames reaches a tunnel.
pub proof fn relay_names_reach_no_tunnel(domain: Seq<char>, host: Option<Seq<char>>, admin: bool)
    ensures
        match destination(domain, host, admin) {
            RouteView::Tunnel(h) => host == Some(h) && h != domain && h != config::connect_name(
                domain,
            ) && config::tunnel_name(domain, h),
            RouteView::Admin => admin && host == Some(config::connect_name(domain)),
            RouteView::Control => !admin && host == Some(config::connect_name(domain)),
            RouteView::Apex => host == Some(domain),
            RouteView::NotFound => true,
        },
{
}

/// An upgrade request gets as far as the session cap exactly if it is a `GET`
/// that asks for a WebSocket and brings a key.
pub proof fn malformed_upgrade_is_refused(method: Seq<char>, s: Seq<HeaderView>)
    ensures
        upgrade_fault(method, s) is None <==> method == "GET"@ && websocket_asked(s)
            && proxy::first_value(s, "sec-websocket-key"@) is Some,
{
}

/// Every request has one destination: the control name leads to the control
/// endpoint, or to administration; the domain itself to its page; a label below
/// it that the relay does not keep to that tunnel; and everything else nowhere.
pub proof fn every_host_has_one_destination(
    domain: Seq<char>,
    label: Seq<char>,
    host: Seq<char>,
    admin: bool,
)
    ensures
        destination(domain, Some("connect."@ + domain), admin) == (if admin {
            RouteView::Admin
        } else {
            RouteView::Control
        }),
        destination(domain, Some(domain), admin) == RouteView::Apex,
        config::tunnel_name(domain, label + "."@ + domain) ==> destination(
            domain,
            Some(label + "."@ + domain),
            admin,
        ) == RouteView::Tunnel(label + "."@ + domain),
        host != domain && host != "connect."@ + domain && !config::tunnel_name(domain, host)
            ==> destination(domain, Some(host), admin) == RouteView::NotFound,
        destination(domain, None, admin) == RouteView::NotFound,
{
    reveal_strlit("connect.");
    assert(("connect."@ + domain).len() != domain.len());
}

/// The host of a request is what its `host` header says before the port, in
/// lower case.
pub proof fn host_is_taken_without_port(s: Seq<HeaderView>, name: Seq<char>, port: Seq<char>)
    requires
        !name.contains(':'),
    ensures
        proxy::first_text(s, "host"@) == Some(name) ==> host_in(s) == Some(text::lower(name)),
        proxy::first_text(s, "host"@) == Some(name + seq![':'] + port) ==> host_in(s) == Some(
            text::lower(name),
        ),
        proxy::first_text(s, "host"@) is None ==> host_in(s) is None,
{
    text::cut_is_at_the_first(name, ':', port);
}

/// A control connection is a GET that asks for a websocket and carries a key;
/// anything else is a bad request.
pub proof fn control_is_a_websocket(method: Seq<char>, s: Seq<HeaderView>)
    ensures
        websocket_asked(s) <==> (proxy::first_text(s, "upgrade"@) matches Some(u) && text::occurs(
            text::lower(u),
            "websocket"@,
        )) && (proxy::first_text(s, "connection"@) matches Some(c) && text::occurs(
            text::lower(c),
            "upgrade"@,
        )),
        upgrade_fault(method, s) matches Some(p) ==> p.status == 400 && p.content_type
            == "text/plain; charset=utf-8"@,
{
}

/// The answer to a websocket request switches protocols and proves the key.
pub proof fn switch_answers_the_key(accept: Seq<char>)
    ensures
        proxy::first_text(switch_headers(accept), "connection"@) == Some("upgrade"@),
        proxy::first_text(switch_headers(accept), "upgrade"@) == Some("websocket"@),
        proxy::first_text(switch_headers(accept), "sec-websocket-accept"@) == Some(accept),
        switch_headers(accept).len() == 3,
{
    let s = switch_headers(accept);
    reveal_strlit("connection");
    reveal_strlit("upgrade");
    reveal_strlit("sec-websocket-accept");
    assert("connection"@.len() == 10);
    assert("upgrade"@.len() == 7);
    assert("sec-websocket-accept"@.len() == 20);
    proxy::first_header_counts(s, "connection"@, 0);
    proxy::first_header_counts(s, "upgrade"@, 1);
    proxy::first_header_counts(s, "sec-websocket-accept"@, 2);
}

/// A limit from the configuration is kept, but never below one; and a bound in
/// seconds is that many thousand milliseconds, or none for zero.
pub proof fn configured_limits_are_kept(n: usize, m: u32, secs: u64)
    ensures
        clamped(n) >= 1,
        1 <= n <= ratelimit::MAX_PERMITS ==> clamped(n) == n,
        n > ratelimit::MAX_PERMITS ==> clamped(n) == ratelimit::MAX_PERMITS,
        at_least_one(m) == (if m == 0 {
            1
        } else {
            m as int
        }),
        secs == 0 ==> bound_of(secs) is None,
        secs > 0 ==> bound_of(secs) == Some((1000 * secs) as u128),
{
}

} // verus!
