//! The client's configuration: which relay, and which tunnels.
//!
//! The file carries no secrets. Reading and writing it is left to the program
//! around this module.
use vstd::prelude::*;

use crate::client::supervisor::{ClientConfig, HttpTunnel, TcpTunnel};
use crate::client::tls;
use crate::client::tls::{TrustMode, TrustView};
use crate::text;

verus! {

/// The protocol a tunnel forwards.
#[derive(Clone, Copy, Debug, PartialEq, Eq, Structural)]
pub enum Protocol {
    Http,
    Tcp,
}

impl Default for Protocol {
    fn default() -> (r: Self)
        ensures
            r == Protocol::Http,
    {
        Protocol::Http
    }
}

/// One configured tunnel.
#[derive(Clone, Debug)]
pub struct TunnelConfig {
    /// Stable name, and the default hostname label.
    pub name: String,
    /// Local port to forward to.
    pub port: u16,
    /// Local host to forward to.
    pub local_host: String,
    pub protocol: Protocol,
    /// HTTP only: the public label below the relay's apex.
    pub hostname: Option<String>,
    /// TCP only: the public port on the relay.
    pub public_port: Option<u16>,
}

/// View of a [`TunnelConfig`].
pub struct TunnelView {
    pub name: Seq<char>,
    pub port: u16,
    pub local_host: Seq<char>,
    pub protocol: Protocol,
    pub hostname: Option<Seq<char>>,
    pub public_port: Option<u16>,
}

impl View for TunnelConfig {
    type V = TunnelView;

    open spec fn view(&self) -> TunnelView {
        TunnelView {
            name: self.name@,
            port: self.port,
            local_host: self.local_host@,
            protocol: self.protocol,
            hostname: match self.hostname {
                Some(h) => Some(h@),
                None => None,
            },
            public_port: self.public_port,
        }
    }
}

/// Views of a list of tunnels.
pub open spec fn tunnel_views(v: Seq<TunnelConfig>) -> Seq<TunnelView> {
    v.map_values(|t: TunnelConfig| t@)
}

/// The local host of a tunnel that names none.
pub fn default_local_host() -> (r: String)
    ensures
        r@ == "127.0.0.1"@,
{
    "127.0.0.1".to_owned()
}

/// The whole configuration.
#[derive(Clone, Debug)]
pub struct FileConfig {
    /// Relay base domain; empty until the first login.
    pub relay: String,
    /// File with the certificate to trust instead of the public root set.
    pub relay_ca: Option<String>,
    pub tunnels: Vec<TunnelConfig>,
}

impl Default for FileConfig {
    fn default() -> (r: Self)
        ensures
            r.relay@.len() == 0,
            r.relay_ca is None,
            r.tunnels@.len() == 0,
    {
        FileConfig { relay: String::new(), relay_ca: None, tunnels: Vec::new() }
    }
}

/// The public hostname of an HTTP tunnel.
pub open spec fn public_name(relay: Seq<char>, t: TunnelView) -> Seq<char> {
    (match t.hostname {
        Some(h) => h,
        None => t.name,
    }) + "."@ + relay
}

/// The HTTP tunnels of a list, as the daemon serves them: public hostname, local
/// host and local port.
pub open spec fn http_of(relay: Seq<char>, ts: Seq<TunnelView>) -> Seq<
    (Seq<char>, Seq<char>, u16),
>
    decreases ts.len(),
{
    if ts.len() == 0 {
        Seq::empty()
    } else {
        let rest = http_of(relay, ts.drop_last());
        let t = ts.last();
        if t.protocol == Protocol::Http {
            rest.push((public_name(relay, t), t.local_host, t.port))
        } else {
            rest
        }
    }
}

/// The TCP tunnels of a list, as the daemon serves them: public port, local host
/// and local port; or the name of the first that has no public port.
pub open spec fn tcp_of(ts: Seq<TunnelView>) -> Result<Seq<(u16, Seq<char>, u16)>, Seq<char>>
    decreases ts.len(),
{
    if ts.len() == 0 {
        Ok(Seq::empty())
    } else {
        match tcp_of(ts.drop_last()) {
            Err(e) => Err(e),
            Ok(rest) => {
                let t = ts.last();
                if t.protocol == Protocol::Tcp {
                    match t.public_port {
                        Some(p) => Ok(rest.push((p, t.local_host, t.port))),
                        None => Err(t.name),
                    }
                } else {
                    Ok(rest)
                }
            },
        }
    }
}

/// Views of a list of HTTP tunnels.
pub open spec fn http_views(v: Seq<HttpTunnel>) -> Seq<(Seq<char>, Seq<char>, u16)> {
    v.map_values(|t: HttpTunnel| (t.hostname@, t.local_host@, t.local_port))
}

/// Views of a list of TCP tunnels.
pub open spec fn tcp_views(v: Seq<TcpTunnel>) -> Seq<(u16, Seq<char>, u16)> {
    v.map_values(|t: TcpTunnel| (t.public_port, t.local_host@, t.local_port))
}

proof fn lemma_tcp_stops(ts: Seq<TunnelView>, i: int)
    requires
        0 <= i <= ts.len(),
        tcp_of(ts.take(i)) is Err,
    ensures
        tcp_of(ts) == tcp_of(ts.take(i)),
    decreases ts.len() - i,
{
    if i < ts.len() {
        assert(ts.take(i + 1).drop_last() =~= ts.take(i));
        lemma_tcp_stops(ts, i + 1);
    } else {
        assert(ts.take(i) =~= ts);
    }
}

/// Position of the first tunnel of a name, or the number of tunnels.
pub open spec fn tunnel_at(ts: Seq<TunnelView>, name: Seq<char>) -> int
    decreases ts.len(),
{
    if ts.len() == 0 || ts[0].name == name {
        0
    } else {
        1 + tunnel_at(ts.drop_first(), name)
    }
}

impl FileConfig {
    /// The tunnels.
    pub open spec fn list(&self) -> Seq<TunnelView> {
        tunnel_views(self.tunnels@)
    }

    /// How to trust the relay, given the contents of `relay_ca` where that is
    /// set.
    pub fn trust_mode(&self, pem: &[u8]) -> (r: Result<TrustMode, String>)
        ensures
            match self.relay_ca {
                None => r is Ok && r->Ok_0@ == TrustView::System,
                Some(path) => match tls::pem_first(pem@) {
                    Some(d) => r is Ok && r->Ok_0@ == TrustView::CustomRoot(d),
                    None => r is Err && r->Err_0@ == "parsing relay_ca "@ + path@
                        + ": no certificate found in relay_ca PEM"@,
                },
            },
    {
        match &self.relay_ca {
            None => Ok(TrustMode::System),
            Some(path) => match tls::first_certificate(pem) {
                Some(d) => Ok(TrustMode::CustomRoot(d)),
                None => Err(
                    text::join3(
                        "parsing relay_ca ",
                        path.as_str(),
                        ": no certificate found in relay_ca PEM",
                    ),
                ),
            },
        }
    }

    /// Position of the first tunnel of this name.
    pub fn position(&self, name: &str) -> (r: Option<usize>)
        ensures
            match r {
                Some(i) => i == tunnel_at(self.list(), name@) && i < self.tunnels@.len()
                    && self.tunnels@[i as int].name@ == name@,
                None => tunnel_at(self.list(), name@) == self.tunnels@.len() && forall|i: int|
                    0 <= i < self.tunnels@.len() ==> (#[trigger] self.tunnels@[i]).name@ != name@,
            },
    {
        let ghost ts = self.list();
        let mut i: usize = 0;
        assert(ts.skip(0) =~= ts);
        while i < self.tunnels.len()
            invariant
                i <= self.tunnels@.len(),
                ts == self.list(),
                tunnel_at(ts, name@) == i + tunnel_at(ts.skip(i as int), name@),
                forall|j: int| 0 <= j < i ==> (#[trigger] self.tunnels@[j]).name@ != name@,
            decreases self.tunnels@.len() - i,
        {
            assert(ts.skip(i as int)[0] == self.tunnels@[i as int]@);
            if text::same(self.tunnels[i].name.as_str(), name) {
                return Some(i);
            }
            assert(ts.skip(i as int).drop_first() =~= ts.skip(i + 1));
            i += 1;
        }
        assert(ts.skip(i as int).len() == 0);
        None
    }

    /// Find a tunnel by name.
    pub fn tunnel(&self, name: &str) -> (r: Option<&TunnelConfig>)
        ensures
            match r {
                Some(t) => tunnel_at(self.list(), name@) < self.tunnels@.len() && *t
                    == self.tunnels@[tunnel_at(self.list(), name@)] && t.name@ == name@,
                None => forall|i: int|
                    0 <= i < self.tunnels@.len() ==> (#[trigger] self.tunnels@[i]).name@ != name@,
            },
    {
        match self.position(name) {
            Some(i) => Some(&self.tunnels[i]),
            None => None,
        }
    }

    /// The public hostname of an HTTP tunnel.
    pub fn fqdn(&self, t: &TunnelConfig) -> (r: String)
        ensures
            r@ == public_name(self.relay@, t@),
    {
        match &t.hostname {
            Some(h) => text::join3(h.as_str(), ".", self.relay.as_str()),
            None => text::join3(t.name.as_str(), ".", self.relay.as_str()),
        }
    }

    /// What the daemon should connect to and claim.
    pub fn to_client_config(&self, token: String, trust: TrustMode) -> (r: Result<
        ClientConfig,
        String,
    >)
        ensures
            match r {
                Ok(c) => {
                    &&& self.relay@.len() > 0
                    &&& c.relay_host@ == self.relay@
                    &&& c.relay_addr is None
                    &&& c.token == token
                    &&& c.trust == trust
                    &&& http_views(c.http_tunnels@) == http_of(self.relay@, self.list())
                    &&& tcp_of(self.list()) == Ok::<_, Seq<char>>(tcp_views(c.tcp_tunnels@))
                },
                Err(e) => if self.relay@.len() == 0 {
                    e@ == "no relay configured; run `etun login` first"@
                } else {
                    tcp_of(self.list()) is Err && e@ == "tcp tunnel `"@ + tcp_of(
                        self.list(),
                    )->Err_0 + "` needs a public_port"@
                },
            },
    {
        if self.relay.as_str().is_empty() {
            return Err("no relay configured; run `etun login` first".to_owned());
        }
        let ghost ts = self.list();
        let ghost relay = self.relay@;
        let mut http: Vec<HttpTunnel> = Vec::new();
        let mut tcp: Vec<TcpTunnel> = Vec::new();
        let mut i: usize = 0;
        assert(ts.take(0) =~= Seq::<TunnelView>::empty());
        assert(http_views(http@) =~= Seq::<(Seq<char>, Seq<char>, u16)>::empty());
        assert(tcp_views(tcp@) =~= Seq::<(u16, Seq<char>, u16)>::empty());
        while i < self.tunnels.len()
            invariant
                i <= self.tunnels@.len(),
                ts == self.list(),
                relay == self.relay@,
                relay.len() > 0,
                http_views(http@) == http_of(relay, ts.take(i as int)),
                tcp_of(ts.take(i as int)) == Ok::<_, Seq<char>>(tcp_views(tcp@)),
            decreases self.tunnels@.len() - i,
        {
            let t = &self.tunnels[i];
            let ghost h0 = http@;
            let ghost t0 = tcp@;
            proof {
                assert(ts.take(i + 1).drop_last() =~= ts.take(i as int));
                assert(ts.take(i + 1).last() == t@);
            }
            match t.protocol {
                Protocol::Http => {
                    let one = HttpTunnel {
                        hostname: self.fqdn(t),
                        local_host: t.local_host.clone(),
                        local_port: t.port,
                    };
                    http.push(one);
                    assert(http_views(http@) =~= http_views(h0).push(
                        (public_name(relay, t@), t.local_host@, t.port),
                    ));
                },
                Protocol::Tcp => {
                    match t.public_port {
                        Some(p) => {
                            let one = TcpTunnel {
                                public_port: p,
                                local_host: t.local_host.clone(),
                                local_port: t.port,
                            };
                            tcp.push(one);
                            assert(tcp_views(tcp@) =~= tcp_views(t0).push(
                                (p, t.local_host@, t.port),
                            ));
                        },
                        None => {
                            proof {
                                lemma_tcp_stops(ts, i + 1);
                            }
                            return Err(
                                text::join3(
                                    "tcp tunnel `",
                                    t.name.as_str(),
                                    "` needs a public_port",
                                ),
                            );
                        },
                    }
                },
            }
            i += 1;
        }
        assert(ts.take(i as int) =~= ts);
        Ok(
            ClientConfig {
                relay_host: self.relay.clone(),
                relay_addr: None,
                token,
                http_tunnels: http,
                tcp_tunnels: tcp,
                trust,
            },
        )
    }
}

/// A tunnel is published under its own hostname label if it has one, and under
/// its name otherwise, one level below the relay.
pub proof fn public_name_is_one_label(relay: Seq<char>, t: TunnelView)
    ensures
        t.hostname matches Some(h) ==> public_name(relay, t) == h + "."@ + relay,
        t.hostname is None ==> public_name(relay, t) == t.name + "."@ + relay,
{
}

/// The tunnel found under a name is the first so named.
pub proof fn first_tunnel_so_named(ts: Seq<TunnelView>, name: Seq<char>, i: int)
    requires
        0 <= i <= ts.len(),
        forall|j: int| 0 <= j < i ==> (#[trigger] ts[j]).name != name,
        i < ts.len() ==> ts[i].name == name,
    ensures
        tunnel_at(ts, name) == i,
    decreases i,
{
    if i > 0 {
        let rest = ts.drop_first();
        assert(ts[0].name != name);
        assert forall|j: int| 0 <= j < i - 1 implies (#[trigger] rest[j]).name != name by {
            assert(ts[j + 1].name != name);
        }
        first_tunnel_so_named(rest, name, i - 1);
    }
}

/// The daemon runs exactly the HTTP tunnels of the configuration: each under
/// its public name, to its own local host and port.
pub proof fn http_tunnels_are_run(relay: Seq<char>, ts: Seq<TunnelView>, e: (Seq<char>, Seq<char>, u16))
    ensures
        http_of(relay, ts).contains(e) <==> exists|i: int|
            0 <= i < ts.len() && (#[trigger] ts[i]).protocol == Protocol::Http && e == (
                public_name(relay, ts[i]),
                ts[i].local_host,
                ts[i].port,
            ),
    decreases ts.len(),
{
    if ts.len() > 0 {
        let rest = ts.drop_last();
        let r = http_of(relay, rest);
        let all = http_of(relay, ts);
        http_tunnels_are_run(relay, rest, e);
        if all.contains(e) {
            let k = choose|k: int| 0 <= k < all.len() && all[k] == e;
            if k < r.len() {
                assert(r[k] == e);
                let i = choose|i: int|
                    0 <= i < rest.len() && (#[trigger] rest[i]).protocol == Protocol::Http && e == (
                        public_name(relay, rest[i]),
                        rest[i].local_host,
                        rest[i].port,
                    );
                assert(ts[i] == rest[i]);
            } else {
                assert(ts[ts.len() - 1].protocol == Protocol::Http);
            }
        }
        if exists|i: int|
            0 <= i < ts.len() && (#[trigger] ts[i]).protocol == Protocol::Http && e == (
                public_name(relay, ts[i]),
                ts[i].local_host,
                ts[i].port,
            ) {
            let i = choose|i: int|
                0 <= i < ts.len() && (#[trigger] ts[i]).protocol == Protocol::Http && e == (
                    public_name(relay, ts[i]),
                    ts[i].local_host,
                    ts[i].port,
                );
            if i < rest.len() {
                assert(rest[i] == ts[i]);
                assert(r.contains(e));
                let k = choose|k: int| 0 <= k < r.len() && r[k] == e;
                assert(all[k] == e);
            } else {
                assert(all[all.len() - 1] == e);
            }
        }
    }
}

/// The daemon runs exactly the TCP tunnels of the configuration: each on its
/// public port, to its own local host and port. A TCP tunnel without a public
/// port cannot be run, and the first such is named.
pub proof fn tcp_tunnels_are_run(ts: Seq<TunnelView>, e: (u16, Seq<char>, u16))
    ensures
        match tcp_of(ts) {
            Ok(all) => (forall|i: int|
                0 <= i < ts.len() && (#[trigger] ts[i]).protocol == Protocol::Tcp
                    ==> ts[i].public_port is Some) && (all.contains(e) <==> exists|i: int|
                0 <= i < ts.len() && (#[trigger] ts[i]).protocol == Protocol::Tcp
                    && ts[i].public_port == Some(e.0) && ts[i].local_host == e.1 && ts[i].port
                    == e.2),
            Err(name) => exists|i: int|
                0 <= i < ts.len() && (#[trigger] ts[i]).protocol == Protocol::Tcp
                    && ts[i].public_port is None && ts[i].name == name && forall|j: int|
                    0 <= j < i && (#[trigger] ts[j]).protocol == Protocol::Tcp ==> ts[j].public_port
                        is Some,
        },
    decreases ts.len(),
{
    if ts.len() > 0 {
        let rest = ts.drop_last();
        let last = ts.last();
        tcp_tunnels_are_run(rest, e);
        assert(ts[ts.len() - 1] == last);
        match tcp_of(rest) {
            Err(name) => {
                let i = choose|i: int|
                    0 <= i < rest.len() && (#[trigger] rest[i]).protocol == Protocol::Tcp
                        && rest[i].public_port is None && rest[i].name == name && forall|j: int|
                        0 <= j < i && (#[trigger] rest[j]).protocol == Protocol::Tcp
                            ==> rest[j].public_port is Some;
                assert(ts[i] == rest[i]);
                assert forall|j: int| 0 <= j < i && (#[trigger] ts[j]).protocol == Protocol::Tcp
                    implies ts[j].public_port is Some by {
                    assert(rest[j] == ts[j]);
                }
            },
            Ok(r) => {
                assert forall|j: int|
                    0 <= j < rest.len() && (#[trigger] ts[j]).protocol == Protocol::Tcp implies ts[j].public_port
                    is Some by {
                    assert(rest[j] == ts[j]);
                }
                if let Ok(all) = tcp_of(ts) {
                    if all.contains(e) {
                        let k = choose|k: int| 0 <= k < all.len() && all[k] == e;
                        if k < r.len() {
                            assert(r[k] == e);
                            assert(r.contains(e));
                            let i = choose|i: int|
                                0 <= i < rest.len() && (#[trigger] rest[i]).protocol
                                    == Protocol::Tcp && rest[i].public_port == Some(e.0)
                                    && rest[i].local_host == e.1 && rest[i].port == e.2;
                            assert(ts[i] == rest[i]);
                        }
                    }
                    if exists|i: int|
                        0 <= i < ts.len() && (#[trigger] ts[i]).protocol == Protocol::Tcp
                            && ts[i].public_port == Some(e.0) && ts[i].local_host == e.1 && ts[i].port
                            == e.2 {
                        let i = choose|i: int|
                            0 <= i < ts.len() && (#[trigger] ts[i]).protocol == Protocol::Tcp
                                && ts[i].public_port == Some(e.0) && ts[i].local_host == e.1
                                && ts[i].port == e.2;
                        if i < rest.len() {
                            assert(rest[i] == ts[i]);
                            assert(r.contains(e));
                            let k = choose|k: int| 0 <= k < r.len() && r[k] == e;
                            assert(all[k] == e);
                        } else {
                            assert(all[all.len() - 1] == e);
                        }
                    }
                }
            },
        }
    }
}

} // verus!
