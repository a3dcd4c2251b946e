//! The client subcommands: what they decide and what they print.
//!
//! Files, sockets and the terminal belong to the program around this module.
use vstd::prelude::*;

use crate::client::config;
use crate::client::config::{FileConfig, Protocol, TunnelConfig, TunnelView};
use crate::client::control::{OwnedSet, OwnedView};
use crate::client::status::StatusSnapshot;
use crate::client::supervisor::ConnState;
use crate::proto::frames;
use crate::text;

verus! {

/// Relay used when none is named or configured.
pub const DEFAULT_RELAY: &'static str = "ethertunnel.com";

/// The relay to use.
pub open spec fn chosen_relay(arg: Option<Seq<char>>, configured: Seq<char>) -> Seq<char> {
    match arg {
        Some(a) => a,
        None => if configured.len() > 0 {
            configured
        } else {
            "ethertunnel.com"@
        },
    }
}

/// The view of an optional string.
pub open spec fn opt(o: Option<String>) -> Option<Seq<char>> {
    match o {
        Some(s) => Some(s@),
        None => None,
    }
}

/// Resolve the relay to use: an explicit one wins, then a configured one, and
/// then the default.
pub fn resolve_relay(arg: Option<String>, configured: &str) -> (r: String)
    ensures
        r@ == chosen_relay(opt(arg), configured@),
{
    match arg {
        Some(a) => a,
        None => if configured.is_empty() {
            DEFAULT_RELAY.to_owned()
        } else {
            configured.to_owned()
        },
    }
}

/// A login whose relay came from neither the command line nor the configuration
/// tells so.
pub fn used_default(arg: &Option<String>, configured: &str) -> (r: bool)
    ensures
        r == (arg is None && configured@.len() == 0),
{
    arg.is_none() && configured.is_empty()
}

/// A login that was accepted: the first one fixes the configured relay.
pub fn logged_in(cfg: &mut FileConfig, relay: &str) -> (r: bool)
    ensures
        r == (old(cfg).relay@.len() == 0),
        final(cfg).relay@ == (if old(cfg).relay@.len() == 0 {
            relay@
        } else {
            old(cfg).relay@
        }),
        final(cfg).relay_ca == old(cfg).relay_ca,
        final(cfg).tunnels == old(cfg).tunnels,
{
    if cfg.relay.as_str().is_empty() {
        cfg.relay = relay.to_owned();
        true
    } else {
        false
    }
}

/// Tunnels of other names.
pub open spec fn not_named(name: Seq<char>) -> spec_fn(TunnelView) -> bool {
    |t: TunnelView| t.name != name
}

fn copy_tunnel(t: &TunnelConfig) -> (r: TunnelConfig)
    ensures
        r@ == t@,
{
    TunnelConfig {
        name: t.name.clone(),
        port: t.port,
        local_host: t.local_host.clone(),
        protocol: t.protocol,
        hostname: match &t.hostname {
            Some(h) => Some(h.clone()),
            None => None,
        },
        public_port: t.public_port,
    }
}

/// The tunnel that `add` makes: raw TCP if a public port is given.
pub open spec fn added_tunnel(
    name: Seq<char>,
    port: u16,
    hostname: Option<Seq<char>>,
    public_port: Option<u16>,
    local_host: Option<Seq<char>>,
) -> TunnelView {
    TunnelView {
        name,
        port,
        local_host: match local_host {
            Some(h) => h,
            None => "127.0.0.1"@,
        },
        protocol: if public_port is Some {
            Protocol::Tcp
        } else {
            Protocol::Http
        },
        hostname,
        public_port,
    }
}

/// Add a tunnel, in place of any of the same name; the line to print.
pub fn add(
    cfg: &mut FileConfig,
    name: String,
    port: u16,
    hostname: Option<String>,
    tcp_public_port: Option<u16>,
    local_host: Option<String>,
) -> (r: String)
    ensures
        final(cfg).relay == old(cfg).relay,
        final(cfg).relay_ca == old(cfg).relay_ca,
        final(cfg).list() == old(cfg).list().filter(not_named(name@)).push(
            added_tunnel(name@, port, opt(hostname), tcp_public_port, opt(local_host)),
        ),
        r@ == "added tunnel `"@ + name@ + "` -> "@ + (match local_host {
            Some(h) => h@,
            None => "127.0.0.1"@,
        }) + ":"@ + text::decimal(port as nat),
{
    let ghost ts = cfg.list();
    let ghost p = not_named(name@);
    let local = match local_host {
        Some(h) => h,
        None => config::default_local_host(),
    };
    let mut kept: Vec<TunnelConfig> = Vec::new();
    let mut i: usize = 0;
    proof {
        reveal(Seq::filter);
        assert(ts.take(0) =~= Seq::<TunnelView>::empty());
        assert(config::tunnel_views(kept@) =~= ts.take(0).filter(p));
    }
    while i < cfg.tunnels.len()
        invariant
            i <= cfg.tunnels@.len(),
            ts == config::tunnel_views(cfg.tunnels@),
            p == not_named(name@),
            config::tunnel_views(kept@) == ts.take(i as int).filter(p),
        decreases cfg.tunnels@.len() - i,
    {
        let ghost done = kept@;
        proof {
            reveal(Seq::filter);
            assert(ts.take(i + 1).drop_last() =~= ts.take(i as int));
            assert(ts.take(i + 1).last() == cfg.tunnels@[i as int]@);
        }
        if !text::same(cfg.tunnels[i].name.as_str(), name.as_str()) {
            let t = copy_tunnel(&cfg.tunnels[i]);
            kept.push(t);
            assert(config::tunnel_views(kept@) =~= config::tunnel_views(done).push(t@));
        }
        i += 1;
    }
    assert(ts.take(i as int) =~= ts);
    let mut line = text::join3("added tunnel `", name.as_str(), "` -> ");
    line.append(local.as_str());
    line.append(":");
    line.append(text::decimal_u64(port as u64).as_str());
    let ghost done = kept@;
    let t = TunnelConfig {
        name,
        port,
        local_host: local,
        protocol: if tcp_public_port.is_some() {
            Protocol::Tcp
        } else {
            Protocol::Http
        },
        hostname,
        public_port: tcp_public_port,
    };
    kept.push(t);
    assert(config::tunnel_views(kept@) =~= config::tunnel_views(done).push(t@));
    cfg.tunnels = kept;
    line
}

/// Relay and token for a control request, or what is missing.
pub fn relay_creds(cfg: &FileConfig, token: Option<String>) -> (r: Result<
    (String, String),
    String,
>)
    ensures
        match r {
            Ok((relay, t)) => cfg.relay@.len() > 0 && relay@ == cfg.relay@ && token == Some(t),
            Err(e) => if cfg.relay@.len() == 0 {
                e@ == "no relay configured; run `etun login` first"@
            } else {
                token is None && e@ == "not logged in to "@ + cfg.relay@ + "; run `etun login`"@
            },
        },
{
    if cfg.relay.as_str().is_empty() {
        return Err("no relay configured; run `etun login` first".to_owned());
    }
    match token {
        Some(t) => Ok((cfg.relay.clone(), t)),
        None => Err(
            text::join3("not logged in to ", cfg.relay.as_str(), "; run `etun login`"),
        ),
    }
}

/// What a release freed, line by line.
pub open spec fn release_lines(
    o: OwnedView,
    none: Seq<char>,
    host: Seq<char>,
    port: Seq<char>,
) -> Seq<Seq<char>> {
    if o.hostnames.len() == 0 && o.ports.len() == 0 {
        seq![none]
    } else {
        text::prefixed(host, o.hostnames) + text::prefixed_ports(port, o.ports)
    }
}

fn lines_of(o: &OwnedSet, none: &str, host: &str, port: &str) -> (r: Vec<String>)
    ensures
        text::all_of(r@) == release_lines(o@, none@, host@, port@),
{
    let mut out: Vec<String> = Vec::new();
    assert(text::all_of(out@) =~= Seq::<Seq<char>>::empty());
    assert(frames::names(o.hostnames@) =~= text::all_of(o.hostnames@));
    if o.hostnames.len() == 0 && o.tcp_ports.len() == 0 {
        text::push_line(&mut out, none.to_owned());
        assert(text::all_of(out@) =~= seq![none@]);
        return out;
    }
    text::push_prefixed(&mut out, host, &o.hostnames);
    text::push_ports(&mut out, port, &o.tcp_ports);
    assert(text::all_of(out@) =~= text::prefixed(host@, o@.hostnames) + text::prefixed_ports(
        port@,
        o@.ports,
    ));
    out
}

/// What `remove` prints of the release on the relay.
pub fn report_released(freed: &OwnedSet) -> (r: Vec<String>)
    ensures
        text::all_of(r@) == release_lines(
            freed@,
            "relay: nothing to release (the relay did not have you owning it)"@,
            "released on relay: "@,
            "released on relay: tcp port "@,
        ),
{
    lines_of(
        freed,
        "relay: nothing to release (the relay did not have you owning it)",
        "released on relay: ",
        "released on relay: tcp port ",
    )
}

/// What `release` prints.
pub fn release_report(freed: &OwnedSet, target: &str) -> (r: Vec<String>)
    ensures
        text::all_of(r@) == release_lines(
            freed@,
            "nothing released — the relay does not have you owning `"@ + target@ + "`"@,
            "released "@,
            "released tcp port "@,
        ),
{
    let none = text::join3(
        "nothing released — the relay does not have you owning `",
        target,
        "`",
    );
    lines_of(freed, none.as_str(), "released ", "released tcp port ")
}

/// What a configured tunnel is on the relay.
pub open spec fn resource_of(relay: Seq<char>, t: TunnelView) -> (Seq<Seq<char>>, Seq<u16>) {
    match t.protocol {
        Protocol::Http => (seq![config::public_name(relay, t)], Seq::empty()),
        Protocol::Tcp => (
            Seq::empty(),
            match t.public_port {
                Some(p) => seq![p],
                None => Seq::empty(),
            },
        ),
    }
}

/// What a configured tunnel is on the relay.
pub fn tunnel_resource(cfg: &FileConfig, t: &TunnelConfig) -> (r: (Vec<String>, Vec<u16>))
    ensures
        (frames::names(r.0@), r.1@) == resource_of(cfg.relay@, t@),
{
    let mut hosts: Vec<String> = Vec::new();
    let mut ports: Vec<u16> = Vec::new();
    match t.protocol {
        Protocol::Http => {
            hosts.push(cfg.fqdn(t));
        },
        Protocol::Tcp => {
            match t.public_port {
                Some(p) => {
                    ports.push(p);
                },
                None => {},
            }
        },
    }
    assert(frames::names(hosts@) =~= resource_of(cfg.relay@, t@).0);
    assert(ports@ =~= resource_of(cfg.relay@, t@).1);
    (hosts, ports)
}

/// Width of the name column of a list.
pub const NAME_WIDTH: usize = 14;

/// The line of a tunnel.
pub open spec fn tunnel_line(relay: Seq<char>, t: TunnelView) -> Seq<char> {
    text::padded(t.name, NAME_WIDTH as nat) + (match t.protocol {
        Protocol::Http => " https://"@ + config::public_name(relay, t),
        Protocol::Tcp => " tcp "@ + relay + ":"@ + text::decimal(
            match t.public_port {
                Some(p) => p as nat,
                None => 0,
            },
        ),
    }) + "  ->  "@ + t.local_host + ":"@ + text::decimal(t.port as nat)
}

/// The lines of a list of tunnels.
pub open spec fn list_lines(relay: Seq<char>, ts: Seq<TunnelView>) -> Seq<Seq<char>> {
    if ts.len() == 0 {
        seq!["no tunnels configured (use `etun add`)"@]
    } else {
        ts.map_values(|t: TunnelView| tunnel_line(relay, t))
    }
}

fn line_of(cfg: &FileConfig, t: &TunnelConfig) -> (r: String)
    ensures
        r@ == tunnel_line(cfg.relay@, t@),
{
    let middle = match t.protocol {
        Protocol::Http => text::join2(" https://", cfg.fqdn(t).as_str()),
        Protocol::Tcp => {
            let port: u16 = match t.public_port {
                Some(p) => p,
                None => 0,
            };
            let mut m = text::join3(" tcp ", cfg.relay.as_str(), ":");
            m.append(text::decimal_u64(port as u64).as_str());
            m
        },
    };
    let mut s = text::join3(
        text::pad(t.name.as_str(), NAME_WIDTH).as_str(),
        middle.as_str(),
        "  ->  ",
    );
    s.append(t.local_host.as_str());
    s.append(":");
    s.append(text::decimal_u64(t.port as u64).as_str());
    s
}

/// What `list` prints of the configuration.
pub fn list(cfg: &FileConfig) -> (r: Vec<String>)
    ensures
        text::all_of(r@) == list_lines(cfg.relay@, cfg.list()),
{
    let mut out: Vec<String> = Vec::new();
    assert(text::all_of(out@) =~= Seq::<Seq<char>>::empty());
    if cfg.tunnels.len() == 0 {
        text::push_line(&mut out, "no tunnels configured (use `etun add`)".to_owned());
        assert(text::all_of(out@) =~= seq!["no tunnels configured (use `etun add`)"@]);
        return out;
    }
    let ghost target = list_lines(cfg.relay@, cfg.list());
    let mut i: usize = 0;
    assert(text::all_of(out@) =~= target.take(0));
    while i < cfg.tunnels.len()
        invariant
            i <= cfg.tunnels@.len(),
            cfg.tunnels@.len() > 0,
            target == list_lines(cfg.relay@, cfg.list()),
            text::all_of(out@) == target.take(i as int),
        decreases cfg.tunnels@.len() - i,
    {
        text::push_line(&mut out, line_of(cfg, &cfg.tunnels[i]));
        i += 1;
        assert(text::all_of(out@) =~= target.take(i as int));
    }
    assert(target.take(i as int) =~= target);
    out
}

/// A hostname is one of a configured HTTP tunnel.
pub open spec fn host_configured(relay: Seq<char>, ts: Seq<TunnelView>, h: Seq<char>) -> bool {
    exists|i: int|
        0 <= i < ts.len() && (#[trigger] ts[i]).protocol == Protocol::Http && config::public_name(
            relay,
            ts[i],
        ) == h
}

/// A port is one of a configured TCP tunnel.
pub open spec fn port_configured(ts: Seq<TunnelView>, p: u16) -> bool {
    exists|i: int|
        0 <= i < ts.len() && (#[trigger] ts[i]).protocol == Protocol::Tcp && ts[i].public_port
            == Some(p)
}

fn has_host(cfg: &FileConfig, h: &str) -> (r: bool)
    ensures
        r == host_configured(cfg.relay@, cfg.list(), h@),
{
    let ghost ts = cfg.list();
    let mut i: usize = 0;
    while i < cfg.tunnels.len()
        invariant
            i <= cfg.tunnels@.len(),
            ts == cfg.list(),
            forall|j: int|
                0 <= j < i ==> !((#[trigger] ts[j]).protocol == Protocol::Http
                    && config::public_name(cfg.relay@, ts[j]) == h@),
        decreases cfg.tunnels@.len() - i,
    {
        let t = &cfg.tunnels[i];
        assert(ts[i as int] == t@);
        match t.protocol {
            Protocol::Http => {
                if text::same(cfg.fqdn(t).as_str(), h) {
                    assert(ts[i as int].protocol == Protocol::Http);
                    return true;
                }
            },
            Protocol::Tcp => {},
        }
        i += 1;
    }
    false
}

fn has_port(cfg: &FileConfig, p: u16) -> (r: bool)
    ensures
        r == port_configured(cfg.list(), p),
{
    let ghost ts = cfg.list();
    let mut i: usize = 0;
    while i < cfg.tunnels.len()
        invariant
            i <= cfg.tunnels@.len(),
            ts == cfg.list(),
            forall|j: int|
                0 <= j < i ==> !((#[trigger] ts[j]).protocol == Protocol::Tcp && ts[j].public_port
                    == Some(p)),
        decreases cfg.tunnels@.len() - i,
    {
        let t = &cfg.tunnels[i];
        assert(ts[i as int] == t@);
        match t.protocol {
            Protocol::Tcp => match t.public_port {
                Some(q) => {
                    if q == p {
                        assert(ts[i as int].protocol == Protocol::Tcp);
                        return true;
                    }
                },
                None => {},
            },
            Protocol::Http => {},
        }
        i += 1;
    }
    false
}

/// How an owned resource is marked.
pub open spec fn mark(configured: bool) -> Seq<char> {
    if configured {
        "  (in config)"@
    } else {
        "  (orphan — not in local config)"@
    }
}

/// The line of an owned hostname.
pub open spec fn host_line(relay: Seq<char>, ts: Seq<TunnelView>) -> spec_fn(Seq<char>) -> Seq<
    char,
> {
    |h: Seq<char>| "  "@ + h + mark(host_configured(relay, ts, h))
}

/// The line of an owned port.
pub open spec fn port_line(ts: Seq<TunnelView>) -> spec_fn(u16) -> Seq<char> {
    |p: u16| "  tcp "@ + text::decimal(p as nat) + mark(port_configured(ts, p))
}

/// Something is owned on the relay and not configured here.
pub open spec fn has_orphan(relay: Seq<char>, ts: Seq<TunnelView>, o: OwnedView) -> bool {
    ||| exists|i: int|
        0 <= i < o.hostnames.len() && !host_configured(relay, ts, #[trigger] o.hostnames[i])
    ||| exists|i: int| 0 <= i < o.ports.len() && !port_configured(ts, #[trigger] o.ports[i])
}

/// The line on how much of the plan is used, where a plan applies.
pub open spec fn usage_lines(o: OwnedView) -> Seq<Seq<char>> {
    match o.max_tunnels {
        Some(max) => seq![
            "Plan usage: "@ + text::decimal(o.hostnames.len() + o.ports.len()) + " of "@
                + text::decimal_int(max as int) + " tunnels"@,
        ],
        None => seq![],
    }
}

/// What `list` prints of the relay's owned set.
pub open spec fn reconcile_lines(relay: Seq<char>, ts: Seq<TunnelView>, o: OwnedView) -> Seq<
    Seq<char>,
> {
    if o.hostnames.len() == 0 && o.ports.len() == 0 {
        seq![""@, "Relay owns nothing for this account."@] + usage_lines(o)
    } else {
        let body = seq![""@, "Relay-owned (authoritative):"@] + o.hostnames.map_values(
            host_line(relay, ts),
        ) + o.ports.map_values(port_line(ts)) + usage_lines(o);
        if has_orphan(relay, ts, o) {
            body + seq![
                ""@,
                "Orphans still count against your plan's tunnel limit. Free one with `etun release <name-or-label>`."@,
            ]
        } else {
            body
        }
    }
}

/// Add the line on how much of the plan is used.
fn push_usage(out: &mut Vec<String>, owned: &OwnedSet, used: usize)
    requires
        used == owned@.hostnames.len() + owned@.ports.len(),
    ensures
        text::all_of(final(out)@) == text::all_of(old(out)@) + usage_lines(owned@),
{
    let ghost before = text::all_of(out@);
    match owned.max_tunnels {
        Some(max) => {
            let mut s = text::join3(
                "Plan usage: ",
                text::decimal_u64(used as u64).as_str(),
                " of ",
            );
            s.append(text::decimal_i64(max).as_str());
            s.append(" tunnels");
            text::push_line(out, s);
        },
        None => {},
    }
    assert(text::all_of(out@) =~= before + usage_lines(owned@));
}

/// Compare what the relay owns for the account with the configuration, mark
/// what is not configured, and tell how much of the plan is used.
pub fn print_remote_reconcile(cfg: &FileConfig, owned: &OwnedSet) -> (r: Vec<String>)
    ensures
        text::all_of(r@) == reconcile_lines(cfg.relay@, cfg.list(), owned@),
{
    let ghost relay = cfg.relay@;
    let ghost ts = cfg.list();
    let ghost hosts = owned@.hostnames;
    let ghost ports = owned@.ports;
    let mut out: Vec<String> = Vec::new();
    assert(text::all_of(out@) =~= Seq::<Seq<char>>::empty());
    text::push_line(&mut out, "".to_owned());
    if owned.hostnames.len() == 0 && owned.tcp_ports.len() == 0 {
        text::push_line(&mut out, "Relay owns nothing for this account.".to_owned());
        assert(text::all_of(out@) =~= seq![""@, "Relay owns nothing for this account."@]);
        push_usage(&mut out, owned, 0);
        return out;
    }
    text::push_line(&mut out, "Relay-owned (authoritative):".to_owned());
    let ghost head = seq![""@, "Relay-owned (authoritative):"@];
    let ghost hl = hosts.map_values(host_line(relay, ts));
    let ghost pl = ports.map_values(port_line(ts));
    let mut orphans: bool = false;
    let mut i: usize = 0;
    assert(text::all_of(out@) =~= head + hl.take(0));
    while i < owned.hostnames.len()
        invariant
            i <= owned.hostnames@.len(),
            relay == cfg.relay@,
            ts == cfg.list(),
            hosts == frames::names(owned.hostnames@),
            hl == hosts.map_values(host_line(relay, ts)),
            text::all_of(out@) == head + hl.take(i as int),
            orphans <==> exists|k: int|
                0 <= k < i && !host_configured(relay, ts, #[trigger] hosts[k]),
        decreases owned.hostnames@.len() - i,
    {
        let h = owned.hostnames[i].as_str();
        assert(hosts[i as int] == h@);
        let known = has_host(cfg, h);
        let line = if known {
            text::join3("  ", h, "  (in config)")
        } else {
            text::join3("  ", h, "  (orphan — not in local config)")
        };
        if !known {
            orphans = true;
        }
        assert(line@ == hl[i as int]);
        text::push_line(&mut out, line);
        i += 1;
        assert(text::all_of(out@) =~= head + hl.take(i as int));
    }
    assert(hl.take(i as int) =~= hl);
    let ghost host_orphan = orphans;
    let mut j: usize = 0;
    assert(text::all_of(out@) =~= head + hl + pl.take(0));
    while j < owned.tcp_ports.len()
        invariant
            j <= owned.tcp_ports@.len(),
            ts == cfg.list(),
            ports == owned.tcp_ports@,
            pl == ports.map_values(port_line(ts)),
            text::all_of(out@) == head + hl + pl.take(j as int),
            orphans <==> host_orphan || exists|k: int|
                0 <= k < j && !port_configured(ts, #[trigger] ports[k]),
        decreases owned.tcp_ports@.len() - j,
    {
        let p: u16 = owned.tcp_ports[j];
        assert(ports[j as int] == p);
        let known = has_port(cfg, p);
        let n = text::decimal_u64(p as u64);
        let line = if known {
            text::join3("  tcp ", n.as_str(), "  (in config)")
        } else {
            text::join3("  tcp ", n.as_str(), "  (orphan — not in local config)")
        };
        if !known {
            orphans = true;
        }
        assert(line@ == pl[j as int]);
        text::push_line(&mut out, line);
        j += 1;
        assert(text::all_of(out@) =~= head + hl + pl.take(j as int));
    }
    assert(pl.take(j as int) =~= pl);
    assert(orphans == has_orphan(relay, ts, owned@));
    assert(text::all_of(out@).len() == out@.len());
    let used: usize = out.len() - 2;
    push_usage(&mut out, owned, used);
    let ghost body = head + hl + pl + usage_lines(owned@);
    if orphans {
        text::push_line(&mut out, "".to_owned());
        text::push_line(
            &mut out,
            "Orphans still count against your plan's tunnel limit. Free one with `etun release <name-or-label>`.".to_owned(),
        );
        assert(text::all_of(out@) =~= body + seq![
            ""@,
            "Orphans still count against your plan's tunnel limit. Free one with `etun release <name-or-label>`."@,
        ]);
    }
    out
}

/// Remove a tunnel from the configuration; what it is on the relay, to be
/// released there.
pub fn remove(cfg: &mut FileConfig, name: &str) -> (r: Result<(Vec<String>, Vec<u16>), String>)
    ensures
        final(cfg).relay == old(cfg).relay,
        final(cfg).relay_ca == old(cfg).relay_ca,
        match r {
            Ok((hosts, ports)) => {
                let at = config::tunnel_at(old(cfg).list(), name@);
                &&& at < old(cfg).list().len()
                &&& old(cfg).list()[at].name == name@
                &&& final(cfg).list() == old(cfg).list().remove(at)
                &&& (frames::names(hosts@), ports@) == resource_of(
                    old(cfg).relay@,
                    old(cfg).list()[at],
                )
            },
            Err(e) => {
                &&& final(cfg).list() == old(cfg).list()
                &&& forall|i: int|
                    0 <= i < old(cfg).list().len() ==> (#[trigger] old(cfg).list()[i]).name
                        != name@
                &&& e@ == "no such tunnel: "@ + name@
            },
        },
{
    match cfg.position(name) {
        None => {
            proof {
                assert forall|i: int| 0 <= i < cfg.list().len() implies (
                #[trigger] cfg.list()[i]).name != name@ by {
                    assert(cfg.tunnels@[i].name@ != name@);
                }
            }
            Err(text::join2("no such tunnel: ", name))
        },
        Some(i) => {
            let found = tunnel_resource(cfg, &cfg.tunnels[i]);
            let ghost before = cfg.tunnels@;
            let _ = cfg.tunnels.remove(i);
            assert(cfg.list() =~= config::tunnel_views(before).remove(i as int));
            Ok(found)
        },
    }
}

/// What `release` gives up: the resource of a configured tunnel, or else a bare
/// label below the relay, or a whole hostname.
pub open spec fn release_of(relay: Seq<char>, ts: Seq<TunnelView>, target: Seq<char>) -> (
    Seq<Seq<char>>,
    Seq<u16>,
) {
    let at = config::tunnel_at(ts, target);
    if at < ts.len() {
        resource_of(relay, ts[at])
    } else if target.contains('.') {
        (seq![target], Seq::empty())
    } else {
        (seq![target + "."@ + relay], Seq::empty())
    }
}

/// What `release` gives up.
pub fn release_target(cfg: &FileConfig, target: &str) -> (r: (Vec<String>, Vec<u16>))
    ensures
        (frames::names(r.0@), r.1@) == release_of(cfg.relay@, cfg.list(), target@),
{
    match cfg.position(target) {
        Some(i) => tunnel_resource(cfg, &cfg.tunnels[i]),
        None => {
            let host = if text::has_char(target, '.') {
                target.to_owned()
            } else {
                text::join3(target, ".", cfg.relay.as_str())
            };
            let mut hosts: Vec<String> = Vec::new();
            hosts.push(host);
            assert(frames::names(hosts@) =~= release_of(cfg.relay@, cfg.list(), target@).0);
            let ports: Vec<u16> = Vec::new();
            assert(ports@ =~= Seq::<u16>::empty());
            (hosts, ports)
        },
    }
}

/// What `status` prints.
pub open spec fn status_lines(s: Option<StatusSnapshot>) -> Seq<Seq<char>> {
    match s {
        None => seq!["no running daemon (status file absent)"@],
        Some(s) => seq![
            "state:      "@ + s.state@,
            "relay:      "@ + s.relay@,
            "pid:        "@ + text::decimal(s.pid as nat),
            "reconnects: "@ + text::decimal(s.reconnects as nat),
        ] + text::prefixed("  https://"@, text::all_of(s.granted_hostnames@))
            + text::prefixed_ports("  tcp "@ + s.relay@ + ":"@, s.granted_ports@),
    }
}

/// What `status` prints of the last snapshot.
pub fn status(snapshot: &Option<StatusSnapshot>) -> (r: Vec<String>)
    ensures
        text::all_of(r@) == status_lines(*snapshot),
{
    let mut out: Vec<String> = Vec::new();
    assert(text::all_of(out@) =~= Seq::<Seq<char>>::empty());
    match snapshot {
        None => {
            text::push_line(&mut out, "no running daemon (status file absent)".to_owned());
        },
        Some(s) => {
            text::push_line(&mut out, text::join2("state:      ", s.state.as_str()));
            text::push_line(&mut out, text::join2("relay:      ", s.relay.as_str()));
            text::push_line(
                &mut out,
                text::join2("pid:        ", text::decimal_u64(s.pid as u64).as_str()),
            );
            text::push_line(
                &mut out,
                text::join2("reconnects: ", text::decimal_u64(s.reconnects as u64).as_str()),
            );
            text::push_prefixed(&mut out, "  https://", &s.granted_hostnames);
            let prefix = text::join3("  tcp ", s.relay.as_str(), ":");
            text::push_ports(&mut out, prefix.as_str(), &s.granted_ports);
        },
    }
    assert(text::all_of(out@) =~= status_lines(*snapshot));
    out
}

/// What a running daemon prints when its state changes.
pub struct Announcement {
    pub lines: Vec<String>,
    /// The lines are an error.
    pub error: bool,
}

/// Announce a state: the tunnels when the daemon has just connected, and every
/// refusal of the token. `last` remembers whether it was connected before.
pub fn announce(s: &StatusSnapshot, last: &mut ConnState) -> (r: Announcement)
    ensures
        if s.state@ == "connected"@ && *old(last) != ConnState::Connected {
            &&& *final(last) == ConnState::Connected
            &&& !r.error
            &&& text::all_of(r.lines@) == text::prefixed(
                "  tunnel up:  https://"@,
                text::all_of(s.granted_hostnames@),
            ) + text::prefixed_ports(
                "  tunnel up:  tcp "@ + s.relay@ + ":"@,
                s.granted_ports@,
            )
        } else if s.state@ == "auth_failed"@ {
            &&& *final(last) == *old(last)
            &&& r.error
            &&& text::all_of(r.lines@) == seq![
                "  authentication failed; check your token (`etun login`)"@,
            ]
        } else {
            &&& *final(last) == *old(last)
            &&& !r.error
            &&& r.lines@.len() == 0
        },
{
    let mut out: Vec<String> = Vec::new();
    assert(text::all_of(out@) =~= Seq::<Seq<char>>::empty());
    let was = match last {
        ConnState::Connected => true,
        _ => false,
    };
    if text::same(s.state.as_str(), "connected") && !was {
        text::push_prefixed(&mut out, "  tunnel up:  https://", &s.granted_hostnames);
        let prefix = text::join3("  tunnel up:  tcp ", s.relay.as_str(), ":");
        text::push_ports(&mut out, prefix.as_str(), &s.granted_ports);
        assert(text::all_of(out@) =~= text::prefixed(
            "  tunnel up:  https://"@,
            text::all_of(s.granted_hostnames@),
        ) + text::prefixed_ports("  tunnel up:  tcp "@ + s.relay@ + ":"@, s.granted_ports@));
        *last = ConnState::Connected;
        return Announcement { lines: out, error: false };
    }
    if text::same(s.state.as_str(), "auth_failed") {
        text::push_line(
            &mut out,
            "  authentication failed; check your token (`etun login`)".to_owned(),
        );
        assert(text::all_of(out@) =~= seq![
            "  authentication failed; check your token (`etun login`)"@,
        ]);
        return Announcement { lines: out, error: true };
    }
    Announcement { lines: out, error: false }
}

/// After an `add`, the name finds exactly the tunnel that was added.
pub proof fn added_tunnel_is_found(ts: Seq<TunnelView>, t: TunnelView)
    ensures
        ({
            let after = ts.filter(not_named(t.name)).push(t);
            &&& config::tunnel_at(after, t.name) == after.len() - 1
            &&& after[config::tunnel_at(after, t.name)] == t
        }),
{
    let kept = ts.filter(not_named(t.name));
    lemma_kept(ts, t.name);
    lemma_not_found(kept, t);
}

proof fn lemma_kept(ts: Seq<TunnelView>, name: Seq<char>)
    ensures
        forall|i: int|
            0 <= i < ts.filter(not_named(name)).len() ==> (#[trigger] ts.filter(
                not_named(name),
            )[i]).name != name,
    decreases ts.len(),
{
    reveal(Seq::filter);
    if ts.len() > 0 {
        lemma_kept(ts.drop_last(), name);
    }
}

proof fn lemma_not_found(kept: Seq<TunnelView>, t: TunnelView)
    requires
        forall|i: int| 0 <= i < kept.len() ==> (#[trigger] kept[i]).name != t.name,
    ensures
        config::tunnel_at(kept.push(t), t.name) == kept.len(),
    decreases kept.len(),
{
    if kept.len() > 0 {
        assert(kept.push(t).drop_first() =~= kept.drop_first().push(t));
        assert forall|i: int| 0 <= i < kept.drop_first().len() implies (
        #[trigger] kept.drop_first()[i]).name != t.name by {
            assert(kept[i + 1].name != t.name);
        }
        lemma_not_found(kept.drop_first(), t);
    }
}

/// A tunnel that was added carries everything it was added with: its name, its
/// local port and host (the loopback address if none is given), its hostname
/// label and its public port, which makes it a TCP tunnel. So it is found under
/// its name, published under its label, or else its name, below the relay, and
/// released as just that.
pub proof fn added_tunnel_is_as_asked(
    relay: Seq<char>,
    ts: Seq<TunnelView>,
    name: Seq<char>,
    port: u16,
    hostname: Option<Seq<char>>,
    public_port: Option<u16>,
    local_host: Option<Seq<char>>,
)
    ensures
        ({
            let after = ts.filter(not_named(name)).push(
                added_tunnel(name, port, hostname, public_port, local_host),
            );
            let at = config::tunnel_at(after, name);
            let t = after[at];
            let label = if hostname is Some {
                hostname->0
            } else {
                name
            };
            &&& 0 <= at < after.len()
            &&& t.name == name
            &&& t.port == port
            &&& t.hostname == hostname
            &&& t.public_port == public_port
            &&& t.local_host == (if local_host is Some {
                local_host->0
            } else {
                "127.0.0.1"@
            })
            &&& t.protocol == Protocol::Tcp <==> public_port is Some
            &&& config::public_name(relay, t) == label + "."@ + relay
            &&& public_port is None ==> release_of(relay, after, name).0 == seq![
                label + "."@ + relay,
            ] && release_of(relay, after, name).1.len() == 0
            &&& public_port matches Some(p) ==> release_of(relay, after, name).1 == seq![p]
                && release_of(relay, after, name).0.len() == 0
        }),
{
    added_tunnel_is_found(ts, added_tunnel(name, port, hostname, public_port, local_host));
}

/// Adding a tunnel replaces what had its name and leaves every other tunnel as
/// it was, where it was.
pub proof fn adding_spares_other_tunnels(ts: Seq<TunnelView>, name: Seq<char>, t: TunnelView)
    ensures
        ts.filter(not_named(name)).contains(t) <==> ts.contains(t) && t.name != name,
        (forall|i: int| 0 <= i < ts.len() ==> (#[trigger] ts[i]).name != name) ==> ts.filter(
            not_named(name),
        ) == ts,
    decreases ts.len(),
{
    reveal(Seq::filter);
    let kept = ts.filter(not_named(name));
    if ts.len() > 0 {
        let rest = ts.drop_last();
        let f = rest.filter(not_named(name));
        adding_spares_other_tunnels(rest, name, t);
        if ts.contains(t) {
            let k = choose|k: int| 0 <= k < ts.len() && ts[k] == t;
            if k < rest.len() {
                assert(rest[k] == t);
            }
        }
        if rest.contains(t) {
            let k = choose|k: int| 0 <= k < rest.len() && rest[k] == t;
            assert(ts[k] == t);
        }
        assert(ts[ts.len() - 1] == ts.last());
        if kept.contains(t) {
            let k = choose|k: int| 0 <= k < kept.len() && kept[k] == t;
            if k < f.len() {
                assert(f[k] == t);
            }
        }
        if f.contains(t) {
            let k = choose|k: int| 0 <= k < f.len() && f[k] == t;
            assert(kept[k] == t);
        }
        if ts.last().name != name {
            assert(kept[kept.len() - 1] == ts.last());
        }
        if forall|i: int| 0 <= i < ts.len() ==> (#[trigger] ts[i]).name != name {
            assert forall|i: int| 0 <= i < rest.len() implies (#[trigger] rest[i]).name != name by {
                assert(ts[i].name != name);
            }
            assert(kept =~= ts);
        }
    } else {
        assert(kept =~= ts);
    }
}

/// The daemon that runs the configuration after an `add` serves the added
/// tunnel: an HTTP tunnel under its public name, a TCP tunnel on its public
/// port, to the local service that was named.
pub proof fn added_tunnel_is_run(
    relay: Seq<char>,
    ts: Seq<TunnelView>,
    name: Seq<char>,
    port: u16,
    hostname: Option<Seq<char>>,
    public_port: Option<u16>,
    local_host: Seq<char>,
)
    ensures
        ({
            let after = ts.filter(not_named(name)).push(
                added_tunnel(name, port, hostname, public_port, Some(local_host)),
            );
            let label = if hostname is Some {
                hostname->0
            } else {
                name
            };
            &&& public_port is None ==> config::http_of(relay, after).contains(
                (label + "."@ + relay, local_host, port),
            )
            &&& public_port matches Some(p) ==> match config::tcp_of(after) {
                Ok(all) => all.contains((p, local_host, port)),
                Err(other) => other != name,
            }
        }),
{
    let kept = ts.filter(not_named(name));
    let t = added_tunnel(name, port, hostname, public_port, Some(local_host));
    let after = kept.push(t);
    let n = kept.len() as int;
    assert(after[n] == t);
    if let Some(p) = public_port {
        config::tcp_tunnels_are_run(after, (p, local_host, port));
        if let Err(other) = config::tcp_of(after) {
            lemma_kept(ts, name);
            let i = choose|i: int|
                0 <= i < after.len() && (#[trigger] after[i]).protocol == Protocol::Tcp
                    && after[i].public_port is None && after[i].name == other && forall|j: int|
                    0 <= j < i && (#[trigger] after[j]).protocol == Protocol::Tcp
                        ==> after[j].public_port is Some;
            assert(i < n);
            assert(after[i] == kept[i]);
        }
    } else {
        let label = if hostname is Some {
            hostname->0
        } else {
            name
        };
        config::http_tunnels_are_run(relay, after, (label + "."@ + relay, local_host, port));
    }
}

/// The relay a command talks to: the one named, else the configured one, else
/// the public one.
pub proof fn named_relay_comes_first(arg: Option<Seq<char>>, configured: Seq<char>)
    ensures
        arg matches Some(a) ==> chosen_relay(arg, configured) == a,
        arg is None && configured.len() > 0 ==> chosen_relay(arg, configured) == configured,
        arg is None && configured.len() == 0 ==> chosen_relay(arg, configured) == "ethertunnel.com"@,
{
}

/// What a tunnel takes on the relay is its public name, or its public port.
pub proof fn tunnel_takes_one_resource(relay: Seq<char>, t: TunnelView)
    ensures
        t.protocol == Protocol::Http ==> resource_of(relay, t).0 == seq![
            config::public_name(relay, t),
        ] && resource_of(relay, t).1.len() == 0,
        t.protocol == Protocol::Tcp ==> resource_of(relay, t).0.len() == 0 && resource_of(relay, t).1
            == (if t.public_port is Some {
            seq![t.public_port->0]
        } else {
            seq![]
        }),
{
}

/// What a release names: a configured tunnel by its name, a full hostname as it
/// stands, and anything else as a label below the relay.
pub proof fn release_names_its_target(relay: Seq<char>, ts: Seq<TunnelView>, target: Seq<char>, i: int)
    requires
        0 <= i <= ts.len(),
        forall|j: int| 0 <= j < i ==> (#[trigger] ts[j]).name != target,
        i < ts.len() ==> ts[i].name == target,
    ensures
        i < ts.len() ==> release_of(relay, ts, target) == resource_of(relay, ts[i]),
        i == ts.len() ==> release_of(relay, ts, target).1.len() == 0 && release_of(
            relay,
            ts,
            target,
        ).0 == seq![
            if target.contains('.') {
                target
            } else {
                target + "."@ + relay
            },
        ],
{
    config::first_tunnel_so_named(ts, target, i);
}

/// What was released is reported item by item, hostnames first; if nothing was,
/// one line says so.
pub proof fn releases_are_reported(
    o: OwnedView,
    none: Seq<char>,
    host: Seq<char>,
    port: Seq<char>,
    i: int,
)
    ensures
        ({
            let lines = release_lines(o, none, host, port);
            let h = o.hostnames.len();
            &&& o.hostnames.len() + o.ports.len() == 0 ==> lines == seq![none]
            &&& o.hostnames.len() + o.ports.len() > 0 ==> lines.len() == o.hostnames.len()
                + o.ports.len() && (0 <= i < h ==> lines[i] == host + o.hostnames[i]) && (h <= i
                < lines.len() ==> lines[i] == port + text::decimal(o.ports[i - h] as nat))
        }),
{
}

/// The list has a line for each tunnel, in order: its name, where it is
/// published and where it leads.
pub proof fn list_shows_every_tunnel(relay: Seq<char>, ts: Seq<TunnelView>, i: int)
    requires
        0 <= i < ts.len(),
    ensures
        list_lines(relay, ts).len() == ts.len(),
        ({
            let t = ts[i];
            let line = list_lines(relay, ts)[i];
            let head = text::padded(t.name, 14);
            let tail = "  ->  "@ + t.local_host + ":"@ + text::decimal(t.port as nat);
            &&& head.is_prefix_of(line)
            &&& tail.is_suffix_of(line)
            &&& t.protocol == Protocol::Http ==> line == head + " https://"@ + config::public_name(
                relay,
                t,
            ) + tail
            &&& t.protocol == Protocol::Tcp && t.public_port is Some ==> line == head + " tcp "@
                + relay + ":"@ + text::decimal(t.public_port->0 as nat) + tail
        }),
{
    let t = ts[i];
    let line = list_lines(relay, ts)[i];
    let head = text::padded(t.name, 14);
    let tail = "  ->  "@ + t.local_host + ":"@ + text::decimal(t.port as nat);
    assert(line == tunnel_line(relay, t));
    if t.protocol == Protocol::Http {
        assert(line =~= head + " https://"@ + config::public_name(relay, t) + tail);
    } else {
        let p = if t.public_port is Some {
            t.public_port->0 as nat
        } else {
            0
        };
        assert(line =~= head + " tcp "@ + relay + ":"@ + text::decimal(p) + tail);
    }
    assert(line.subrange(0, head.len() as int) =~= head);
    assert(line.subrange(line.len() - tail.len(), line.len() as int) =~= tail);
}

/// What the relay holds for the account is shown item by item, and marked as an
/// orphan exactly where no configured tunnel takes it. The advice on orphans
/// comes exactly if there is one.
pub proof fn orphans_are_pointed_out(relay: Seq<char>, ts: Seq<TunnelView>, o: OwnedView, i: int)
    requires
        o.hostnames.len() + o.ports.len() > 0,
    ensures
        ({
            let lines = reconcile_lines(relay, ts, o);
            let h = o.hostnames.len();
            let n = o.hostnames.len() + o.ports.len();
            let usage = if o.max_tunnels is Some {
                1int
            } else {
                0int
            };
            &&& 0 <= i < h ==> lines[2 + i] == "  "@ + o.hostnames[i] + (if host_taken(
                relay,
                ts,
                o.hostnames[i],
            ) {
                "  (in config)"@
            } else {
                "  (orphan — not in local config)"@
            })
            &&& h <= i < n ==> lines[2 + i] == "  tcp "@ + text::decimal(o.ports[i - h] as nat) + (
            if port_taken(relay, ts, o.ports[i - h]) {
                "  (in config)"@
            } else {
                "  (orphan — not in local config)"@
            })
            &&& o.max_tunnels matches Some(m) ==> lines[(2 + n) as int] == "Plan usage: "@ + text::decimal(n)
                + " of "@ + text::decimal_int(m as int) + " tunnels"@
            &&& lines.len() == 2 + n + usage + (if has_orphan(relay, ts, o) {
                2int
            } else {
                0int
            })
        }),
{
    let h = o.hostnames.len();
    if 0 <= i < h {
        lemma_host_taken(relay, ts, o.hostnames[i]);
        assert(o.hostnames.map_values(host_line(relay, ts))[i] == host_line(relay, ts)(
            o.hostnames[i],
        ));
    }
    if h <= i < o.hostnames.len() + o.ports.len() {
        lemma_port_taken(relay, ts, o.ports[i - h]);
        assert(o.ports.map_values(port_line(ts))[i - h] == port_line(ts)(o.ports[i - h]));
    }
}

proof fn lemma_host_taken(relay: Seq<char>, ts: Seq<TunnelView>, h: Seq<char>)
    ensures
        host_configured(relay, ts, h) == host_taken(relay, ts, h),
{
    if host_configured(relay, ts, h) {
        let k = choose|k: int|
            0 <= k < ts.len() && (#[trigger] ts[k]).protocol == Protocol::Http
                && config::public_name(relay, ts[k]) == h;
        assert(resource_of(relay, ts[k]).0[0] == h);
    }
    if exists|k: int| 0 <= k < ts.len() && resource_of(relay, #[trigger] ts[k]).0.contains(h) {
        let k = choose|k: int|
            0 <= k < ts.len() && resource_of(relay, #[trigger] ts[k]).0.contains(h);
        assert(ts[k].protocol == Protocol::Http);
    }
}

proof fn lemma_port_taken(relay: Seq<char>, ts: Seq<TunnelView>, p: u16)
    ensures
        port_configured(ts, p) == port_taken(relay, ts, p),
{
    if port_configured(ts, p) {
        let k = choose|k: int|
            0 <= k < ts.len() && (#[trigger] ts[k]).protocol == Protocol::Tcp && ts[k].public_port
                == Some(p);
        assert(resource_of(relay, ts[k]).1[0] == p);
    }
    if exists|k: int| 0 <= k < ts.len() && resource_of(relay, #[trigger] ts[k]).1.contains(p) {
        let k = choose|k: int|
            0 <= k < ts.len() && resource_of(relay, #[trigger] ts[k]).1.contains(p);
        assert(ts[k].protocol == Protocol::Tcp);
    }
}

/// Some configured tunnel takes this hostname on the relay.
pub open spec fn host_taken(relay: Seq<char>, ts: Seq<TunnelView>, h: Seq<char>) -> bool {
    exists|k: int| 0 <= k < ts.len() && resource_of(relay, #[trigger] ts[k]).0.contains(h)
}

/// Some configured tunnel takes this port on the relay.
pub open spec fn port_taken(relay: Seq<char>, ts: Seq<TunnelView>, p: u16) -> bool {
    exists|k: int| 0 <= k < ts.len() && resource_of(relay, #[trigger] ts[k]).1.contains(p)
}

/// There is an orphan exactly if the relay holds something for the account that
/// no configured tunnel takes.
pub proof fn orphan_is_what_no_tunnel_takes(relay: Seq<char>, ts: Seq<TunnelView>, o: OwnedView)
    ensures
        has_orphan(relay, ts, o) <==> (exists|i: int|
            0 <= i < o.hostnames.len() && !host_taken(relay, ts, #[trigger] o.hostnames[i])) || (
        exists|i: int| 0 <= i < o.ports.len() && !port_taken(relay, ts, #[trigger] o.ports[i])),
{
    assert forall|h: Seq<char>| #[trigger] host_configured(relay, ts, h) == host_taken(
        relay,
        ts,
        h,
    ) by {
        lemma_host_taken(relay, ts, h);
    }
    assert forall|p: u16| #[trigger] port_configured(ts, p) == port_taken(relay, ts, p) by {
        lemma_port_taken(relay, ts, p);
    }
}

/// The status of a running daemon is told in full: its state, relay, process
/// and reconnects, then each hostname and each port that was granted.
pub proof fn status_tells_everything(s: StatusSnapshot, i: int)
    ensures
        ({
            let lines = status_lines(Some(s));
            let h = s.granted_hostnames@.len();
            let p = s.granted_ports@.len();
            &&& lines.len() == 4 + h + p
            &&& lines[0] == "state:      "@ + s.state@
            &&& lines[1] == "relay:      "@ + s.relay@
            &&& lines[2] == "pid:        "@ + text::decimal(s.pid as nat)
            &&& lines[3] == "reconnects: "@ + text::decimal(s.reconnects as nat)
            &&& 0 <= i < h ==> lines[4 + i] == "  https://"@ + s.granted_hostnames@[i]@
            &&& 0 <= i < p ==> lines[4 + h + i] == "  tcp "@ + s.relay@ + ":"@ + text::decimal(
                s.granted_ports@[i] as nat,
            )
        }),
        status_lines(None).len() == 1,
{
}

} // verus!
