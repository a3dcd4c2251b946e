//! Frames of the control channel and preambles of data streams.
//!
//! The bootstrap set (the control preamble with `Hello`, `Welcome`, `Denied`)
//! is frozen forever; within a protocol version, variants are append-only.
//! Each type has a mathematical view in which strings are character sequences.
use vstd::prelude::*;

verus! {

/// The formatter handed to a `Debug` implementation; carried through unread.
#[verifier::external_type_specification]
#[verifier::external_body]
pub struct ExFormatter<'a>(core::fmt::Formatter<'a>);

/// What a failed write to a formatter reports; carried through unread.
#[verifier::external_type_specification]
#[verifier::external_body]
pub struct ExFmtError(core::fmt::Error);

/// A string that never reveals itself in `Debug` output, such as a token.
#[derive(Clone)]
pub struct Secret(pub String);

impl Secret {
    /// Borrow the underlying secret, where the value is actually used.
    pub fn expose(&self) -> (r: &str)
        ensures
            r@ == self.0@,
    {
        self.0.as_str()
    }
}

/// What was written to a formatter so far.
pub uninterp spec fn written(f: core::fmt::Formatter<'_>) -> Seq<char>;

/// `core::fmt::Formatter::write_str`: it succeeds only if the whole text was
/// written, behind what was there. When a write fails is not said.
#[verifier::external_body]
fn write_text(f: &mut core::fmt::Formatter<'_>, text: &str) -> (r: core::fmt::Result)
    ensures
        r is Ok ==> written(*final(f)) == written(*old(f)) + text@,
{
    f.write_str(text)
}

impl core::fmt::Debug for Secret {
    /// One fixed text, whatever the secret is.
    fn fmt(&self, f: &mut core::fmt::Formatter<'_>) -> (r: core::fmt::Result)
        ensures
            r is Ok ==> written(*final(f)) == written(*old(f)) + "Secret(***)"@,
    {
        write_text(f, "Secret(***)")
    }
}

impl From<String> for Secret {
    fn from(s: String) -> (r: Self) {
        Secret(s)
    }
}

impl vstd::std_specs::convert::FromSpecImpl<String> for Secret {
    open spec fn obeys_from_spec() -> bool {
        true
    }

    open spec fn from_spec(s: String) -> Self {
        Secret(s)
    }
}

impl<'a> From<&'a str> for Secret {
    fn from(s: &'a str) -> (r: Self)
        ensures
            r.0@ == s@,
    {
        Secret(s.to_owned())
    }
}

impl<'a> vstd::std_specs::convert::FromSpecImpl<&'a str> for Secret {
    open spec fn obeys_from_spec() -> bool {
        false
    }

    open spec fn from_spec(s: &'a str) -> Self {
        arbitrary()
    }
}

/// The address of a visitor, as octets in network order.
#[derive(Clone, Copy, Debug, PartialEq, Eq)]
pub enum PeerIp {
    V4([u8; 4]),
    V6([u8; 16]),
}

/// View of an address.
pub enum IpView {
    V4(Seq<u8>),
    V6(Seq<u8>),
}

impl View for PeerIp {
    type V = IpView;

    open spec fn view(&self) -> IpView {
        match self {
            PeerIp::V4(o) => IpView::V4(o@),
            PeerIp::V6(o) => IpView::V6(o@),
        }
    }
}

/// A claimable resource: a public hostname or a public TCP port.
#[derive(Clone, Debug, PartialEq, Eq)]
pub enum Resource {
    Host(String),
    Port(u16),
}

/// View of a [`Resource`].
pub enum ResourceView {
    Host(Seq<char>),
    Port(u16),
}

impl View for Resource {
    type V = ResourceView;

    open spec fn view(&self) -> ResourceView {
        match self {
            Resource::Host(h) => ResourceView::Host(h@),
            Resource::Port(p) => ResourceView::Port(*p),
        }
    }
}

/// Why a `Hello` or `Claim` was rejected. `AuthFailed` unifies a bad, revoked
/// and unknown token, so that it cannot be used as an oracle.
#[derive(Clone, Copy, Debug, PartialEq, Eq, Structural)]
pub enum DenyCode {
    AuthFailed,
    VersionUnsupported,
    NotOwner,
    UnknownHostname,
    PortNotReserved,
    PortUnavailable,
    LimitExceeded,
    ProtocolError,
}

impl DenyCode {
    /// Name of the code, as it is shown to people.
    pub open spec fn spec_name(self) -> Seq<char> {
        match self {
            DenyCode::AuthFailed => "AuthFailed"@,
            DenyCode::VersionUnsupported => "VersionUnsupported"@,
            DenyCode::NotOwner => "NotOwner"@,
            DenyCode::UnknownHostname => "UnknownHostname"@,
            DenyCode::PortNotReserved => "PortNotReserved"@,
            DenyCode::PortUnavailable => "PortUnavailable"@,
            DenyCode::LimitExceeded => "LimitExceeded"@,
            DenyCode::ProtocolError => "ProtocolError"@,
        }
    }

    /// Name of the code, as it is shown to people.
    pub fn name(&self) -> (r: &'static str)
        ensures
            r@ == self.spec_name(),
    {
        match self {
            DenyCode::AuthFailed => "AuthFailed",
            DenyCode::VersionUnsupported => "VersionUnsupported",
            DenyCode::NotOwner => "NotOwner",
            DenyCode::UnknownHostname => "UnknownHostname",
            DenyCode::PortNotReserved => "PortNotReserved",
            DenyCode::PortUnavailable => "PortUnavailable",
            DenyCode::LimitExceeded => "LimitExceeded",
            DenyCode::ProtocolError => "ProtocolError",
        }
    }
}

/// Non-fatal diagnostic codes carried by [`ControlFrame::Error`].
#[derive(Clone, Copy, Debug, PartialEq, Eq, Structural)]
pub enum ErrorCode {
    MalformedClaim,
    Internal,
}

/// Frames exchanged on the control stream.
#[allow(inconsistent_fields)]
#[derive(Clone, Debug)]
pub enum ControlFrame {
    /// Daemon to relay, within the hello timeout.
    Hello { token: Secret, agent_version: String, proto_min: u16, proto_max: u16 },
    /// Relay to daemon: the session is established.
    Welcome { proto: u16, server_version: String, session_id: u64 },
    /// Relay to daemon: terminal for a `Hello`, non-terminal for a `Claim`.
    Denied { code: DenyCode, message: String },
    /// Daemon to relay: atomic, idempotent claim.
    Claim { hostnames: Vec<String>, tcp_ports: Vec<u16> },
    /// Relay to daemon: exactly what is now routed to this session.
    Granted { hostnames: Vec<String>, tcp_ports: Vec<u16> },
    /// Daemon to relay heartbeat.
    Ping { nonce: u64 },
    /// Relay to daemon heartbeat echo.
    Pong { nonce: u64 },
    /// Relay to daemon: a newer session of the same user took the resource.
    Superseded { resource: Resource },
    /// Daemon to relay: graceful shutdown.
    Goodbye,
    /// Relay to daemon: the relay is going down.
    Shutdown { reason: String },
    /// Either direction: non-fatal diagnostic.
    Error { code: ErrorCode, message: String },
    /// Daemon to relay, protocol 2: give up these owned resources.
    Release { hostnames: Vec<String>, tcp_ports: Vec<u16> },
    /// Relay to daemon, protocol 2: the owned subset that is now gone.
    Released { hostnames: Vec<String>, tcp_ports: Vec<u16> },
    /// Daemon to relay, protocol 2: ask for the owned set.
    ListOwned,
    /// Relay to daemon, protocol 2: the owned set, and the number of tunnels
    /// the plan allows where one applies.
    Owned { hostnames: Vec<String>, tcp_ports: Vec<u16>, max_tunnels: Option<i64> },
}

/// The views of a list of strings.
pub open spec fn names(v: Seq<String>) -> Seq<Seq<char>> {
    v.map_values(|s: String| s@)
}

/// View of a [`ControlFrame`].
#[allow(inconsistent_fields)]
pub enum FrameView {
    Hello { token: Seq<char>, agent_version: Seq<char>, proto_min: u16, proto_max: u16 },
    Welcome { proto: u16, server_version: Seq<char>, session_id: u64 },
    Denied { code: DenyCode, message: Seq<char> },
    Claim { hostnames: Seq<Seq<char>>, tcp_ports: Seq<u16> },
    Granted { hostnames: Seq<Seq<char>>, tcp_ports: Seq<u16> },
    Ping { nonce: u64 },
    Pong { nonce: u64 },
    Superseded { resource: ResourceView },
    Goodbye,
    Shutdown { reason: Seq<char> },
    Error { code: ErrorCode, message: Seq<char> },
    Release { hostnames: Seq<Seq<char>>, tcp_ports: Seq<u16> },
    Released { hostnames: Seq<Seq<char>>, tcp_ports: Seq<u16> },
    ListOwned,
    Owned { hostnames: Seq<Seq<char>>, tcp_ports: Seq<u16>, max_tunnels: Option<i64> },
}

impl View for ControlFrame {
    type V = FrameView;

    open spec fn view(&self) -> FrameView {
        match self {
            ControlFrame::Hello { token, agent_version, proto_min, proto_max } => FrameView::Hello {
                token: token.0@,
                agent_version: agent_version@,
                proto_min: *proto_min,
                proto_max: *proto_max,
            },
            ControlFrame::Welcome { proto, server_version, session_id } => FrameView::Welcome {
                proto: *proto,
                server_version: server_version@,
                session_id: *session_id,
            },
            ControlFrame::Denied { code, message } => FrameView::Denied {
                code: *code,
                message: message@,
            },
            ControlFrame::Claim { hostnames, tcp_ports } => FrameView::Claim {
                hostnames: names(hostnames@),
                tcp_ports: tcp_ports@,
            },
            ControlFrame::Granted { hostnames, tcp_ports } => FrameView::Granted {
                hostnames: names(hostnames@),
                tcp_ports: tcp_ports@,
            },
            ControlFrame::Ping { nonce } => FrameView::Ping { nonce: *nonce },
            ControlFrame::Pong { nonce } => FrameView::Pong { nonce: *nonce },
            ControlFrame::Superseded { resource } => FrameView::Superseded { resource: resource@ },
            ControlFrame::Goodbye => FrameView::Goodbye,
            ControlFrame::Shutdown { reason } => FrameView::Shutdown { reason: reason@ },
            ControlFrame::Error { code, message } => FrameView::Error {
                code: *code,
                message: message@,
            },
            ControlFrame::Release { hostnames, tcp_ports } => FrameView::Release {
                hostnames: names(hostnames@),
                tcp_ports: tcp_ports@,
            },
            ControlFrame::Released { hostnames, tcp_ports } => FrameView::Released {
                hostnames: names(hostnames@),
                tcp_ports: tcp_ports@,
            },
            ControlFrame::ListOwned => FrameView::ListOwned,
            ControlFrame::Owned { hostnames, tcp_ports, max_tunnels } => FrameView::Owned {
                hostnames: names(hostnames@),
                tcp_ports: tcp_ports@,
                max_tunnels: *max_tunnels,
            },
        }
    }
}

/// A `Denied` frame with this code and text.
pub fn denied(code: DenyCode, message: String) -> (r: ControlFrame)
    ensures
        r@ == (FrameView::Denied { code, message: message@ }),
{
    ControlFrame::Denied { code, message }
}

/// A copy of a list of strings.
pub fn dup_names(v: &Vec<String>) -> (r: Vec<String>)
    ensures
        names(r@) == names(v@),
{
    let mut out: Vec<String> = Vec::new();
    let mut i: usize = 0;
    while i < v.len()
        invariant
            i <= v@.len(),
            names(out@) == names(v@).take(i as int),
        decreases v@.len() - i,
    {
        let ghost done = out@;
        let one = v[i].clone();
        out.push(one);
        i += 1;
        assert(names(out@) =~= names(done).push(one@));
        assert(names(out@) =~= names(v@).take(i as int));
    }
    assert(names(v@).take(i as int) =~= names(v@));
    out
}

/// A copy of a list of ports.
pub fn dup_ports(v: &Vec<u16>) -> (r: Vec<u16>)
    ensures
        r@ == v@,
{
    let mut out: Vec<u16> = Vec::new();
    let mut i: usize = 0;
    while i < v.len()
        invariant
            i <= v@.len(),
            out@ == v@.take(i as int),
        decreases v@.len() - i,
    {
        out.push(v[i]);
        i += 1;
        assert(out@ =~= v@.take(i as int));
    }
    assert(v@.take(i as int) =~= v@);
    out
}

/// Preamble written by the relay on every data stream it opens, naming the
/// tunnel the stream belongs to. Opaque bytes follow.
#[derive(Clone, Debug, PartialEq, Eq)]
pub enum StreamHeader {
    Http { host: String, peer_ip: PeerIp, peer_port: u16 },
    Tcp { port: u16, peer_ip: PeerIp, peer_port: u16 },
}

/// View of a [`StreamHeader`].
pub enum StreamView {
    Http { host: Seq<char>, peer_ip: IpView, peer_port: u16 },
    Tcp { port: u16, peer_ip: IpView, peer_port: u16 },
}

impl View for StreamHeader {
    type V = StreamView;

    open spec fn view(&self) -> StreamView {
        match self {
            StreamHeader::Http { host, peer_ip, peer_port } => StreamView::Http {
                host: host@,
                peer_ip: peer_ip@,
                peer_port: *peer_port,
            },
            StreamHeader::Tcp { port, peer_ip, peer_port } => StreamView::Tcp {
                port: *port,
                peer_ip: peer_ip@,
                peer_port: *peer_port,
            },
        }
    }
}

} // verus!
