//! The connection supervisor: keep one outbound tunnel to the relay alive.
//!
//! One attempt connects, authenticates, claims and then heartbeats until the
//! connection ends; the supervisor reconnects with a growing pause. A bad token
//! pauses long, so that the relay is not hammered. Claims are sent on every
//! connect, so a relay restart re-establishes the tunnels by itself.
//!
//! Sockets and timers belong to the program around this module; it performs the
//! actions decided here and reports how they went.
use vstd::prelude::*;

use crate::client::proxy::{LocalTarget, RouteTable, TargetView};
use crate::client::tls::TrustMode;
use crate::proto::codec::CodecError;
use crate::proto::debug;
use crate::proto::frames;
use crate::proto::frames::{ControlFrame, DenyCode, FrameView, Secret};
use crate::text;
use crate::PROTOCOL_VERSION;

verus! {

/// One HTTP tunnel: a public hostname forwarding to a local address.
#[derive(Clone, Debug)]
pub struct HttpTunnel {
    pub hostname: String,
    pub local_host: String,
    pub local_port: u16,
}

/// One raw-TCP tunnel: a public port forwarding to a local address.
#[derive(Clone, Debug)]
pub struct TcpTunnel {
    pub public_port: u16,
    pub local_host: String,
    pub local_port: u16,
}

/// What the daemon should connect to and claim.
#[derive(Clone, Debug)]
pub struct ClientConfig {
    /// Relay base domain.
    pub relay_host: String,
    /// Address to use instead of resolving the name.
    pub relay_addr: Option<String>,
    /// Bearer token presented in `Hello`.
    pub token: String,
    pub http_tunnels: Vec<HttpTunnel>,
    pub tcp_tunnels: Vec<TcpTunnel>,
    /// How to trust the relay's certificate.
    pub trust: TrustMode,
}

/// The hostnames of HTTP tunnels.
pub open spec fn hostnames_of(v: Seq<HttpTunnel>) -> Seq<Seq<char>> {
    v.map_values(|t: HttpTunnel| t.hostname@)
}

/// The ports of TCP tunnels.
pub open spec fn ports_of(v: Seq<TcpTunnel>) -> Seq<u16> {
    v.map_values(|t: TcpTunnel| t.public_port)
}

/// Where each hostname forwards to; of tunnels that share one, the last counts.
pub open spec fn http_routes(v: Seq<HttpTunnel>) -> Map<Seq<char>, TargetView>
    decreases v.len(),
{
    if v.len() == 0 {
        Map::empty()
    } else {
        http_routes(v.drop_last()).insert(
            v.last().hostname@,
            TargetView { host: v.last().local_host@, port: v.last().local_port },
        )
    }
}

/// Where each port forwards to; of tunnels that share one, the last counts.
pub open spec fn tcp_routes(v: Seq<TcpTunnel>) -> Map<u16, TargetView>
    decreases v.len(),
{
    if v.len() == 0 {
        Map::empty()
    } else {
        tcp_routes(v.drop_last()).insert(
            v.last().public_port,
            TargetView { host: v.last().local_host@, port: v.last().local_port },
        )
    }
}

/// Views of the targets of a table.
pub open spec fn targets<K>(m: Map<K, LocalTarget>) -> Map<K, TargetView> {
    m.map_values(|t: LocalTarget| t@)
}

/// The control endpoint of a relay.
pub open spec fn connect_name(relay: Seq<char>) -> Seq<char> {
    "connect."@ + relay
}

/// The control endpoint of a relay.
pub fn connect_host(relay: &str) -> (r: String)
    ensures
        r@ == connect_name(relay@),
{
    text::join2("connect.", relay)
}

/// Where the control connection of an endpoint is upgraded.
pub fn connect_url(host: &str) -> (r: String)
    ensures
        r@ == "wss://"@ + host@ + "/connect"@,
{
    text::join3("wss://", host, "/connect")
}

/// The frame that opens a session.
pub open spec fn hello(token: Seq<char>, agent: Seq<char>) -> FrameView {
    FrameView::Hello {
        token,
        agent_version: agent,
        proto_min: 1,
        proto_max: PROTOCOL_VERSION,
    }
}

/// The frame that opens a session.
pub fn hello_frame(token: &str, agent_version: &str) -> (r: ControlFrame)
    ensures
        r@ == hello(token@, agent_version@),
{
    ControlFrame::Hello {
        token: Secret(token.to_owned()),
        agent_version: agent_version.to_owned(),
        proto_min: 1,
        proto_max: PROTOCOL_VERSION,
    }
}

/// The claim of a configuration; none when there is nothing to claim.
pub open spec fn claim_of(http: Seq<HttpTunnel>, tcp: Seq<TcpTunnel>) -> Option<FrameView> {
    if http.len() == 0 && tcp.len() == 0 {
        None
    } else {
        Some(FrameView::Claim { hostnames: hostnames_of(http), tcp_ports: ports_of(tcp) })
    }
}

impl ClientConfig {
    /// The hostnames to claim.
    pub fn claim_hostnames(&self) -> (r: Vec<String>)
        ensures
            frames::names(r@) == hostnames_of(self.http_tunnels@),
    {
        let ghost target = hostnames_of(self.http_tunnels@);
        let mut out: Vec<String> = Vec::new();
        let mut i: usize = 0;
        assert(frames::names(out@) =~= target.take(0));
        while i < self.http_tunnels.len()
            invariant
                i <= self.http_tunnels@.len(),
                target == hostnames_of(self.http_tunnels@),
                frames::names(out@) == target.take(i as int),
            decreases self.http_tunnels@.len() - i,
        {
            let ghost done = out@;
            let h = self.http_tunnels[i].hostname.clone();
            out.push(h);
            i += 1;
            assert(frames::names(out@) =~= frames::names(done).push(h@));
            assert(frames::names(out@) =~= target.take(i as int));
        }
        assert(target.take(i as int) =~= target);
        out
    }

    /// The ports to claim.
    pub fn claim_ports(&self) -> (r: Vec<u16>)
        ensures
            r@ == ports_of(self.tcp_tunnels@),
    {
        let ghost target = ports_of(self.tcp_tunnels@);
        let mut out: Vec<u16> = Vec::new();
        let mut i: usize = 0;
        assert(out@ =~= target.take(0));
        while i < self.tcp_tunnels.len()
            invariant
                i <= self.tcp_tunnels@.len(),
                target == ports_of(self.tcp_tunnels@),
                out@ == target.take(i as int),
            decreases self.tcp_tunnels@.len() - i,
        {
            out.push(self.tcp_tunnels[i].public_port);
            i += 1;
            assert(out@ =~= target.take(i as int));
        }
        assert(target.take(i as int) =~= target);
        out
    }

    /// The claim to send, if there is anything to claim.
    pub fn claim_frame(&self) -> (r: Option<ControlFrame>)
        ensures
            match r {
                Some(f) => claim_of(self.http_tunnels@, self.tcp_tunnels@) == Some(f@),
                None => claim_of(self.http_tunnels@, self.tcp_tunnels@) is None,
            },
    {
        if self.http_tunnels.len() == 0 && self.tcp_tunnels.len() == 0 {
            None
        } else {
            Some(
                ControlFrame::Claim {
                    hostnames: self.claim_hostnames(),
                    tcp_ports: self.claim_ports(),
                },
            )
        }
    }

    /// The forwarding tables for inbound streams.
    pub fn routes(&self) -> (r: RouteTable)
        ensures
            r.wf(),
            targets(r.http@) == http_routes(self.http_tunnels@),
            targets(r.tcp@) == tcp_routes(self.tcp_tunnels@),
    {
        let mut table = RouteTable::new();
        let ghost hs = self.http_tunnels@;
        let ghost ps = self.tcp_tunnels@;
        let mut i: usize = 0;
        assert(hs.take(0) =~= Seq::<HttpTunnel>::empty());
        assert(targets(table.http@) =~= http_routes(hs.take(0)));
        assert(ps.take(0) =~= Seq::<TcpTunnel>::empty());
        assert(targets(table.tcp@) =~= tcp_routes(ps.take(0)));
        while i < self.http_tunnels.len()
            invariant
                i <= self.http_tunnels@.len(),
                hs == self.http_tunnels@,
                table.wf(),
                targets(table.http@) == http_routes(hs.take(i as int)),
                targets(table.tcp@) == tcp_routes(ps.take(0)),
            decreases self.http_tunnels@.len() - i,
        {
            let t = &self.http_tunnels[i];
            let target = LocalTarget { host: t.local_host.clone(), port: t.local_port };
            let ghost before = table.http@;
            let _ = table.http.insert(t.hostname.clone(), target);
            proof {
                assert(hs.take(i + 1).drop_last() =~= hs.take(i as int));
                assert(targets(table.http@) =~= targets(before).insert(t.hostname@, target@));
            }
            i += 1;
        }
        assert(hs.take(i as int) =~= hs);
        let mut j: usize = 0;
        while j < self.tcp_tunnels.len()
            invariant
                j <= self.tcp_tunnels@.len(),
                ps == self.tcp_tunnels@,
                table.wf(),
                targets(table.http@) == http_routes(hs),
                targets(table.tcp@) == tcp_routes(ps.take(j as int)),
            decreases self.tcp_tunnels@.len() - j,
        {
            let t = &self.tcp_tunnels[j];
            let target = LocalTarget { host: t.local_host.clone(), port: t.local_port };
            let ghost before = table.tcp@;
            let _ = table.tcp.insert(t.public_port, target);
            proof {
                assert(ps.take(j + 1).drop_last() =~= ps.take(j as int));
                assert(targets(table.tcp@) =~= targets(before).insert(t.public_port, target@));
            }
            j += 1;
        }
        assert(ps.take(j as int) =~= ps);
        table
    }
}

/// Connection phase, shown by `status`.
#[derive(Clone, Copy, Debug, PartialEq, Eq, Structural)]
pub enum ConnState {
    Connecting,
    Connected,
    AuthFailed,
}

impl Default for ConnState {
    fn default() -> (r: Self)
        ensures
            r == ConnState::Connecting,
    {
        ConnState::Connecting
    }
}

/// A snapshot of the daemon's live state.
#[derive(Clone, Debug)]
pub struct DaemonStatus {
    pub state: ConnState,
    pub granted_hostnames: Vec<String>,
    pub granted_ports: Vec<u16>,
    pub reconnects: u32,
}

/// View of a [`DaemonStatus`].
pub struct StatusView {
    pub state: ConnState,
    pub hostnames: Seq<Seq<char>>,
    pub ports: Seq<u16>,
    pub reconnects: u32,
}

impl View for DaemonStatus {
    type V = StatusView;

    open spec fn view(&self) -> StatusView {
        StatusView {
            state: self.state,
            hostnames: frames::names(self.granted_hostnames@),
            ports: self.granted_ports@,
            reconnects: self.reconnects,
        }
    }
}

impl Default for DaemonStatus {
    fn default() -> (r: Self)
        ensures
            r@ == (StatusView {
                state: ConnState::Connecting,
                hostnames: Seq::empty(),
                ports: Seq::empty(),
                reconnects: 0,
            }),
    {
        let r = DaemonStatus {
            state: ConnState::Connecting,
            granted_hostnames: Vec::new(),
            granted_ports: Vec::new(),
            reconnects: 0,
        };
        assert(r@.hostnames =~= Seq::<Seq<char>>::empty());
        r
    }
}

/// Why a connection ended.
#[derive(Clone, Debug)]
pub enum ConnError {
    /// The relay refused the token.
    Auth,
    Disconnected,
    Io(String),
    Codec(String),
    Setup(String),
    Protocol(String),
}

/// View of a [`ConnError`].
pub enum ConnErrorView {
    Auth,
    Disconnected,
    Io(Seq<char>),
    Codec(Seq<char>),
    Setup(Seq<char>),
    Protocol(Seq<char>),
}

impl View for ConnError {
    type V = ConnErrorView;

    open spec fn view(&self) -> ConnErrorView {
        match self {
            ConnError::Auth => ConnErrorView::Auth,
            ConnError::Disconnected => ConnErrorView::Disconnected,
            ConnError::Io(s) => ConnErrorView::Io(s@),
            ConnError::Codec(s) => ConnErrorView::Codec(s@),
            ConnError::Setup(s) => ConnErrorView::Setup(s@),
            ConnError::Protocol(s) => ConnErrorView::Protocol(s@),
        }
    }
}

impl ConnError {
    pub fn is_auth(&self) -> (r: bool)
        ensures
            r == (self@ is Auth),
    {
        match self {
            ConnError::Auth => true,
            _ => false,
        }
    }

    /// The error in words.
    pub fn message(&self) -> (r: String)
        ensures
            r@ == (match self@ {
                ConnErrorView::Auth => "authentication failed"@,
                ConnErrorView::Disconnected => "disconnected"@,
                ConnErrorView::Io(s) => "io: "@ + s,
                ConnErrorView::Codec(s) => "codec: "@ + s,
                ConnErrorView::Setup(s) => "tls/setup: "@ + s,
                ConnErrorView::Protocol(s) => "protocol: "@ + s,
            }),
    {
        match self {
            ConnError::Auth => "authentication failed".to_owned(),
            ConnError::Disconnected => "disconnected".to_owned(),
            ConnError::Io(s) => text::join2("io: ", s.as_str()),
            ConnError::Codec(s) => text::join2("codec: ", s.as_str()),
            ConnError::Setup(s) => text::join2("tls/setup: ", s.as_str()),
            ConnError::Protocol(s) => text::join2("protocol: ", s.as_str()),
        }
    }
}

/// How far an attempt is: what the program is doing outside.
#[derive(Clone, Copy, Debug, PartialEq, Eq, Structural)]
pub enum Stage {
    /// Resolving the control endpoint.
    Resolve,
    /// Connecting to the address.
    Dial,
    /// Loading the trusted roots.
    Trust,
    /// Reading the endpoint as a server name.
    Name,
    /// The TLS handshake.
    Tls,
    /// The WebSocket upgrade.
    Upgrade,
    /// Opening the control stream.
    OpenControl,
    /// Sending the preamble and `Hello`, and waiting for the reply.
    Hello,
    /// Sending the claim, and waiting for the reply.
    Claim,
    /// Heartbeating.
    Live,
    /// The attempt is over.
    Over,
}

/// What happened outside.
pub enum Happened {
    /// The work of the stage succeeded.
    Good,
    /// The name resolved to no address.
    NoAddress,
    /// The work of the stage failed.
    Failed(String),
    /// Writing or reading a frame failed.
    Codec(CodecError),
    /// The relay answered.
    Reply(ControlFrame),
    /// The daemon shuts down.
    Cancelled,
    /// The relay fell silent or closed.
    Dead,
    /// A heartbeat is due.
    Beat,
}

/// What to do next.
pub enum Act {
    /// Do the work of the stage.
    Work,
    /// Send the opening frames and wait for the reply.
    SendHello(ControlFrame),
    /// Send the claim and wait for the reply.
    SendClaim(ControlFrame),
    /// Start reading and heartbeating.
    GoLive,
    /// Send a heartbeat.
    Ping(u64),
    /// Say goodbye and end cleanly.
    Goodbye,
    /// End with this error.
    End(ConnError),
    /// Nothing: this event has no meaning at this stage.
    Nothing,
}

/// View of an [`Act`].
pub enum ActView {
    Work,
    SendHello(FrameView),
    SendClaim(FrameView),
    GoLive,
    Ping(u64),
    Goodbye,
    End(ConnErrorView),
    Nothing,
}

impl View for Act {
    type V = ActView;

    open spec fn view(&self) -> ActView {
        match self {
            Act::Work => ActView::Work,
            Act::SendHello(f) => ActView::SendHello(f@),
            Act::SendClaim(f) => ActView::SendClaim(f@),
            Act::GoLive => ActView::GoLive,
            Act::Ping(n) => ActView::Ping(*n),
            Act::Goodbye => ActView::Goodbye,
            Act::End(e) => ActView::End(e@),
            Act::Nothing => ActView::Nothing,
        }
    }
}

/// One attempt to connect.
#[derive(Clone, Copy, Debug, PartialEq, Eq, Structural)]
pub struct Attempt {
    pub stage: Stage,
    pub nonce: u64,
}

/// The stage after the work of one succeeded.
pub open spec fn next_stage(s: Stage) -> Stage {
    match s {
        Stage::Resolve => Stage::Dial,
        Stage::Dial => Stage::Trust,
        Stage::Trust => Stage::Name,
        Stage::Name => Stage::Tls,
        Stage::Tls => Stage::Upgrade,
        Stage::Upgrade => Stage::OpenControl,
        Stage::OpenControl => Stage::Hello,
        other => other,
    }
}

/// The error of a stage whose work failed.
pub open spec fn stage_error(s: Stage, why: Seq<char>) -> ConnErrorView {
    match s {
        Stage::Resolve => ConnErrorView::Io(why),
        Stage::Dial => ConnErrorView::Io(why),
        Stage::Tls => ConnErrorView::Io(why),
        Stage::Trust => ConnErrorView::Setup(why),
        Stage::Name => ConnErrorView::Setup("bad server name: "@ + why),
        Stage::Upgrade => ConnErrorView::Setup("websocket handshake: "@ + why),
        Stage::OpenControl => ConnErrorView::Setup("open control stream: "@ + why),
        _ => ConnErrorView::Disconnected,
    }
}

/// What an answer to `Hello` means: `None` for a welcome.
pub open spec fn hello_fault(f: FrameView) -> Option<ConnErrorView> {
    match f {
        FrameView::Welcome { .. } => None,
        FrameView::Denied { code, message } => if code == DenyCode::AuthFailed {
            Some(ConnErrorView::Auth)
        } else {
            Some(ConnErrorView::Protocol(code.spec_name() + ": "@ + message))
        },
        other => Some(ConnErrorView::Protocol("expected Welcome, got "@ + debug::frame_text(other))),
    }
}

/// What an answer to a claim means for the status: a grant is recorded, a
/// denial leaves the daemon connected without tunnels.
pub open spec fn claim_result(f: FrameView, s: StatusView) -> Result<StatusView, ConnErrorView> {
    match f {
        FrameView::Granted { hostnames, tcp_ports } => Ok(
            StatusView {
                state: ConnState::Connected,
                hostnames,
                ports: tcp_ports,
                reconnects: s.reconnects,
            },
        ),
        FrameView::Denied { .. } => Ok(StatusView { state: ConnState::Connected, ..s }),
        other => Err(ConnErrorView::Protocol("expected Granted, got "@ + debug::frame_text(other))),
    }
}

impl Attempt {
    pub fn new() -> (r: Self)
        ensures
            r == (Attempt { stage: Stage::Resolve, nonce: 0 }),
    {
        Attempt { stage: Stage::Resolve, nonce: 0 }
    }

    /// The attempt, its status and what to do, after something happened.
    pub open spec fn after(
        self,
        h: Happened,
        host: Seq<char>,
        token: Seq<char>,
        agent: Seq<char>,
        claim: Option<FrameView>,
        s: StatusView,
    ) -> (Attempt, StatusView, ActView) {
        let over = Attempt { stage: Stage::Over, ..self };
        match self.stage {
            Stage::Over => (self, s, ActView::Nothing),
            Stage::Hello => match h {
                Happened::Reply(f) => match hello_fault(f@) {
                    Some(e) => (over, s, ActView::End(e)),
                    None => match claim {
                        Some(c) => (
                            Attempt { stage: Stage::Claim, ..self },
                            s,
                            ActView::SendClaim(c),
                        ),
                        None => (
                            Attempt { stage: Stage::Live, ..self },
                            StatusView { state: ConnState::Connected, ..s },
                            ActView::GoLive,
                        ),
                    },
                },
                Happened::Codec(e) => (over, s, ActView::End(ConnErrorView::Codec(e.words()))),
                _ => (self, s, ActView::Nothing),
            },
            Stage::Claim => match h {
                Happened::Reply(f) => match claim_result(f@, s) {
                    Ok(t) => (Attempt { stage: Stage::Live, ..self }, t, ActView::GoLive),
                    Err(e) => (over, s, ActView::End(e)),
                },
                Happened::Codec(e) => (over, s, ActView::End(ConnErrorView::Codec(e.words()))),
                _ => (self, s, ActView::Nothing),
            },
            Stage::Live => match h {
                Happened::Cancelled => (over, s, ActView::Goodbye),
                Happened::Dead => (over, s, ActView::End(ConnErrorView::Disconnected)),
                Happened::Codec(_) => (over, s, ActView::End(ConnErrorView::Disconnected)),
                Happened::Beat => {
                    let n = if self.nonce == u64::MAX {
                        0
                    } else {
                        (self.nonce + 1) as u64
                    };
                    (Attempt { nonce: n, ..self }, s, ActView::Ping(n))
                },
                _ => (self, s, ActView::Nothing),
            },
            _ => match h {
                Happened::Good => {
                    let n = Attempt { stage: next_stage(self.stage), ..self };
                    if n.stage == Stage::Hello {
                        (n, s, ActView::SendHello(hello(token, agent)))
                    } else {
                        (n, s, ActView::Work)
                    }
                },
                Happened::NoAddress => (
                    over,
                    s,
                    ActView::End(ConnErrorView::Setup("no address for "@ + host)),
                ),
                Happened::Failed(e) => (over, s, ActView::End(stage_error(self.stage, e@))),
                _ => (self, s, ActView::Nothing),
            },
        }
    }

    /// Something happened: what to do next, and what the daemon's status is.
    pub fn step(
        &mut self,
        h: Happened,
        cfg: &ClientConfig,
        agent_version: &str,
        status: &mut DaemonStatus,
    ) -> (r: Act)
        ensures
            (*final(self), final(status)@, r@) == old(self).after(
                h,
                connect_name(cfg.relay_host@),
                cfg.token@,
                agent_version@,
                claim_of(cfg.http_tunnels@, cfg.tcp_tunnels@),
                old(status)@,
            ),
    {
        match self.stage {
            Stage::Over => Act::Nothing,
            Stage::Hello => match h {
                Happened::Reply(f) => match read_hello_reply(&f) {
                    Some(e) => {
                        self.stage = Stage::Over;
                        Act::End(e)
                    },
                    None => match cfg.claim_frame() {
                        Some(c) => {
                            self.stage = Stage::Claim;
                            Act::SendClaim(c)
                        },
                        None => {
                            self.stage = Stage::Live;
                            status.state = ConnState::Connected;
                            Act::GoLive
                        },
                    },
                },
                Happened::Codec(e) => {
                    self.stage = Stage::Over;
                    Act::End(ConnError::Codec(e.message()))
                },
                _ => Act::Nothing,
            },
            Stage::Claim => match h {
                Happened::Reply(f) => match read_claim_reply(f, status) {
                    Some(e) => {
                        self.stage = Stage::Over;
                        Act::End(e)
                    },
                    None => {
                        self.stage = Stage::Live;
                        Act::GoLive
                    },
                },
                Happened::Codec(e) => {
                    self.stage = Stage::Over;
                    Act::End(ConnError::Codec(e.message()))
                },
                _ => Act::Nothing,
            },
            Stage::Live => match h {
                Happened::Cancelled => {
                    self.stage = Stage::Over;
                    Act::Goodbye
                },
                Happened::Dead => {
                    self.stage = Stage::Over;
                    Act::End(ConnError::Disconnected)
                },
                Happened::Codec(_) => {
                    self.stage = Stage::Over;
                    Act::End(ConnError::Disconnected)
                },
                Happened::Beat => {
                    let n: u64 = if self.nonce == u64::MAX {
                        0
                    } else {
                        self.nonce + 1
                    };
                    self.nonce = n;
                    Act::Ping(n)
                },
                _ => Act::Nothing,
            },
            _ => match h {
                Happened::Good => {
                    self.stage = advance(self.stage);
                    match self.stage {
                        Stage::Hello => Act::SendHello(
                            hello_frame(cfg.token.as_str(), agent_version),
                        ),
                        _ => Act::Work,
                    }
                },
                Happened::NoAddress => {
                    self.stage = Stage::Over;
                    let host = connect_host(cfg.relay_host.as_str());
                    Act::End(ConnError::Setup(text::join2("no address for ", host.as_str())))
                },
                Happened::Failed(e) => {
                    let s = self.stage;
                    self.stage = Stage::Over;
                    Act::End(failure(s, e))
                },
                _ => Act::Nothing,
            },
        }
    }
}

fn advance(s: Stage) -> (r: Stage)
    ensures
        r == next_stage(s),
{
    match s {
        Stage::Resolve => Stage::Dial,
        Stage::Dial => Stage::Trust,
        Stage::Trust => Stage::Name,
        Stage::Name => Stage::Tls,
        Stage::Tls => Stage::Upgrade,
        Stage::Upgrade => Stage::OpenControl,
        Stage::OpenControl => Stage::Hello,
        other => other,
    }
}

fn failure(s: Stage, why: String) -> (r: ConnError)
    ensures
        r@ == stage_error(s, why@),
{
    match s {
        Stage::Resolve => ConnError::Io(why),
        Stage::Dial => ConnError::Io(why),
        Stage::Tls => ConnError::Io(why),
        Stage::Trust => ConnError::Setup(why),
        Stage::Name => ConnError::Setup(text::join2("bad server name: ", why.as_str())),
        Stage::Upgrade => ConnError::Setup(text::join2("websocket handshake: ", why.as_str())),
        Stage::OpenControl => ConnError::Setup(
            text::join2("open control stream: ", why.as_str()),
        ),
        _ => ConnError::Disconnected,
    }
}

fn read_hello_reply(f: &ControlFrame) -> (r: Option<ConnError>)
    ensures
        match r {
            Some(e) => hello_fault(f@) == Some(e@),
            None => hello_fault(f@) is None,
        },
{
    match f {
        ControlFrame::Welcome { proto: _, server_version: _, session_id: _ } => None,
        ControlFrame::Denied { code, message } => match code {
            DenyCode::AuthFailed => Some(ConnError::Auth),
            _ => Some(
                ConnError::Protocol(text::join3(code.name(), ": ", message.as_str())),
            ),
        },
        other => Some(
            ConnError::Protocol(
                text::join2("expected Welcome, got ", debug::describe(other).as_str()),
            ),
        ),
    }
}

fn read_claim_reply(f: ControlFrame, status: &mut DaemonStatus) -> (r: Option<ConnError>)
    ensures
        match claim_result(f@, old(status)@) {
            Ok(t) => r is None && final(status)@ == t,
            Err(e) => r is Some && r->0@ == e && final(status)@ == old(status)@,
        },
{
    match f {
        ControlFrame::Granted { hostnames, tcp_ports } => {
            status.state = ConnState::Connected;
            status.granted_hostnames = hostnames;
            status.granted_ports = tcp_ports;
            None
        },
        ControlFrame::Denied { code: _, message: _ } => {
            status.state = ConnState::Connected;
            None
        },
        other => Some(
            ConnError::Protocol(
                text::join2("expected Granted, got ", debug::describe(&other).as_str()),
            ),
        ),
    }
}

/// Whether the reader of a live connection goes on after a frame: a shutdown
/// notice ends it.
pub fn reader_goes_on(f: &ControlFrame) -> (r: bool)
    ensures
        r == !(f@ is Shutdown),
{
    match f {
        ControlFrame::Shutdown { reason: _ } => false,
        _ => true,
    }
}

/// Longest pause between attempts, in seconds.
pub const BACKOFF_MAX: u64 = 60;

/// Pause after the relay refused the token, in seconds.
pub const BACKOFF_AUTH: u64 = 300;

/// A connection that lived longer than this many seconds resets the pause.
pub const STABLE_RESET: u64 = 30;

/// Jitter on a pause is below this many milliseconds.
pub const JITTER_MS: u64 = 500;

/// `rand::random`: any number. Nothing is said of its value. It panics where the
/// operating system has no randomness to give.
#[verifier::external_body]
fn random_number() -> u64 {
    rand::random::<u64>()
}

/// Paces the attempts of the supervisor.
#[derive(Clone, Copy, Debug, PartialEq, Eq, Structural)]
pub struct Pacer {
    pub backoff_secs: u64,
    pub reconnects: u32,
}

/// The pause after an attempt and the pacer after it. `lived_ns` is how long the
/// attempt lasted, in nanoseconds.
pub open spec fn paced(p: Pacer, auth_failed: bool, lived_ns: u128) -> (Pacer, u64) {
    let n = if p.reconnects == u32::MAX {
        0u32
    } else {
        (p.reconnects + 1) as u32
    };
    if auth_failed {
        (Pacer { reconnects: n, ..p }, BACKOFF_AUTH)
    } else {
        let b = if lived_ns > STABLE_RESET * 1_000_000_000 {
            1u64
        } else {
            p.backoff_secs
        };
        let next = if b >= BACKOFF_MAX / 2 {
            BACKOFF_MAX
        } else {
            (b * 2) as u64
        };
        (Pacer { backoff_secs: next, reconnects: n }, b)
    }
}

impl Pacer {
    pub fn new() -> (r: Self)
        ensures
            r == (Pacer { backoff_secs: 1, reconnects: 0 }),
    {
        Pacer { backoff_secs: 1, reconnects: 0 }
    }

    /// An attempt ended: the pause before the next one in seconds, before
    /// jitter. The status forgets its grants, and shows whether the token was
    /// refused.
    pub fn after_attempt(
        &mut self,
        auth_failed: bool,
        lived_ns: u128,
        status: &mut DaemonStatus,
    ) -> (r: u64)
        ensures
            (*final(self), r) == paced(*old(self), auth_failed, lived_ns),
            final(status)@ == (StatusView {
                state: if auth_failed {
                    ConnState::AuthFailed
                } else {
                    old(status)@.state
                },
                hostnames: Seq::empty(),
                ports: Seq::empty(),
                reconnects: final(self).reconnects,
            }),
    {
        status.granted_hostnames = Vec::new();
        status.granted_ports = Vec::new();
        self.reconnects = if self.reconnects == u32::MAX {
            0
        } else {
            self.reconnects + 1
        };
        status.reconnects = self.reconnects;
        assert(status@.hostnames =~= Seq::<Seq<char>>::empty());
        if auth_failed {
            status.state = ConnState::AuthFailed;
            return BACKOFF_AUTH;
        }
        if lived_ns > STABLE_RESET as u128 * 1_000_000_000 {
            self.backoff_secs = 1;
        }
        let wait: u64 = self.backoff_secs;
        self.backoff_secs = if wait >= BACKOFF_MAX / 2 {
            BACKOFF_MAX
        } else {
            wait * 2
        };
        wait
    }
}

/// Spread a pause of `secs` seconds: in milliseconds, with the jitter that
/// `random` gives.
pub fn jittered(secs: u64, random: u64) -> (r: u128)
    ensures
        r == secs * 1000 + random % JITTER_MS,
{
    secs as u128 * 1000 + (random % JITTER_MS) as u128
}

/// Spread a pause of `secs` seconds by a random jitter, in milliseconds.
pub fn pause_ms(secs: u64) -> (r: u128)
    ensures
        secs * 1000 <= r < secs * 1000 + JITTER_MS,
{
    jittered(secs, random_number())
}

/// A connecting daemon publishes that it is connecting.
pub fn begin_attempt(status: &mut DaemonStatus)
    ensures
        final(status)@ == (StatusView { state: ConnState::Connecting, ..old(status)@ }),
{
    status.state = ConnState::Connecting;
}

/// What the supervisor is doing.
#[derive(Clone, Copy, Debug, PartialEq, Eq, Structural)]
pub enum Phase {
    /// No attempt is under way.
    Idle,
    /// An attempt is under way.
    Attempting,
    /// It has stopped, for good.
    Stopped,
}

/// What happened to the supervisor.
#[derive(Clone, Copy, Debug, PartialEq, Eq, Structural)]
pub enum Turn {
    /// The next attempt is up: at the start, and after each pause.
    Ready,
    /// The attempt ended after this many nanoseconds.
    Ended { auth_failed: bool, lived_ns: u128 },
    /// Cancelled while an attempt or a pause was under way.
    Cancelled,
}

/// What the supervisor is to do.
#[derive(Clone, Copy, Debug, PartialEq, Eq, Structural)]
pub enum Order {
    /// Make an attempt.
    Attempt,
    /// Pause for this many seconds and a jitter.
    Pause { secs: u64 },
    /// Stop.
    Stop,
}

/// Makes attempt after attempt until it is cancelled.
#[derive(Clone, Copy, Debug, PartialEq, Eq, Structural)]
pub struct Supervisor {
    pub phase: Phase,
    pub pacer: Pacer,
}

/// The status without its grants.
pub open spec fn ungranted(s: StatusView) -> StatusView {
    StatusView { hostnames: Seq::empty(), ports: Seq::empty(), ..s }
}

/// The status after an attempt that others may follow.
pub open spec fn rested(s: StatusView, auth_failed: bool, reconnects: u32) -> StatusView {
    StatusView {
        state: if auth_failed {
            ConnState::AuthFailed
        } else {
            s.state
        },
        reconnects,
        ..ungranted(s)
    }
}

impl Supervisor {
    pub fn new() -> (r: Self)
        ensures
            r == (Supervisor {
                phase: Phase::Idle,
                pacer: Pacer { backoff_secs: 1, reconnects: 0 },
            }),
    {
        Supervisor { phase: Phase::Idle, pacer: Pacer::new() }
    }

    pub open spec fn stopped(self) -> Supervisor {
        Supervisor { phase: Phase::Stopped, ..self }
    }

    /// What a turn leads to; `cancelled` when the daemon was told to stop by
    /// then. A turn that nothing waits for stops it.
    pub open spec fn after(self, turn: Turn, cancelled: bool, s: StatusView) -> (
        Supervisor,
        StatusView,
        Order,
    ) {
        match turn {
            Turn::Ready => if self.phase == Phase::Idle && !cancelled {
                (
                    Supervisor { phase: Phase::Attempting, ..self },
                    StatusView { state: ConnState::Connecting, ..s },
                    Order::Attempt,
                )
            } else {
                (self.stopped(), s, Order::Stop)
            },
            Turn::Ended { auth_failed, lived_ns } => if self.phase != Phase::Attempting {
                (self.stopped(), s, Order::Stop)
            } else if cancelled {
                (self.stopped(), ungranted(s), Order::Stop)
            } else {
                let (pacer, secs) = paced(self.pacer, auth_failed, lived_ns);
                (
                    Supervisor { phase: Phase::Idle, pacer },
                    rested(s, auth_failed, pacer.reconnects),
                    Order::Pause { secs },
                )
            },
            Turn::Cancelled => (self.stopped(), s, Order::Stop),
        }
    }

    /// Take a turn and tell what to do.
    pub fn step(&mut self, turn: Turn, cancelled: bool, status: &mut DaemonStatus) -> (r: Order)
        ensures
            (*final(self), final(status)@, r) == old(self).after(turn, cancelled, old(status)@),
    {
        match turn {
            Turn::Ready => {
                if self.phase == Phase::Idle && !cancelled {
                    begin_attempt(status);
                    self.phase = Phase::Attempting;
                    Order::Attempt
                } else {
                    self.phase = Phase::Stopped;
                    Order::Stop
                }
            },
            Turn::Ended { auth_failed, lived_ns } => {
                if self.phase != Phase::Attempting {
                    self.phase = Phase::Stopped;
                    Order::Stop
                } else if cancelled {
                    status.granted_hostnames = Vec::new();
                    status.granted_ports = Vec::new();
                    assert(status@.hostnames =~= Seq::<Seq<char>>::empty());
                    self.phase = Phase::Stopped;
                    Order::Stop
                } else {
                    let secs: u64 = self.pacer.after_attempt(auth_failed, lived_ns, status);
                    self.phase = Phase::Idle;
                    Order::Pause { secs }
                }
            },
            Turn::Cancelled => {
                self.phase = Phase::Stopped;
                Order::Stop
            },
        }
    }
}

/// A supervisor after a list of turns, each with whether it was cancelled by
/// then; the status does not matter to it.
pub open spec fn after_turns(sup: Supervisor, turns: Seq<(Turn, bool)>, s: StatusView) -> (
    Supervisor,
    StatusView,
)
    decreases turns.len(),
{
    if turns.len() == 0 {
        (sup, s)
    } else {
        let (before, t) = after_turns(sup, turns.drop_last(), s);
        let (next, u, _) = before.after(turns.last().0, turns.last().1, t);
        (next, u)
    }
}

/// Once the supervisor was cancelled no further attempt starts: the turn at
/// which it learns of it stops it, and so does every turn after that.
pub proof fn no_attempt_after_cancel(
    sup: Supervisor,
    s: StatusView,
    told: Turn,
    cancelled: bool,
    turns: Seq<(Turn, bool)>,
    next: Turn,
    late: bool,
)
    requires
        cancelled || told == Turn::Cancelled,
    ensures
        sup.after(told, cancelled, s).2 == Order::Stop,
        ({
            let (stopped, t, _) = sup.after(told, cancelled, s);
            let (then, u) = after_turns(stopped, turns, t);
            then.phase == Phase::Stopped && then.pacer == sup.pacer && then.after(next, late, u).2
                == Order::Stop
        }),
    decreases turns.len(),
{
    if turns.len() > 0 {
        no_attempt_after_cancel(sup, s, told, cancelled, turns.drop_last(), next, late);
    }
}

/// The pacer after attempts that ended so, each refused or not and after this
/// long.
pub open spec fn after_attempts(ends: Seq<(bool, u128)>) -> Pacer
    decreases ends.len(),
{
    if ends.len() == 0 {
        Pacer { backoff_secs: 1, reconnects: 0 }
    } else {
        paced(after_attempts(ends.drop_last()), ends.last().0, ends.last().1).0
    }
}

/// The turns of attempts that ended so, none cancelled.
pub open spec fn attempts(ends: Seq<(bool, u128)>) -> Seq<(Turn, bool)>
    decreases ends.len(),
{
    if ends.len() == 0 {
        seq![]
    } else {
        attempts(ends.drop_last()) + seq![
            (Turn::Ready, false),
            (Turn::Ended { auth_failed: ends.last().0, lived_ns: ends.last().1 }, false),
        ]
    }
}

/// Left alone, the supervisor attempts again after every end. After as many
/// attempts as there were it counts as many, holds no grant, and shows whether
/// the last token was refused; the pause before the next attempt is that of a
/// refused token, or else the back-off, which begins at a second, starts over
/// after a connection that lived, and doubles up to a minute. `ends` are the
/// attempts before the last, and `last` is how that one ended; it left the
/// status as `left`.
pub proof fn attempts_are_paced(
    ends: Seq<(bool, u128)>,
    last: (bool, u128),
    s: StatusView,
    left: StatusView,
)
    requires
        ends.len() < u32::MAX,
    ensures
        ({
            let start = Supervisor {
                phase: Phase::Idle,
                pacer: Pacer { backoff_secs: 1, reconnects: 0 },
            };
            let (sup, t) = after_turns(start, attempts(ends), s);
            let (busy, u, first) = sup.after(Turn::Ready, false, t);
            let (idle, w, order) = busy.after(
                Turn::Ended { auth_failed: last.0, lived_ns: last.1 },
                false,
                left,
            );
            let b = if last.1 > STABLE_RESET * 1_000_000_000 {
                1u64
            } else {
                sup.pacer.backoff_secs
            };
            &&& first == Order::Attempt
            &&& u.state == ConnState::Connecting
            &&& sup.pacer == after_attempts(ends)
            &&& 1 <= sup.pacer.backoff_secs <= BACKOFF_MAX
            &&& order == Order::Pause {
                secs: if last.0 {
                    BACKOFF_AUTH
                } else {
                    b
                },
            }
            &&& idle.pacer.backoff_secs == (if last.0 {
                sup.pacer.backoff_secs as int
            } else if 2 * b <= BACKOFF_MAX {
                2 * b
            } else {
                BACKOFF_MAX as int
            })
            &&& idle.phase == Phase::Idle
            &&& idle.pacer.reconnects == ends.len() + 1
            &&& w.reconnects == ends.len() + 1
            &&& w.hostnames == Seq::<Seq<char>>::empty()
            &&& w.ports == Seq::<u16>::empty()
            &&& w.state == (if last.0 {
                ConnState::AuthFailed
            } else {
                left.state
            })
        }),
    decreases ends.len(),
{
    let start = Supervisor {
        phase: Phase::Idle,
        pacer: Pacer { backoff_secs: 1, reconnects: 0 },
    };
    if ends.len() > 0 {
        let before = ends.drop_last();
        attempts_are_paced(before, ends.last(), s, left);
        let all = attempts(ends);
        assert(all.drop_last().drop_last() =~= attempts(before));
        assert(all.drop_last().last() == (Turn::Ready, false));
        assert(after_turns(start, all, s) == {
            let (sup, t) = after_turns(start, attempts(before), s);
            let (busy, u, _) = sup.after(Turn::Ready, false, t);
            let (idle, w, _) = busy.after(
                Turn::Ended { auth_failed: ends.last().0, lived_ns: ends.last().1 },
                false,
                u,
            );
            (idle, w)
        }) by {
            reveal_with_fuel(after_turns, 3);
        }
    }
}

/// The pause stays within a second and a minute, doubles until it gets there,
/// and starts over after a connection that lived.
pub proof fn backoff_is_bounded(p: Pacer, lived_ns: u128)
    requires
        1 <= p.backoff_secs <= BACKOFF_MAX,
    ensures
        1 <= paced(p, false, lived_ns).0.backoff_secs <= BACKOFF_MAX,
        1 <= paced(p, false, lived_ns).1 <= BACKOFF_MAX,
        lived_ns > STABLE_RESET * 1_000_000_000 ==> paced(p, false, lived_ns).1 == 1,
        lived_ns <= STABLE_RESET * 1_000_000_000 ==> paced(p, false, lived_ns).1 == p.backoff_secs,
        paced(p, true, lived_ns).0.backoff_secs == p.backoff_secs,
        paced(p, true, lived_ns).1 == BACKOFF_AUTH,
{
}

/// A refused token is the only way an attempt ends in an authentication error,
/// and it always does.
pub proof fn auth_error_means_refused_token(f: FrameView)
    ensures
        hello_fault(f) == Some(ConnErrorView::Auth) <==> f is Denied && f->Denied_code
            == DenyCode::AuthFailed,
{
}

/// Whatever the relay answers, an attempt that goes live went through a welcome,
/// and claims exactly what the configuration names.
pub proof fn claims_follow_a_welcome(
    a: Attempt,
    h: Happened,
    host: Seq<char>,
    token: Seq<char>,
    agent: Seq<char>,
    claim: Option<FrameView>,
    s: StatusView,
)
    ensures
        match a.after(h, host, token, agent, claim, s).2 {
            ActView::SendClaim(c) => a.stage == Stage::Hello && h is Reply && h->Reply_0@
                is Welcome && claim == Some(c),
            ActView::GoLive => (a.stage == Stage::Hello && h is Reply && h->Reply_0@ is Welcome
                && claim is None) || a.stage == Stage::Claim,
            ActView::SendHello(f) => a.stage == Stage::OpenControl && f == hello(token, agent),
            _ => true,
        },
{
}

/// A configured HTTP tunnel that is the last with its hostname is where that
/// hostname leads: to the tunnel's own local host and port. Nothing else is
/// routed.
pub proof fn http_route_leads_to_its_service(v: Seq<HttpTunnel>, host: Seq<char>, i: int)
    requires
        0 <= i <= v.len(),
        forall|j: int| i < j < v.len() ==> (#[trigger] v[j]).hostname@ != host,
        i < v.len() ==> v[i].hostname@ == host,
        i == v.len() ==> forall|j: int| 0 <= j < v.len() ==> (#[trigger] v[j]).hostname@ != host,
    ensures
        http_routes(v).dom().contains(host) == (i < v.len()),
        i < v.len() ==> http_routes(v)[host].host == v[i].local_host@ && http_routes(v)[host].port
            == v[i].local_port,
    decreases v.len(),
{
    if v.len() > 0 {
        let rest = v.drop_last();
        if i != v.len() - 1 {
            assert(v[v.len() - 1].hostname@ != host);
            let k = if i == v.len() {
                rest.len() as int
            } else {
                i
            };
            assert forall|j: int| 0 <= j < rest.len() && (k < j || i == v.len()) implies (
            #[trigger] rest[j]).hostname@ != host by {
                assert(v[j].hostname@ != host);
            }
            http_route_leads_to_its_service(rest, host, k);
        }
    }
}

/// A configured TCP tunnel that is the last with its public port is where that
/// port leads: to the tunnel's own local host and port. Nothing else is routed.
pub proof fn tcp_route_leads_to_its_service(v: Seq<TcpTunnel>, port: u16, i: int)
    requires
        0 <= i <= v.len(),
        forall|j: int| i < j < v.len() ==> (#[trigger] v[j]).public_port != port,
        i < v.len() ==> v[i].public_port == port,
        i == v.len() ==> forall|j: int| 0 <= j < v.len() ==> (#[trigger] v[j]).public_port != port,
    ensures
        tcp_routes(v).dom().contains(port) == (i < v.len()),
        i < v.len() ==> tcp_routes(v)[port].host == v[i].local_host@ && tcp_routes(v)[port].port
            == v[i].local_port,
    decreases v.len(),
{
    if v.len() > 0 {
        let rest = v.drop_last();
        if i != v.len() - 1 {
            assert(v[v.len() - 1].public_port != port);
            let k = if i == v.len() {
                rest.len() as int
            } else {
                i
            };
            assert forall|j: int| 0 <= j < rest.len() && (k < j || i == v.len()) implies (
            #[trigger] rest[j]).public_port != port by {
                assert(v[j].public_port != port);
            }
            tcp_route_leads_to_its_service(rest, port, k);
        }
    }
}

/// A daemon claims exactly the hostnames and public ports it has tunnels for,
/// in their order, and each of them is routed; with no tunnels it claims
/// nothing.
pub proof fn claim_covers_every_tunnel(http: Seq<HttpTunnel>, tcp: Seq<TcpTunnel>, i: int)
    ensures
        claim_of(http, tcp) is None <==> http.len() == 0 && tcp.len() == 0,
        claim_of(http, tcp) matches Some(f) ==> (f matches FrameView::Claim { hostnames, tcp_ports }
            && hostnames.len() == http.len() && tcp_ports.len() == tcp.len() && (0 <= i < http.len()
            ==> hostnames[i] == http[i].hostname@ && http_routes(http).dom().contains(
            hostnames[i],
        )) && (0 <= i < tcp.len() ==> tcp_ports[i] == tcp[i].public_port && tcp_routes(
            tcp,
        ).dom().contains(tcp_ports[i]))),
{
    if 0 <= i < http.len() {
        lemma_http_routed(http, i);
    }
    if 0 <= i < tcp.len() {
        lemma_tcp_routed(tcp, i);
    }
}

proof fn lemma_http_routed(v: Seq<HttpTunnel>, i: int)
    requires
        0 <= i < v.len(),
    ensures
        http_routes(v).dom().contains(v[i].hostname@),
    decreases v.len(),
{
    if i < v.len() - 1 {
        lemma_http_routed(v.drop_last(), i);
    }
}

proof fn lemma_tcp_routed(v: Seq<TcpTunnel>, i: int)
    requires
        0 <= i < v.len(),
    ensures
        tcp_routes(v).dom().contains(v[i].public_port),
    decreases v.len(),
{
    if i < v.len() - 1 {
        lemma_tcp_routed(v.drop_last(), i);
    }
}

/// A daemon introduces itself with its token and every version it speaks.
pub proof fn hello_offers_every_version(token: Seq<char>, agent: Seq<char>)
    ensures
        hello(token, agent) matches FrameView::Hello {
            token: t,
            agent_version,
            proto_min,
            proto_max,
        } && t == token && agent_version == agent && proto_min == 1 && proto_max
            == PROTOCOL_VERSION,
        connect_name(token) == "connect."@ + token,
{
}

/// An attempt goes through its stages one by one: each that succeeds leads to
/// the next, in this order, and the `Hello` is sent once the control stream is
/// open. One that fails ends the attempt, and the error says where: reaching
/// the relay is I/O, everything about trust, names and protocol is setup.
pub proof fn attempt_goes_stage_by_stage(
    a: Attempt,
    host: Seq<char>,
    token: Seq<char>,
    agent: Seq<char>,
    claim: Option<FrameView>,
    s: StatusView,
    why: String,
)
    ensures
        ({
            let order = seq![
                Stage::Resolve,
                Stage::Dial,
                Stage::Trust,
                Stage::Name,
                Stage::Tls,
                Stage::Upgrade,
                Stage::OpenControl,
                Stage::Hello,
            ];
            forall|i: int|
                0 <= i < 7 && a.stage == #[trigger] order[i] ==> {
                    let (good, t, act) = a.after(Happened::Good, host, token, agent, claim, s);
                    let (bad, u, end) = a.after(Happened::Failed(why), host, token, agent, claim, s);
                    let (lost, w, none) = a.after(
                        Happened::NoAddress,
                        host,
                        token,
                        agent,
                        claim,
                        s,
                    );
                    &&& good.stage == order[i + 1] && good.nonce == a.nonce && t == s
                    &&& act == (if i == 6 {
                        ActView::SendHello(hello(token, agent))
                    } else {
                        ActView::Work
                    })
                    &&& bad.stage == Stage::Over && u == s
                    &&& end is End && (i == 0 || i == 1 || i == 4 ==> end->End_0
                        == ConnErrorView::Io(why@)) && (i == 2 || i == 3 || i == 5 || i == 6
                        ==> end->End_0 is Setup)
                    &&& lost.stage == Stage::Over && w == s && none == ActView::End(
                        ConnErrorView::Setup("no address for "@ + host),
                    )
                }
        }),
{
}

/// The answer to a claim leaves the daemon connected, with exactly what was
/// granted; a denial leaves it connected with what it had. Any other answer
/// ends the attempt.
pub proof fn granted_claim_is_taken_over(
    a: Attempt,
    f: ControlFrame,
    host: Seq<char>,
    token: Seq<char>,
    agent: Seq<char>,
    claim: Option<FrameView>,
    s: StatusView,
)
    requires
        a.stage == Stage::Claim,
    ensures
        ({
            let (next, t, act) = a.after(Happened::Reply(f), host, token, agent, claim, s);
            match f@ {
                FrameView::Granted { hostnames, tcp_ports } => next.stage == Stage::Live && act
                    == ActView::GoLive && t.state == ConnState::Connected && t.hostnames
                    == hostnames && t.ports == tcp_ports && t.reconnects == s.reconnects,
                FrameView::Denied { .. } => next.stage == Stage::Live && act == ActView::GoLive
                    && t.state == ConnState::Connected && t.hostnames == s.hostnames && t.ports
                    == s.ports && t.reconnects == s.reconnects,
                _ => next.stage == Stage::Over && t == s && (act matches ActView::End(e)
                    && e is Protocol),
            }
        }),
{
}

/// A welcome leads on to the claim, or, with nothing to claim, to a live
/// connection; a refusal ends the attempt, with an error that says whether it
/// was the token.
pub proof fn welcome_leads_on(
    a: Attempt,
    f: ControlFrame,
    host: Seq<char>,
    token: Seq<char>,
    agent: Seq<char>,
    claim: Option<FrameView>,
    s: StatusView,
)
    requires
        a.stage == Stage::Hello,
    ensures
        ({
            let (next, t, act) = a.after(Happened::Reply(f), host, token, agent, claim, s);
            match f@ {
                FrameView::Welcome { .. } => match claim {
                    Some(c) => next.stage == Stage::Claim && act == ActView::SendClaim(c) && t == s,
                    None => next.stage == Stage::Live && act == ActView::GoLive && t == (
                    StatusView { state: ConnState::Connected, ..s }),
                },
                FrameView::Denied { code, .. } => next.stage == Stage::Over && t == s && (
                act matches ActView::End(e) && if code == DenyCode::AuthFailed {
                    e == ConnErrorView::Auth
                } else {
                    e is Protocol
                }),
                _ => next.stage == Stage::Over && t == s && (act matches ActView::End(e)
                    && e is Protocol),
            }
        }),
{
}

/// A live connection beats with a new number each time, says goodbye when it is
/// cancelled and ends when the relay falls silent or the stream breaks; the
/// status is left alone.
pub proof fn live_connection_beats(
    a: Attempt,
    h: Happened,
    host: Seq<char>,
    token: Seq<char>,
    agent: Seq<char>,
    claim: Option<FrameView>,
    s: StatusView,
)
    requires
        a.stage == Stage::Live,
    ensures
        ({
            let (next, t, act) = a.after(h, host, token, agent, claim, s);
            &&& t == s
            &&& act matches ActView::Ping(n) ==> h is Beat && n == next.nonce
            &&& h is Beat ==> act is Ping && next.stage == Stage::Live && next.nonce != a.nonce
                && (a.nonce < u64::MAX ==> next.nonce == a.nonce + 1)
            &&& act == ActView::Goodbye <==> h is Cancelled
            &&& h is Dead || h is Codec ==> act == ActView::End(ConnErrorView::Disconnected)
            &&& next.stage == Stage::Over <==> h is Cancelled || h is Dead || h is Codec
        }),
{
}

/// Pauses between attempts double from one second up to a minute and begin
/// anew after a connection that held for over half a minute; a refused token
/// pauses five minutes and keeps the step. Every attempt is counted.
pub proof fn pauses_double_up_to_a_minute(p: Pacer, lived_ns: u128)
    requires
        1 <= p.backoff_secs <= 60,
        p.reconnects < u32::MAX,
    ensures
        ({
            let (q, secs) = paced(p, false, lived_ns);
            let (refused, long) = paced(p, true, lived_ns);
            &&& secs == (if lived_ns > 30_000_000_000 {
                1
            } else {
                p.backoff_secs
            })
            &&& q.backoff_secs == (if 2 * secs < 60 {
                2 * secs
            } else {
                60
            })
            &&& q.reconnects == p.reconnects + 1
            &&& long == 300
            &&& refused.backoff_secs == p.backoff_secs
            &&& refused.reconnects == p.reconnects + 1
        }),
{
}

} // verus!
