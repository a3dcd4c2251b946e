//! One daemon session: its actor, handshake and control protocol.
//!
//! The multiplexed connection, the timers and the sockets belong to the program
//! around this module. Here are the decisions: what the actor does on each
//! event, how a `Hello` is answered, what a re-validation tick concludes, and
//! how claims, releases and owned-set requests are answered.
use vstd::prelude::*;

use crate::proto::frames;
use crate::proto::frames::{ControlFrame, DenyCode, ErrorCode, FrameView, ResourceView};
use crate::proto::limits::{
    HEARTBEAT_INTERVAL, HELLO_TIMEOUT, MAX_CLAIM_ENTRIES, SESSION_DEAD_AFTER, TOKEN_REVALIDATE_INTERVAL,
};
use crate::relay::auth;
use crate::relay::auth::{Authenticator, AuthedUser, ClaimOutcome, ClaimView};
use crate::relay::cap;
use crate::relay::cap::CapDecision;
use crate::relay::ledger::WhoView;
use crate::relay::router;
use crate::relay::router::{Router, RouterView, SessionHandle};
use crate::text;
use crate::PROTOCOL_VERSION;

verus! {

/// Why opening a data stream to the daemon failed.
#[derive(Clone, Copy, Debug, PartialEq, Eq, Structural)]
pub enum OpenError {
    /// The session is gone.
    SessionClosed,
    /// The actor did not produce the stream in time.
    Timeout,
    /// The multiplexer refused.
    Mux,
}

/// What wakes the session actor.
#[derive(Clone, Copy, Debug, PartialEq, Eq, Structural)]
pub enum SessionEvent {
    /// The relay shuts down or the control task ended.
    Cancelled,
    /// The time for opening the control stream is over.
    Deadline,
    /// The daemon opened a stream.
    Inbound,
    /// The connection failed or was closed.
    Closed,
    /// A data stream is asked for.
    Command,
    /// The stream asked for is open.
    Opened,
    /// The stream asked for could not be opened.
    OpenFailed,
}

/// What the session actor does next.
#[derive(Clone, Copy, Debug, PartialEq, Eq, Structural)]
pub enum SessionAction {
    /// Wait for the next event.
    Wait,
    /// Tear the session down.
    Stop,
    /// Run the control protocol on the stream.
    StartControl,
    /// Keep the command and open a stream for it.
    Hold,
    /// Hand the stream to the one who asked, after its header.
    HandOver,
    /// Tell the one who asked that the multiplexer refused.
    Refuse,
}

/// State of the session actor.
#[derive(Clone, Copy, Debug, PartialEq, Eq, Structural)]
pub struct SessionState {
    pub control_started: bool,
    pub opening: bool,
}

impl SessionState {
    /// A session whose control stream is not open yet.
    pub fn new() -> (r: Self)
        ensures
            r == (SessionState { control_started: false, opening: false }),
    {
        SessionState { control_started: false, opening: false }
    }

    /// The control deadline counts until the control stream is open.
    pub fn deadline_armed(&self) -> (r: bool)
        ensures
            r == !self.control_started,
    {
        !self.control_started
    }

    /// One command is served at a time.
    pub fn accepts_command(&self) -> (r: bool)
        ensures
            r == !self.opening,
    {
        !self.opening
    }

    /// The step of the actor.
    pub open spec fn after(self, e: SessionEvent) -> (Self, SessionAction) {
        match e {
            SessionEvent::Cancelled => (self, SessionAction::Stop),
            SessionEvent::Deadline => if self.control_started {
                (self, SessionAction::Wait)
            } else {
                (self, SessionAction::Stop)
            },
            SessionEvent::Inbound => if self.control_started {
                (self, SessionAction::Stop)
            } else {
                (SessionState { control_started: true, ..self }, SessionAction::StartControl)
            },
            SessionEvent::Closed => (self, SessionAction::Stop),
            SessionEvent::Command => (SessionState { opening: true, ..self }, SessionAction::Hold),
            SessionEvent::Opened => if self.opening {
                (SessionState { opening: false, ..self }, SessionAction::HandOver)
            } else {
                (self, SessionAction::Wait)
            },
            SessionEvent::OpenFailed => if self.opening {
                (SessionState { opening: false, ..self }, SessionAction::Refuse)
            } else {
                (self, SessionAction::Wait)
            },
        }
    }

    /// React to an event. The daemon opens exactly one stream; a second one is
    /// a protocol violation and ends the session.
    pub fn step(&mut self, e: SessionEvent) -> (r: SessionAction)
        ensures
            (*final(self), r) == old(self).after(e),
    {
        match e {
            SessionEvent::Cancelled => SessionAction::Stop,
            SessionEvent::Deadline => if self.control_started {
                SessionAction::Wait
            } else {
                SessionAction::Stop
            },
            SessionEvent::Inbound => if self.control_started {
                SessionAction::Stop
            } else {
                self.control_started = true;
                SessionAction::StartControl
            },
            SessionEvent::Closed => SessionAction::Stop,
            SessionEvent::Command => {
                self.opening = true;
                SessionAction::Hold
            },
            SessionEvent::Opened => if self.opening {
                self.opening = false;
                SessionAction::HandOver
            } else {
                SessionAction::Wait
            },
            SessionEvent::OpenFailed => if self.opening {
                self.opening = false;
                SessionAction::Refuse
            } else {
                SessionAction::Wait
            },
        }
    }
}

/// State shared by all sessions of a relay.
pub struct SessionCtx {
    server_version: String,
    revalidate_ms: u64,
    next_session_id: u64,
}

impl SessionCtx {
    /// Milliseconds between two re-validations of a session's token; 0 means
    /// never.
    pub closed spec fn interval_ms(&self) -> u64 {
        self.revalidate_ms
    }

    /// What the relay calls itself in a welcome.
    pub closed spec fn name(&self) -> Seq<char> {
        self.server_version@
    }

    /// The id the next session gets.
    pub closed spec fn upcoming(&self) -> u64 {
        self.next_session_id
    }

    pub fn new(server_version: String) -> (r: Self)
        ensures
            r.name() == server_version@,
            r.interval_ms() == 1000 * TOKEN_REVALIDATE_INTERVAL,
            r.upcoming() == 1,
    {
        SessionCtx {
            server_version,
            revalidate_ms: 1000 * TOKEN_REVALIDATE_INTERVAL,
            next_session_id: 1,
        }
    }

    /// Set the token re-validation cadence in seconds; 0 disables it.
    pub fn set_token_revalidate_interval_secs(&mut self, secs: u64)
        ensures
            final(self).interval_ms() == (if secs * 1000 <= u64::MAX {
                secs * 1000
            } else {
                u64::MAX as int
            }),
            final(self).upcoming() == old(self).upcoming(),
            final(self).name() == old(self).name(),
    {
        self.revalidate_ms = match secs.checked_mul(1000) {
            Some(ms) => ms,
            None => u64::MAX,
        };
    }

    /// What the relay calls itself in a welcome.
    pub fn version(&self) -> (r: &str)
        ensures
            r@ == self.name(),
    {
        self.server_version.as_str()
    }

    /// Milliseconds between two re-validations; 0 means never.
    pub fn token_revalidate_interval(&self) -> (r: u64)
        ensures
            r == self.interval_ms(),
    {
        self.revalidate_ms
    }

    /// The period of the re-validation timer in milliseconds, or `None` when
    /// re-validation is off.
    pub fn tick_period_ms(&self) -> (r: Option<u64>)
        ensures
            r == (if self.interval_ms() == 0 {
                None
            } else {
                Some(self.interval_ms())
            }),
    {
        if self.revalidate_ms == 0 {
            None
        } else {
            Some(self.revalidate_ms)
        }
    }

    /// A fresh session id. Ids come in order and start over after the largest.
    pub fn next_id(&mut self) -> (r: u64)
        ensures
            r == old(self).upcoming(),
            final(self).upcoming() == (if r == u64::MAX {
                0
            } else {
                r + 1
            }),
            final(self).interval_ms() == old(self).interval_ms(),
            final(self).name() == old(self).name(),
    {
        let id: u64 = self.next_session_id;
        self.next_session_id = if id == u64::MAX {
            0
        } else {
            id + 1
        };
        id
    }
}

/// The version two ends agree on: the highest both support, if there is one.
pub open spec fn agreed(peer_min: u16, peer_max: u16) -> Option<u16> {
    let v = if peer_max < PROTOCOL_VERSION {
        peer_max
    } else {
        PROTOCOL_VERSION
    };
    if v >= peer_min && v >= 1 {
        Some(v)
    } else {
        None
    }
}

/// Pick the highest protocol version we and the peer both support, if any.
pub fn negotiate(peer_min: u16, peer_max: u16) -> (r: Option<u16>)
    ensures
        r == agreed(peer_min, peer_max),
{
    let v: u16 = if peer_max < PROTOCOL_VERSION {
        peer_max
    } else {
        PROTOCOL_VERSION
    };
    if v >= peer_min && v >= 1 {
        Some(v)
    } else {
        None
    }
}

/// A version both ends speak.
pub open spec fn common(peer_min: u16, peer_max: u16, v: u16) -> bool {
    1 <= v <= PROTOCOL_VERSION && peer_min <= v <= peer_max
}

/// The agreed version is within the peer's range and ours, and no higher one
/// is.
pub proof fn agreed_is_the_highest_common(peer_min: u16, peer_max: u16)
    ensures
        match agreed(peer_min, peer_max) {
            Some(v) => {
                &&& common(peer_min, peer_max, v)
                &&& forall|w: u16| common(peer_min, peer_max, w) ==> w <= v
            },
            None => forall|w: u16| !common(peer_min, peer_max, w),
        },
{
}

/// What a `Hello` asks for, once it is well-formed.
pub struct HelloRequest {
    pub token: String,
    pub proto: u16,
}

/// The denial of a frame that should have been a well-formed `Hello`.
pub open spec fn hello_fault(frame: FrameView) -> Option<FrameView> {
    match frame {
        FrameView::Hello { token, agent_version, proto_min, proto_max } => if agreed(
            proto_min,
            proto_max,
        ) is None {
            Some(
                FrameView::Denied {
                    code: DenyCode::VersionUnsupported,
                    message: "relay speaks protocol "@ + text::decimal(PROTOCOL_VERSION as nat),
                },
            )
        } else {
            None
        },
        _ => Some(
            FrameView::Denied { code: DenyCode::ProtocolError, message: "expected Hello"@ },
        ),
    }
}

/// Read the first frame of a daemon: a `Hello` of a version we speak, or the
/// denial to send.
pub fn read_hello(frame: ControlFrame) -> (r: Result<HelloRequest, ControlFrame>)
    ensures
        match r {
            Ok(h) => hello_fault(frame@) is None && (match frame@ {
                FrameView::Hello { token, agent_version, proto_min, proto_max } => h.token@ == token
                    && agreed(proto_min, proto_max) == Some(h.proto),
                _ => false,
            }),
            Err(f) => hello_fault(frame@) == Some(f@),
        },
{
    match frame {
        ControlFrame::Hello { token, agent_version: _, proto_min, proto_max } => match negotiate(
            proto_min,
            proto_max,
        ) {
            Some(proto) => Ok(HelloRequest { token: token.0, proto }),
            None => {
                let v = text::decimal_u64(PROTOCOL_VERSION as u64);
                Err(
                    frames::denied(
                        DenyCode::VersionUnsupported,
                        text::join2("relay speaks protocol ", v.as_str()),
                    ),
                )
            },
        },
        _ => Err(frames::denied(DenyCode::ProtocolError, "expected Hello".to_owned())),
    }
}

/// The answer to a well-formed `Hello`.
pub open spec fn hello_answer(
    who: Option<WhoView>,
    proto: u16,
    server_version: Seq<char>,
    session_id: u64,
) -> FrameView {
    match who {
        Some(_) => FrameView::Welcome { proto, server_version, session_id },
        None => FrameView::Denied {
            code: DenyCode::AuthFailed,
            message: "authentication failed"@,
        },
    }
}

/// The answer to a well-formed `Hello`: a welcome for a user, and one and the
/// same denial for every credential that is none.
pub fn answer_hello(
    who: &Option<AuthedUser>,
    proto: u16,
    server_version: &str,
    session_id: u64,
) -> (r: ControlFrame)
    ensures
        r@ == hello_answer(auth::who_view(*who), proto, server_version@, session_id),
{
    match who {
        Some(_) => ControlFrame::Welcome {
            proto,
            server_version: server_version.to_owned(),
            session_id,
        },
        None => frames::denied(DenyCode::AuthFailed, "authentication failed".to_owned()),
    }
}

/// The outcome of a handshake: the frame to send, and the session's user when
/// it was welcomed.
pub struct Handshake {
    pub reply: ControlFrame,
    pub user: Option<AuthedUser>,
}

/// The handshake on the first frame of a daemon.
pub fn handshake<A: Authenticator>(
    auth: &A,
    frame: ControlFrame,
    server_version: &str,
    session_id: u64,
) -> (r: Handshake)
    requires
        auth.inv(),
    ensures
        match hello_fault(frame@) {
            Some(f) => r.reply@ == f && r.user is None,
            None => match frame@ {
                FrameView::Hello { token, agent_version, proto_min, proto_max } => {
                    &&& auth::who_view(r.user) == A::who(auth@, token)
                    &&& r.reply@ == hello_answer(
                        A::who(auth@, token),
                        agreed(proto_min, proto_max)->0,
                        server_version@,
                        session_id,
                    )
                },
                _ => false,
            },
        },
{
    match read_hello(frame) {
        Err(f) => Handshake { reply: f, user: None },
        Ok(h) => {
            let user = auth.authenticate(h.token.as_str());
            let reply = answer_hello(&user, h.proto, server_version, session_id);
            Handshake { reply, user }
        },
    }
}

/// What a re-validation tick concludes: the terminal denial, or `None` for a
/// session that goes on.
pub open spec fn tick_verdict(now_who: Option<WhoView>, user_id: i64, cap: CapDecision) -> Option<
    FrameView,
> {
    if now_who is None || now_who->0.user_id != user_id {
        Some(FrameView::Denied { code: DenyCode::AuthFailed, message: "token revoked"@ })
    } else if cap == CapDecision::DenyAll {
        Some(
            FrameView::Denied {
                code: DenyCode::LimitExceeded,
                message: "subscription lapsed or suspended"@,
            },
        )
    } else {
        None
    }
}

/// Re-validate a live session: `who` is whom its token belongs to now. A token
/// that is gone or belongs to another user ends the session, and so does a
/// lapsed plan.
pub fn revalidate(who: &Option<AuthedUser>, user_id: i64, decision: CapDecision) -> (r: Option<
    ControlFrame,
>)
    ensures
        match r {
            Some(f) => tick_verdict(auth::who_view(*who), user_id, decision) == Some(f@),
            None => tick_verdict(auth::who_view(*who), user_id, decision) is None,
        },
{
    let same_user = match who {
        Some(u) => u.user_id == user_id,
        None => false,
    };
    if !same_user {
        return Some(frames::denied(DenyCode::AuthFailed, "token revoked".to_owned()));
    }
    match decision {
        CapDecision::DenyAll => Some(
            frames::denied(DenyCode::LimitExceeded, "subscription lapsed or suspended".to_owned()),
        ),
        _ => None,
    }
}

/// How far the control protocol of a session is.
#[derive(Clone, Copy, Debug, PartialEq, Eq, Structural)]
pub enum ControlStage {
    /// The preamble is due.
    Preamble,
    /// The `Hello` is due.
    Hello,
    /// The session is established.
    Live,
}

/// How waiting for the daemon's next bytes went.
#[derive(Clone, Copy, Debug, PartialEq, Eq, Structural)]
pub enum ReadOutcome {
    /// They came.
    Got,
    /// They did not come in time.
    TimedOut,
    /// The stream ended.
    Eof,
    /// Reading failed, or what came was malformed.
    Failed,
}

/// What the control protocol does after a read.
#[derive(Clone, Copy, Debug, PartialEq, Eq, Structural)]
pub enum ReadNext {
    /// Handle what came.
    Handle,
    /// End the session quietly.
    End,
    /// End the session with the read's error.
    Fail,
}

impl ControlStage {
    /// The seconds the daemon has to send what is due.
    pub open spec fn patience(self) -> u64 {
        match self {
            ControlStage::Preamble => HELLO_TIMEOUT,
            ControlStage::Hello => HELLO_TIMEOUT,
            ControlStage::Live => SESSION_DEAD_AFTER,
        }
    }

    /// The seconds the daemon has to send what is due: the handshake timeout,
    /// then the heartbeat dead-man.
    pub fn read_timeout_secs(&self) -> (r: u64)
        ensures
            r == self.patience(),
    {
        match self {
            ControlStage::Live => SESSION_DEAD_AFTER,
            _ => HELLO_TIMEOUT,
        }
    }

    /// What follows a read: silence ends the session, and so does the end of
    /// the stream, which is an error only within the handshake.
    pub open spec fn after(self, o: ReadOutcome) -> ReadNext {
        match o {
            ReadOutcome::Got => ReadNext::Handle,
            ReadOutcome::TimedOut => ReadNext::End,
            ReadOutcome::Eof => if self == ControlStage::Live {
                ReadNext::End
            } else {
                ReadNext::Fail
            },
            ReadOutcome::Failed => ReadNext::Fail,
        }
    }

    /// What follows a read.
    pub fn after_read(&self, outcome: ReadOutcome) -> (r: ReadNext)
        ensures
            r == self.after(outcome),
    {
        match outcome {
            ReadOutcome::Got => ReadNext::Handle,
            ReadOutcome::TimedOut => ReadNext::End,
            ReadOutcome::Eof => match self {
                ControlStage::Live => ReadNext::End,
                _ => ReadNext::Fail,
            },
            ReadOutcome::Failed => ReadNext::Fail,
        }
    }
}

/// What to do with a frame of an established session.
pub enum FrameAction {
    /// Send this.
    Reply(ControlFrame),
    /// Handle a claim.
    Claim { hostnames: Vec<String>, tcp_ports: Vec<u16> },
    /// Handle a release.
    Release { hostnames: Vec<String>, tcp_ports: Vec<u16> },
    /// Answer with the owned set.
    ListOwned,
    /// End the session.
    End,
    /// Do nothing.
    Ignore,
}

/// View of a [`FrameAction`].
pub enum ActionView {
    Reply(FrameView),
    Claim { hostnames: Seq<Seq<char>>, tcp_ports: Seq<u16> },
    Release { hostnames: Seq<Seq<char>>, tcp_ports: Seq<u16> },
    ListOwned,
    End,
    Ignore,
}

impl View for FrameAction {
    type V = ActionView;

    open spec fn view(&self) -> ActionView {
        match self {
            FrameAction::Reply(f) => ActionView::Reply(f@),
            FrameAction::Claim { hostnames, tcp_ports } => ActionView::Claim {
                hostnames: frames::names(hostnames@),
                tcp_ports: tcp_ports@,
            },
            FrameAction::Release { hostnames, tcp_ports } => ActionView::Release {
                hostnames: frames::names(hostnames@),
                tcp_ports: tcp_ports@,
            },
            FrameAction::ListOwned => ActionView::ListOwned,
            FrameAction::End => ActionView::End,
            FrameAction::Ignore => ActionView::Ignore,
        }
    }
}

/// How a frame of an established session is treated.
pub open spec fn treatment(frame: FrameView) -> ActionView {
    match frame {
        FrameView::Ping { nonce } => ActionView::Reply(FrameView::Pong { nonce }),
        FrameView::Claim { hostnames, tcp_ports } => ActionView::Claim { hostnames, tcp_ports },
        FrameView::Release { hostnames, tcp_ports } => ActionView::Release { hostnames, tcp_ports },
        FrameView::ListOwned => ActionView::ListOwned,
        FrameView::Goodbye => ActionView::End,
        FrameView::Hello { .. } => ActionView::Reply(
            FrameView::Error { code: ErrorCode::MalformedClaim, message: "duplicate Hello"@ },
        ),
        _ => ActionView::Ignore,
    }
}

/// Sort out a frame of an established session. Frames that only the relay
/// sends are ignored.
pub fn on_frame(frame: ControlFrame) -> (r: FrameAction)
    ensures
        r@ == treatment(frame@),
{
    match frame {
        ControlFrame::Ping { nonce } => FrameAction::Reply(ControlFrame::Pong { nonce }),
        ControlFrame::Claim { hostnames, tcp_ports } => FrameAction::Claim { hostnames, tcp_ports },
        ControlFrame::Release { hostnames, tcp_ports } => FrameAction::Release {
            hostnames,
            tcp_ports,
        },
        ControlFrame::ListOwned => FrameAction::ListOwned,
        ControlFrame::Goodbye => FrameAction::End,
        ControlFrame::Hello { token: _, agent_version: _, proto_min: _, proto_max: _ } =>
            FrameAction::Reply(
            ControlFrame::Error {
                code: ErrorCode::MalformedClaim,
                message: "duplicate Hello".to_owned(),
            },
        ),
        _ => FrameAction::Ignore,
    }
}

/// Hostnames in lower case.
pub open spec fn lowered(hosts: Seq<Seq<char>>) -> Seq<Seq<char>> {
    hosts.map_values(|h: Seq<char>| text::lower(h))
}

fn lower_all(hosts: &Vec<String>) -> (r: Vec<String>)
    ensures
        frames::names(r@) == lowered(frames::names(hosts@)),
{
    let ghost hv = frames::names(hosts@);
    let mut out: Vec<String> = Vec::new();
    let mut i: usize = 0;
    assert(frames::names(out@) =~= lowered(hv).take(0));
    while i < hosts.len()
        invariant
            i <= hosts@.len(),
            hv == frames::names(hosts@),
            frames::names(out@) == lowered(hv).take(i as int),
        decreases hosts@.len() - i,
    {
        let ghost done = out@;
        let h = text::to_lower(hosts[i].as_str());
        out.push(h);
        i += 1;
        assert(frames::names(out@) =~= frames::names(done).push(h@));
        assert(frames::names(out@) =~= lowered(hv).take(i as int));
    }
    assert(lowered(hv).take(i as int) =~= lowered(hv));
    out
}

/// A denial.
pub open spec fn deny(code: DenyCode, message: Seq<char>) -> FrameView {
    FrameView::Denied { code, message }
}

/// What stands against claiming a port before it is bound.
pub open spec fn port_fault<A: Authenticator>(
    v: A::V,
    range: Option<(u16, u16)>,
    user: i64,
    port: u16,
) -> Option<FrameView> {
    match range {
        None => Some(
            deny(DenyCode::PortNotReserved, "tcp tunnels are not enabled on this relay"@),
        ),
        Some((low, high)) => if !(low <= port <= high) || !A::owns_tcp(v, user, port) {
            Some(
                deny(
                    DenyCode::PortNotReserved,
                    "port "@ + text::decimal(port as nat) + " not reserved"@,
                ),
            )
        } else {
            None
        },
    }
}

/// Where the ports of a claim stand, given how binding the first of them went.
pub enum PortsView {
    /// A port is refused.
    Refused(FrameView),
    /// This port is to be bound next.
    Bind(u16),
    /// All ports are bound.
    Bound,
}

/// How binding a port went: bound, or why not.
pub open spec fn bind_views(v: Seq<Option<String>>) -> Seq<Option<Seq<char>>> {
    v.map_values(
        |o: Option<String>|
            match o {
                Some(s) => Some(s@),
                None => None,
            },
    )
}

/// Walk the ports from `i`: each one is checked and then bound, and the first
/// that fails refuses the claim. `binds[k]` is how binding port `k` went: why
/// it failed, or `None` for success.
pub open spec fn walk_ports<A: Authenticator>(
    v: A::V,
    range: Option<(u16, u16)>,
    user: i64,
    ports: Seq<u16>,
    binds: Seq<Option<Seq<char>>>,
    i: int,
) -> PortsView
    decreases ports.len() - i,
{
    if i < 0 || i >= ports.len() {
        PortsView::Bound
    } else {
        match port_fault::<A>(v, range, user, ports[i]) {
            Some(f) => PortsView::Refused(f),
            None => if i >= binds.len() {
                PortsView::Bind(ports[i])
            } else {
                match binds[i] {
                    Some(why) => PortsView::Refused(
                        deny(
                            DenyCode::PortUnavailable,
                            "port "@ + text::decimal(ports[i] as nat) + " unavailable: "@ + why,
                        ),
                    ),
                    None => walk_ports::<A>(v, range, user, ports, binds, i + 1),
                }
            },
        }
    }
}

/// The denial of one hostname.
pub open spec fn host_fault(host: Seq<char>, out: ClaimView, max: Option<i64>) -> Option<FrameView> {
    match out {
        ClaimView::Owned => None,
        ClaimView::Taken => Some(deny(DenyCode::NotOwner, "not authorized for "@ + host)),
        ClaimView::CapExceeded => Some(
            limit_reached(
                match max {
                    Some(m) => m,
                    None => 0i64,
                },
            ),
        ),
        ClaimView::Invalid(why) => Some(
            deny(DenyCode::NotOwner, "cannot claim "@ + host + ": "@ + why),
        ),
        ClaimView::Error => Some(deny(DenyCode::NotOwner, "could not register "@ + host)),
    }
}

/// The denial of a claim over the plan's limit.
pub open spec fn limit_reached(max: i64) -> FrameView {
    deny(
        DenyCode::LimitExceeded,
        "tunnel limit reached ("@ + text::decimal_int(max as int)
            + "); upgrade your plan for more"@,
    )
}

/// Register the hostnames in order, stopping at the first refusal.
pub open spec fn register<A: Authenticator>(
    v: A::V,
    user: i64,
    hosts: Seq<Seq<char>>,
    max: Option<i64>,
    now: i64,
) -> (A::V, Option<FrameView>)
    decreases hosts.len(),
{
    if hosts.len() == 0 {
        (v, None)
    } else {
        let (w, fault) = register::<A>(v, user, hosts.drop_last(), max, now);
        if fault is Some {
            (w, fault)
        } else {
            let (x, out) = A::claim_step(w, user, hosts.last(), max, now);
            (x, host_fault(hosts.last(), out, max))
        }
    }
}

/// The cap a decision puts on owned resources.
pub open spec fn cap_of(decision: CapDecision) -> Option<i64> {
    match decision {
        CapDecision::Cap(m) => Some(m),
        _ => None,
    }
}

/// What the plan says to a claim before anything is registered.
pub open spec fn plan_fault(
    decision: CapDecision,
    r: RouterView,
    user: i64,
    hosts: Seq<Seq<char>>,
    ports: Seq<u16>,
) -> Option<FrameView> {
    match decision {
        CapDecision::Allow => None,
        CapDecision::DenyAll => Some(
            deny(DenyCode::LimitExceeded, "subscription does not permit new tunnels"@),
        ),
        CapDecision::Cap(max) => if r.projected(user, hosts, ports) > max {
            Some(limit_reached(max))
        } else {
            None
        },
    }
}

/// The message to sessions that lost a resource to a newer one.
pub open spec fn supersede_notice() -> spec_fn((SessionHandle, ResourceView)) -> (
    SessionHandle,
    FrameView,
) {
    |p: (SessionHandle, ResourceView)| (p.0, FrameView::Superseded { resource: p.1 })
}

/// How a claim stands.
pub enum ClaimStep {
    /// Bind this port, then come back with how it went.
    Bind(u16),
    /// The answer, and what other sessions are told.
    Answer { reply: ControlFrame, notices: Vec<(SessionHandle, ControlFrame)> },
}

/// View of a [`ClaimStep`].
pub enum ClaimStepView {
    Bind(u16),
    Answer { reply: FrameView, notices: Seq<(SessionHandle, FrameView)> },
}

impl View for ClaimStep {
    type V = ClaimStepView;

    open spec fn view(&self) -> ClaimStepView {
        match self {
            ClaimStep::Bind(p) => ClaimStepView::Bind(*p),
            ClaimStep::Answer { reply, notices } => ClaimStepView::Answer {
                reply: reply@,
                notices: cap::posts(notices@),
            },
        }
    }
}

/// A refusal, with nobody else told.
pub open spec fn refusal(f: FrameView) -> ClaimStepView {
    ClaimStepView::Answer { reply: f, notices: Seq::empty() }
}

/// A claim: size, then ports, then the plan, then the hostnames; and only when
/// all of it passed, the routes.
pub open spec fn claim_answer<A: Authenticator>(
    v: A::V,
    r: RouterView,
    handle: SessionHandle,
    hostnames: Seq<Seq<char>>,
    ports: Seq<u16>,
    range: Option<(u16, u16)>,
    binds: Seq<Option<Seq<char>>>,
    decision: CapDecision,
    now: i64,
) -> (A::V, RouterView, ClaimStepView) {
    let hosts = lowered(hostnames);
    let user = handle.user_id;
    if hostnames.len() + ports.len() > MAX_CLAIM_ENTRIES {
        (
            v,
            r,
            refusal(
                deny(
                    DenyCode::ProtocolError,
                    "claim too large (max "@ + text::decimal(MAX_CLAIM_ENTRIES as nat)
                        + " entries)"@,
                ),
            ),
        )
    } else {
        match walk_ports::<A>(v, range, user, ports, binds, 0) {
            PortsView::Refused(f) => (v, r, refusal(f)),
            PortsView::Bind(p) => (v, r, ClaimStepView::Bind(p)),
            PortsView::Bound => match plan_fault(decision, r, user, hosts, ports) {
                Some(f) => (v, r, refusal(f)),
                None => {
                    let (w, fault) = register::<A>(v, user, hosts, cap_of(decision), now);
                    match fault {
                        Some(f) => (w, r, refusal(f)),
                        None => (
                            w,
                            r.claimed(handle, hosts, ports),
                            ClaimStepView::Answer {
                                reply: FrameView::Granted { hostnames: hosts, tcp_ports: ports },
                                notices: r.superseded(handle, hosts, ports).map_values(
                                    supersede_notice(),
                                ),
                            },
                        ),
                    }
                },
            },
        }
    }
}

fn refuse(code: DenyCode, message: String) -> (r: ClaimStep)
    ensures
        r@ == refusal(deny(code, message@)),
{
    let none: Vec<(SessionHandle, ControlFrame)> = Vec::new();
    assert(cap::posts(none@) =~= Seq::<(SessionHandle, FrameView)>::empty());
    ClaimStep::Answer { reply: frames::denied(code, message), notices: none }
}

fn limit_message(max: i64) -> (r: String)
    ensures
        deny(DenyCode::LimitExceeded, r@) == limit_reached(max),
{
    text::join3(
        "tunnel limit reached (",
        text::decimal_i64(max).as_str(),
        "); upgrade your plan for more",
    )
}

/// Walk the ports of a claim.
fn check_ports<A: Authenticator>(
    auth: &A,
    range: Option<(u16, u16)>,
    user_id: i64,
    ports: &Vec<u16>,
    binds: &Vec<Option<String>>,
) -> (r: Option<ClaimStep>)
    requires
        auth.inv(),
    ensures
        match r {
            Some(s) => s@ == (match walk_ports::<A>(
                auth@,
                range,
                user_id,
                ports@,
                bind_views(binds@),
                0,
            ) {
                PortsView::Refused(f) => refusal(f),
                PortsView::Bind(p) => ClaimStepView::Bind(p),
                PortsView::Bound => s@,
            }) && !(walk_ports::<A>(auth@, range, user_id, ports@, bind_views(binds@), 0)
                is Bound),
            None => walk_ports::<A>(auth@, range, user_id, ports@, bind_views(binds@), 0) is Bound,
        },
{
    let ghost bv = bind_views(binds@);
    let mut i: usize = 0;
    while i < ports.len()
        invariant
            i <= ports@.len(),
            auth.inv(),
            bv == bind_views(binds@),
            walk_ports::<A>(auth@, range, user_id, ports@, bv, 0) == walk_ports::<A>(
                auth@,
                range,
                user_id,
                ports@,
                bv,
                i as int,
            ),
        decreases ports@.len() - i,
    {
        let port: u16 = ports[i];
        match range {
            None => {
                return Some(
                    refuse(
                        DenyCode::PortNotReserved,
                        "tcp tunnels are not enabled on this relay".to_owned(),
                    ),
                );
            },
            Some((low, high)) => {
                if !(low <= port && port <= high) || !auth.owns_port(user_id, port) {
                    return Some(
                        refuse(
                            DenyCode::PortNotReserved,
                            text::join3(
                                "port ",
                                text::decimal_u64(port as u64).as_str(),
                                " not reserved",
                            ),
                        ),
                    );
                }
            },
        }
        if i >= binds.len() {
            return Some(ClaimStep::Bind(port));
        }
        match &binds[i] {
            Some(why) => {
                assert(bv[i as int] == Some(why@));
                let mut m = text::join3(
                    "port ",
                    text::decimal_u64(port as u64).as_str(),
                    " unavailable: ",
                );
                m.append(why.as_str());
                return Some(refuse(DenyCode::PortUnavailable, m));
            },
            None => {
                assert(bv[i as int] is None);
            },
        }
        i += 1;
    }
    None
}

/// Register the hostnames of a claim in order; the answer is the first refusal.
fn register_hosts<A: Authenticator>(
    auth: &mut A,
    user_id: i64,
    hosts: &Vec<String>,
    max: Option<i64>,
    now: i64,
) -> (r: Option<ClaimStep>)
    requires
        old(auth).inv(),
    ensures
        final(auth).inv(),
        final(auth)@ == register::<A>(old(auth)@, user_id, frames::names(hosts@), max, now).0,
        match register::<A>(old(auth)@, user_id, frames::names(hosts@), max, now).1 {
            Some(f) => r is Some && r->0@ == refusal(f),
            None => r is None,
        },
{
    let ghost start = auth@;
    let ghost hv = frames::names(hosts@);
    let mut i: usize = 0;
    while i < hosts.len()
        invariant
            i <= hosts@.len(),
            hv == frames::names(hosts@),
            start == old(auth)@,
            auth.inv(),
            register::<A>(start, user_id, hv.take(i as int), max, now) == (
                auth@,
                None::<FrameView>,
            ),
        decreases hosts@.len() - i,
    {
        proof {
            assert(hv.take(i + 1).drop_last() =~= hv.take(i as int));
            assert(hv.take(i + 1).last() == hosts@[i as int]@);
        }
        let host = hosts[i].as_str();
        let fault = match auth.claim_hostname(user_id, host, max, now) {
            ClaimOutcome::Owned => None,
            ClaimOutcome::Taken => Some(
                refuse(DenyCode::NotOwner, text::join2("not authorized for ", host)),
            ),
            ClaimOutcome::CapExceeded => {
                let m: i64 = match max {
                    Some(m) => m,
                    None => 0,
                };
                Some(refuse(DenyCode::LimitExceeded, limit_message(m)))
            },
            ClaimOutcome::Invalid(why) => {
                let mut m = text::join3("cannot claim ", host, ": ");
                m.append(why);
                Some(refuse(DenyCode::NotOwner, m))
            },
            ClaimOutcome::Error => Some(
                refuse(DenyCode::NotOwner, text::join2("could not register ", host)),
            ),
        };
        if fault.is_some() {
            proof {
                lemma_register_stops::<A>(start, user_id, hv, max, now, i + 1);
            }
            return fault;
        }
        i += 1;
    }
    assert(hv.take(i as int) =~= hv);
    None
}

/// A refusal ends the registration: later hostnames are not looked at.
proof fn lemma_register_stops<A: Authenticator>(
    v: A::V,
    user: i64,
    hosts: Seq<Seq<char>>,
    max: Option<i64>,
    now: i64,
    i: int,
)
    requires
        0 <= i <= hosts.len(),
        register::<A>(v, user, hosts.take(i), max, now).1 is Some,
    ensures
        register::<A>(v, user, hosts, max, now) == register::<A>(
            v,
            user,
            hosts.take(i),
            max,
            now,
        ),
    decreases hosts.len() - i,
{
    if i < hosts.len() {
        assert(hosts.take(i + 1).drop_last() =~= hosts.take(i));
        lemma_register_stops::<A>(v, user, hosts, max, now, i + 1);
    } else {
        assert(hosts.take(i) =~= hosts);
    }
}

/// Validate and apply a claim, and say what to answer. `range` is the span of
/// public ports, if raw TCP is enabled; `binds` is how binding the claim's
/// ports went so far; `decision` is what the user's plan says.
///
/// All ports are checked and bound before the plan is consulted, the plan
/// before any hostname is registered, and the routes change only when nothing
/// was refused.
pub fn handle_claim<A: Authenticator>(
    auth: &mut A,
    router: &mut Router,
    handle: &SessionHandle,
    hostnames: &Vec<String>,
    tcp_ports: &Vec<u16>,
    range: Option<(u16, u16)>,
    binds: &Vec<Option<String>>,
    decision: CapDecision,
    now: i64,
) -> (r: ClaimStep)
    requires
        old(auth).inv(),
        old(router).wf(),
    ensures
        final(auth).inv(),
        final(router).wf(),
        (final(auth)@, final(router)@, r@) == claim_answer::<A>(
            old(auth)@,
            old(router)@,
            *handle,
            frames::names(hostnames@),
            tcp_ports@,
            range,
            bind_views(binds@),
            decision,
            now,
        ),
{
    assert(frames::names(hostnames@).len() == hostnames@.len());
    if hostnames.len() as u128 + tcp_ports.len() as u128 > MAX_CLAIM_ENTRIES as u128 {
        return refuse(
            DenyCode::ProtocolError,
            text::join3(
                "claim too large (max ",
                text::decimal_u64(MAX_CLAIM_ENTRIES as u64).as_str(),
                " entries)",
            ),
        );
    }
    let hosts = lower_all(hostnames);
    match check_ports(auth, range, handle.user_id, tcp_ports, binds) {
        Some(s) => return s,
        None => {},
    }
    let mut max: Option<i64> = None;
    match decision {
        CapDecision::Allow => {},
        CapDecision::DenyAll => {
            return refuse(
                DenyCode::LimitExceeded,
                "subscription does not permit new tunnels".to_owned(),
            );
        },
        CapDecision::Cap(m) => {
            max = Some(m);
            let projected: u128 = router.projected_tunnel_count(handle.user_id, &hosts, tcp_ports);
            if m < 0 || projected > m as u128 {
                return refuse(DenyCode::LimitExceeded, limit_message(m));
            }
        },
    }
    match register_hosts(auth, handle.user_id, &hosts, max, now) {
        Some(s) => return s,
        None => {},
    }
    let superseded = router.claim(handle, &hosts, tcp_ports);
    let notices = supersede_all(superseded);
    ClaimStep::Answer {
        reply: ControlFrame::Granted { hostnames: hosts, tcp_ports: frames::dup_ports(tcp_ports) },
        notices,
    }
}

/// The messages to sessions that lost a resource.
fn supersede_all(lost: Vec<(SessionHandle, frames::Resource)>) -> (r: Vec<
    (SessionHandle, ControlFrame),
>)
    ensures
        cap::posts(r@) == router::notices(lost@).map_values(supersede_notice()),
{
    let ghost lv = router::notices(lost@);
    let ghost f = supersede_notice();
    let mut out: Vec<(SessionHandle, ControlFrame)> = Vec::new();
    let mut i: usize = 0;
    assert(cap::posts(out@) =~= lv.map_values(f).take(0));
    while i < lost.len()
        invariant
            i <= lost@.len(),
            lv == router::notices(lost@),
            f == supersede_notice(),
            cap::posts(out@) == lv.map_values(f).take(i as int),
        decreases lost@.len() - i,
    {
        let ghost done = out@;
        let resource = match &lost[i].1 {
            frames::Resource::Host(h) => frames::Resource::Host(h.clone()),
            frames::Resource::Port(p) => frames::Resource::Port(*p),
        };
        let frame = ControlFrame::Superseded { resource };
        let to = lost[i].0;
        out.push((to, frame));
        i += 1;
        assert(cap::posts(out@) =~= cap::posts(done).push((to, frame@)));
        assert(cap::posts(out@) =~= lv.map_values(f).take(i as int));
    }
    assert(lv.map_values(f).take(i as int) =~= lv.map_values(f));
    out
}

/// Give up hostnames in order; the second part is those that were owned.
pub open spec fn released_hosts<A: Authenticator>(v: A::V, user: i64, hosts: Seq<Seq<char>>) -> (
    A::V,
    Seq<Seq<char>>,
)
    decreases hosts.len(),
{
    if hosts.len() == 0 {
        (v, Seq::empty())
    } else {
        let (w, done) = released_hosts::<A>(v, user, hosts.drop_last());
        let (x, owned) = A::release_host_step(w, user, hosts.last());
        (
            x,
            if owned {
                done.push(hosts.last())
            } else {
                done
            },
        )
    }
}

/// Give up ports in order; the second part is those that were owned.
pub open spec fn released_ports<A: Authenticator>(v: A::V, user: i64, ports: Seq<u16>) -> (
    A::V,
    Seq<u16>,
)
    decreases ports.len(),
{
    if ports.len() == 0 {
        (v, Seq::empty())
    } else {
        let (w, done) = released_ports::<A>(v, user, ports.drop_last());
        let (x, owned) = A::release_port_step(w, user, ports.last());
        (
            x,
            if owned {
                done.push(ports.last())
            } else {
                done
            },
        )
    }
}

/// A release: what the caller owns of the list is given up and its routes come
/// down; the rest is passed over in silence.
pub open spec fn release_answer<A: Authenticator>(
    v: A::V,
    r: RouterView,
    user: i64,
    hostnames: Seq<Seq<char>>,
    ports: Seq<u16>,
) -> (A::V, RouterView, FrameView) {
    let (w, hosts_gone) = released_hosts::<A>(v, user, lowered(hostnames));
    let (x, ports_gone) = released_ports::<A>(w, user, ports);
    (
        x,
        r.evicted(hosts_gone, ports_gone),
        FrameView::Released { hostnames: hosts_gone, tcp_ports: ports_gone },
    )
}

/// Give up what `user_id` owns of these resources, and answer with exactly
/// that.
pub fn handle_release<A: Authenticator>(
    auth: &mut A,
    router: &mut Router,
    user_id: i64,
    hostnames: &Vec<String>,
    tcp_ports: &Vec<u16>,
) -> (r: ControlFrame)
    requires
        old(auth).inv(),
        old(router).wf(),
    ensures
        final(auth).inv(),
        final(router).wf(),
        (final(auth)@, final(router)@, r@) == release_answer::<A>(
            old(auth)@,
            old(router)@,
            user_id,
            frames::names(hostnames@),
            tcp_ports@,
        ),
{
    let hosts = lower_all(hostnames);
    let ghost hv = frames::names(hosts@);
    let ghost start = auth@;
    let mut gone: Vec<String> = Vec::new();
    let mut i: usize = 0;
    assert(frames::names(gone@) =~= Seq::<Seq<char>>::empty());
    while i < hosts.len()
        invariant
            i <= hosts@.len(),
            hv == frames::names(hosts@),
            auth.inv(),
            (auth@, frames::names(gone@)) == released_hosts::<A>(start, user_id, hv.take(i as int)),
        decreases hosts@.len() - i,
    {
        proof {
            assert(hv.take(i + 1).drop_last() =~= hv.take(i as int));
            assert(hv.take(i + 1).last() == hosts@[i as int]@);
        }
        let ghost done = gone@;
        if auth.release_hostname(user_id, hosts[i].as_str()) {
            let h = hosts[i].clone();
            gone.push(h);
            assert(frames::names(gone@) =~= frames::names(done).push(h@));
        }
        i += 1;
    }
    assert(hv.take(i as int) =~= hv);
    let ghost mid = auth@;
    let mut freed: Vec<u16> = Vec::new();
    let mut j: usize = 0;
    assert(freed@ =~= Seq::<u16>::empty());
    while j < tcp_ports.len()
        invariant
            j <= tcp_ports@.len(),
            auth.inv(),
            (auth@, freed@) == released_ports::<A>(mid, user_id, tcp_ports@.take(j as int)),
        decreases tcp_ports@.len() - j,
    {
        proof {
            assert(tcp_ports@.take(j + 1).drop_last() =~= tcp_ports@.take(j as int));
        }
        if auth.release_port(user_id, tcp_ports[j]) {
            freed.push(tcp_ports[j]);
        }
        j += 1;
    }
    assert(tcp_ports@.take(j as int) =~= tcp_ports@);
    let _ = router.evict_routes(&gone, &freed);
    ControlFrame::Released { hostnames: gone, tcp_ports: freed }
}

/// The owned set, and the number of tunnels the plan allows where one applies.
pub open spec fn owned_answer<A: Authenticator>(v: A::V, user: i64, decision: CapDecision) -> FrameView {
    FrameView::Owned {
        hostnames: A::hosts_of(v, user),
        tcp_ports: A::ports_of(v, user),
        max_tunnels: match decision {
            CapDecision::Allow => None,
            CapDecision::Cap(m) => Some(m),
            CapDecision::DenyAll => Some(0i64),
        },
    }
}

/// Answer with the caller's owned set.
pub fn list_owned<A: Authenticator>(auth: &A, user_id: i64, decision: CapDecision) -> (r:
    ControlFrame)
    requires
        auth.inv(),
    ensures
        r@ == owned_answer::<A>(auth@, user_id, decision),
{
    ControlFrame::Owned {
        hostnames: auth.owned_hostnames(user_id),
        tcp_ports: auth.owned_ports(user_id),
        max_tunnels: match decision {
            CapDecision::Allow => None,
            CapDecision::Cap(m) => Some(m),
            CapDecision::DenyAll => Some(0),
        },
    }
}

/// A refused claim changes no route and tells nobody.
pub proof fn refused_claim_changes_no_route<A: Authenticator>(
    v: A::V,
    r: RouterView,
    handle: SessionHandle,
    hostnames: Seq<Seq<char>>,
    ports: Seq<u16>,
    range: Option<(u16, u16)>,
    binds: Seq<Option<Seq<char>>>,
    decision: CapDecision,
    now: i64,
)
    ensures
        ({
            let (_, after, step) = claim_answer::<A>(
                v,
                r,
                handle,
                hostnames,
                ports,
                range,
                binds,
                decision,
                now,
            );
            match step {
                ClaimStepView::Bind(_) => after == r,
                ClaimStepView::Answer { reply, notices } => match reply {
                    FrameView::Granted { hostnames: h, tcp_ports: p } => h == lowered(hostnames)
                        && p == ports && after == r.claimed(handle, h, p),
                    FrameView::Denied { code, message } => after == r && notices.len() == 0,
                    _ => false,
                },
            }
        }),
{
    lemma_walk_denies::<A>(v, range, handle.user_id, ports, binds, 0);
    lemma_register_denies::<A>(v, handle.user_id, lowered(hostnames), cap_of(decision), now);
}

proof fn lemma_walk_denies<A: Authenticator>(
    v: A::V,
    range: Option<(u16, u16)>,
    user: i64,
    ports: Seq<u16>,
    binds: Seq<Option<Seq<char>>>,
    i: int,
)
    ensures
        match walk_ports::<A>(v, range, user, ports, binds, i) {
            PortsView::Refused(f) => f is Denied,
            _ => true,
        },
    decreases ports.len() - i,
{
    if 0 <= i < ports.len() {
        lemma_walk_denies::<A>(v, range, user, ports, binds, i + 1);
    }
}

proof fn lemma_register_denies<A: Authenticator>(
    v: A::V,
    user: i64,
    hosts: Seq<Seq<char>>,
    max: Option<i64>,
    now: i64,
)
    ensures
        match register::<A>(v, user, hosts, max, now).1 {
            Some(f) => f is Denied,
            None => true,
        },
    decreases hosts.len(),
{
    if hosts.len() > 0 {
        lemma_register_denies::<A>(v, user, hosts.drop_last(), max, now);
    }
}

/// A claim that a plan refuses registers nothing: with every claim denied, and
/// with a projected count over the cap, the store is as it was.
pub proof fn refusal_by_plan_registers_nothing<A: Authenticator>(
    v: A::V,
    r: RouterView,
    handle: SessionHandle,
    hostnames: Seq<Seq<char>>,
    ports: Seq<u16>,
    range: Option<(u16, u16)>,
    binds: Seq<Option<Seq<char>>>,
    decision: CapDecision,
    now: i64,
)
    requires
        plan_fault(decision, r, handle.user_id, lowered(hostnames), ports) is Some,
    ensures
        claim_answer::<A>(v, r, handle, hostnames, ports, range, binds, decision, now).0 == v,
        claim_answer::<A>(v, r, handle, hostnames, ports, range, binds, decision, now).1 == r,
{
}

/// A granted port was checked and bound: it lies in the relay's range, the
/// user reserved it, and binding it succeeded.
pub proof fn granted_ports_are_bound<A: Authenticator>(
    v: A::V,
    range: Option<(u16, u16)>,
    user: i64,
    ports: Seq<u16>,
    binds: Seq<Option<Seq<char>>>,
    i: int,
    k: int,
)
    requires
        0 <= i <= k < ports.len(),
        walk_ports::<A>(v, range, user, ports, binds, i) is Bound,
    ensures
        match range {
            Some((low, high)) => low <= ports[k] <= high,
            None => false,
        },
        A::owns_tcp(v, user, ports[k]),
        k < binds.len(),
        binds[k] is None,
    decreases ports.len() - i,
{
    if i < k {
        granted_ports_are_bound::<A>(v, range, user, ports, binds, i + 1, k);
    }
}

/// A credential that is unknown and one that was revoked are denied with one
/// and the same frame.
pub proof fn denial_is_no_oracle<A: Authenticator>(
    v: A::V,
    t1: Seq<char>,
    t2: Seq<char>,
    proto: u16,
    version: Seq<char>,
    id1: u64,
    id2: u64,
)
    requires
        A::who(v, t1) is None,
        A::who(v, t2) is None,
    ensures
        hello_answer(A::who(v, t1), proto, version, id1) == hello_answer(
            A::who(v, t2),
            proto,
            version,
            id2,
        ),
{
}

/// A daemon that keeps sending is never ended by the dead-man, and one that
/// falls silent always is; the heartbeat fits several times into the dead-man's
/// patience.
pub proof fn silence_ends_a_session(stage: ControlStage, o: ReadOutcome)
    ensures
        stage.after(o) == ReadNext::Handle <==> o == ReadOutcome::Got,
        stage.after(ReadOutcome::TimedOut) == ReadNext::End,
        HEARTBEAT_INTERVAL < ControlStage::Live.patience(),
{
}

/// A session lives on at a tick exactly if its token still belongs to its user
/// and the plan was not withdrawn.
pub proof fn session_outlives_tick(who: Option<WhoView>, user_id: i64, decision: CapDecision)
    ensures
        tick_verdict(who, user_id, decision) is None <==> who is Some && who->0.user_id == user_id
            && decision != CapDecision::DenyAll,
{
}

/// The actor runs the control protocol on one stream only, however many events
/// come.
pub proof fn control_starts_once(s: SessionState, e: SessionEvent)
    requires
        s.control_started,
    ensures
        s.after(e).0.control_started,
        s.after(e).1 != SessionAction::StartControl,
        e == SessionEvent::Inbound ==> s.after(e).1 == SessionAction::Stop,
{
}

/// A port that a claim may have: it lies in the relay's range and the user
/// reserved it.
pub open spec fn port_open<A: Authenticator>(
    v: A::V,
    range: Option<(u16, u16)>,
    user: i64,
    port: u16,
) -> bool {
    range matches Some((low, high)) && low <= port <= high && A::owns_tcp(v, user, port)
}

proof fn lemma_walk_from<A: Authenticator>(
    v: A::V,
    range: Option<(u16, u16)>,
    user: i64,
    ports: Seq<u16>,
    binds: Seq<Option<Seq<char>>>,
    i: int,
    n: int,
)
    requires
        0 <= i <= n <= ports.len(),
        n <= binds.len(),
        forall|k: int|
            i <= k < n ==> #[trigger] port_open::<A>(v, range, user, ports[k]) && binds[k] is None,
    ensures
        walk_ports::<A>(v, range, user, ports, binds, i) == walk_ports::<A>(
            v,
            range,
            user,
            ports,
            binds,
            n,
        ),
    decreases n - i,
{
    if i < n {
        assert(port_open::<A>(v, range, user, ports[i]));
        lemma_walk_from::<A>(v, range, user, ports, binds, i + 1, n);
    }
}

proof fn lemma_walk_ends<A: Authenticator>(
    v: A::V,
    range: Option<(u16, u16)>,
    user: i64,
    ports: Seq<u16>,
    binds: Seq<Option<Seq<char>>>,
    i: int,
)
    requires
        0 <= i <= ports.len(),
    ensures
        match walk_ports::<A>(v, range, user, ports, binds, i) {
            PortsView::Bind(p) => {
                let n = if i <= binds.len() {
                    binds.len() as int
                } else {
                    i
                };
                &&& n < ports.len()
                &&& p == ports[n]
                &&& forall|k: int|
                    i <= k <= n ==> #[trigger] port_open::<A>(v, range, user, ports[k])
                &&& forall|k: int| i <= k < binds.len() ==> (#[trigger] binds[k]) is None
            },
            PortsView::Bound => forall|k: int|
                i <= k < ports.len() ==> #[trigger] port_open::<A>(v, range, user, ports[k]) && k
                    < binds.len() && binds[k] is None,
            PortsView::Refused(f) => exists|k: int|
                i <= k < ports.len() && (!#[trigger] port_open::<A>(v, range, user, ports[k]) || (k
                    < binds.len() && binds[k] is Some)),
        },
    decreases ports.len() - i,
{
    if i < ports.len() {
        let here = port_open::<A>(v, range, user, ports[i]);
        if here && i < binds.len() && binds[i] is None {
            lemma_walk_ends::<A>(v, range, user, ports, binds, i + 1);
            match walk_ports::<A>(v, range, user, ports, binds, i) {
                PortsView::Refused(f) => {
                    let k = choose|k: int|
                        i + 1 <= k < ports.len() && (!#[trigger] port_open::<A>(
                            v,
                            range,
                            user,
                            ports[k],
                        ) || (k < binds.len() && binds[k] is Some));
                    assert(i <= k);
                },
                _ => {},
            }
        }
    }
}

/// Each port of a claim is bound once and in turn: after so many successful
/// binds the next port asked for is the claim's own port at that position, and
/// nothing is changed meanwhile.
pub proof fn ports_are_bound_in_turn<A: Authenticator>(
    v: A::V,
    r: RouterView,
    handle: SessionHandle,
    hostnames: Seq<Seq<char>>,
    ports: Seq<u16>,
    range: Option<(u16, u16)>,
    binds: Seq<Option<Seq<char>>>,
    decision: CapDecision,
    now: i64,
)
    ensures
        ({
            let (w, after, step) = claim_answer::<A>(
                v,
                r,
                handle,
                hostnames,
                ports,
                range,
                binds,
                decision,
                now,
            );
            &&& step matches ClaimStepView::Bind(p) ==> w == v && after == r && binds.len()
                < ports.len() && p == ports[binds.len() as int]
            &&& (hostnames.len() + ports.len() <= MAX_CLAIM_ENTRIES && binds.len() < ports.len()
                && (forall|k: int|
                0 <= k <= binds.len() ==> #[trigger] port_open::<A>(
                    v,
                    range,
                    handle.user_id,
                    ports[k],
                )) && (forall|k: int| 0 <= k < binds.len() ==> (#[trigger] binds[k]) is None))
                <==> step is Bind
        }),
{
    let user = handle.user_id;
    lemma_walk_ends::<A>(v, range, user, ports, binds, 0);
    if binds.len() < ports.len() && (forall|k: int|
        0 <= k <= binds.len() ==> #[trigger] port_open::<A>(v, range, user, ports[k])) && (forall|
        k: int,
    |
        0 <= k < binds.len() ==> (#[trigger] binds[k]) is None) {
        let n = binds.len() as int;
        lemma_walk_from::<A>(v, range, user, ports, binds, 0, n);
        assert(port_open::<A>(v, range, user, ports[n]));
    }
}

/// A claim that is granted asked for each of its ports on the way, in order,
/// and each bind succeeded.
pub proof fn granted_claim_bound_every_port<A: Authenticator>(
    v: A::V,
    r: RouterView,
    handle: SessionHandle,
    hostnames: Seq<Seq<char>>,
    ports: Seq<u16>,
    range: Option<(u16, u16)>,
    binds: Seq<Option<Seq<char>>>,
    decision: CapDecision,
    now: i64,
    n: int,
)
    requires
        claim_answer::<A>(v, r, handle, hostnames, ports, range, binds, decision, now).2 matches
            ClaimStepView::Answer { reply, .. } && reply is Granted,
        0 <= n < ports.len(),
    ensures
        n < binds.len(),
        binds[n] is None,
        claim_answer::<A>(v, r, handle, hostnames, ports, range, binds.take(n), decision, now)
            == (v, r, ClaimStepView::Bind(ports[n])),
{
    let user = handle.user_id;
    lemma_walk_denies::<A>(v, range, user, ports, binds, 0);
    lemma_walk_ends::<A>(v, range, user, ports, binds, 0);
    assert(walk_ports::<A>(v, range, user, ports, binds, 0) is Bound);
    assert(port_open::<A>(v, range, user, ports[n]));
    let some = binds.take(n);
    assert forall|k: int| 0 <= k < n implies #[trigger] port_open::<A>(v, range, user, ports[k])
        && some[k] is None by {
        assert(some[k] == binds[k]);
    }
    lemma_walk_from::<A>(v, range, user, ports, some, 0, n);
}

/// The first port of a claim that may not be had, or that could not be bound,
/// refuses the claim; nothing is stored and nothing routed.
pub proof fn bad_port_refuses_a_claim<A: Authenticator>(
    v: A::V,
    r: RouterView,
    handle: SessionHandle,
    hostnames: Seq<Seq<char>>,
    ports: Seq<u16>,
    range: Option<(u16, u16)>,
    binds: Seq<Option<Seq<char>>>,
    decision: CapDecision,
    now: i64,
    n: int,
)
    requires
        hostnames.len() + ports.len() <= MAX_CLAIM_ENTRIES,
        0 <= n < ports.len(),
        n <= binds.len(),
        forall|k: int|
            0 <= k < n ==> #[trigger] port_open::<A>(v, range, handle.user_id, ports[k])
                && binds[k] is None,
    ensures
        ({
            let (w, after, step) = claim_answer::<A>(
                v,
                r,
                handle,
                hostnames,
                ports,
                range,
                binds,
                decision,
                now,
            );
            let open = port_open::<A>(v, range, handle.user_id, ports[n]);
            &&& !open ==> w == v && after == r && (step matches ClaimStepView::Answer {
                reply,
                notices,
            } && notices.len() == 0 && reply == (FrameView::Denied {
                code: DenyCode::PortNotReserved,
                message: if range is None {
                    "tcp tunnels are not enabled on this relay"@
                } else {
                    "port "@ + text::decimal(ports[n] as nat) + " not reserved"@
                },
            }))
            &&& open && n < binds.len() && binds[n] is Some ==> w == v && after == r && (
            step matches ClaimStepView::Answer { reply, notices } && notices.len() == 0 && reply
                == (FrameView::Denied {
                code: DenyCode::PortUnavailable,
                message: "port "@ + text::decimal(ports[n] as nat) + " unavailable: "@ + binds[n]->0,
            }))
        }),
{
    lemma_walk_from::<A>(v, range, handle.user_id, ports, binds, 0, n);
}

/// A claim of too many resources is refused before anything is looked at.
pub proof fn oversize_claim_is_refused<A: Authenticator>(
    v: A::V,
    r: RouterView,
    handle: SessionHandle,
    hostnames: Seq<Seq<char>>,
    ports: Seq<u16>,
    range: Option<(u16, u16)>,
    binds: Seq<Option<Seq<char>>>,
    decision: CapDecision,
    now: i64,
)
    requires
        hostnames.len() + ports.len() > 256,
    ensures
        ({
            let (w, after, step) = claim_answer::<A>(
                v,
                r,
                handle,
                hostnames,
                ports,
                range,
                binds,
                decision,
                now,
            );
            &&& w == v
            &&& after == r
            &&& step matches ClaimStepView::Answer { reply, notices } && notices.len() == 0
                && (reply matches FrameView::Denied { code, .. } && code == DenyCode::ProtocolError)
        }),
{
}

/// Claiming this hostname succeeds in one of these states and leads to the next.
pub open spec fn host_had<A: Authenticator>(
    states: Seq<A::V>,
    i: int,
    user: i64,
    host: Seq<char>,
    max: Option<i64>,
    now: i64,
) -> bool {
    A::claim_step(states[i], user, host, max, now) == (states[i + 1], ClaimView::Owned)
}

proof fn lemma_register_trace<A: Authenticator>(
    v: A::V,
    user: i64,
    hosts: Seq<Seq<char>>,
    max: Option<i64>,
    now: i64,
    states: Seq<A::V>,
    k: int,
)
    requires
        0 <= k <= hosts.len(),
        k < states.len(),
        states[0] == v,
        forall|i: int|
            0 <= i < k ==> #[trigger] host_had::<A>(states, i, user, hosts[i], max, now),
    ensures
        register::<A>(v, user, hosts.take(k), max, now) == (states[k], None::<FrameView>),
        k < hosts.len() && A::claim_step(states[k], user, hosts[k], max, now).1 != ClaimView::Owned
            ==> register::<A>(v, user, hosts, max, now) == (
            A::claim_step(states[k], user, hosts[k], max, now).0,
            host_fault(hosts[k], A::claim_step(states[k], user, hosts[k], max, now).1, max),
        ),
    decreases k,
{
    if k > 0 {
        lemma_register_trace::<A>(v, user, hosts, max, now, states, k - 1);
        assert(hosts.take(k).drop_last() =~= hosts.take(k - 1));
        assert(host_had::<A>(states, k - 1, user, hosts[k - 1], max, now));
    }
    if k < hosts.len() && A::claim_step(states[k], user, hosts[k], max, now).1 != ClaimView::Owned {
        lemma_register_fault::<A>(v, user, hosts, max, now, states[k], k);
    }
}

proof fn lemma_register_fault<A: Authenticator>(
    v: A::V,
    user: i64,
    hosts: Seq<Seq<char>>,
    max: Option<i64>,
    now: i64,
    w: A::V,
    k: int,
)
    requires
        0 <= k < hosts.len(),
        register::<A>(v, user, hosts.take(k), max, now) == (w, None::<FrameView>),
        A::claim_step(w, user, hosts[k], max, now).1 != ClaimView::Owned,
    ensures
        register::<A>(v, user, hosts, max, now) == (
            A::claim_step(w, user, hosts[k], max, now).0,
            host_fault(hosts[k], A::claim_step(w, user, hosts[k], max, now).1, max),
        ),
{
    let some = hosts.take(k + 1);
    assert(some.drop_last() =~= hosts.take(k));
    assert(some.last() == hosts[k]);
    let (x, out) = A::claim_step(w, user, hosts[k], max, now);
    assert(host_fault(hosts[k], out, max) is Some);
    assert(register::<A>(v, user, some, max, now) == (x, host_fault(hosts[k], out, max)));
    lemma_register_stops::<A>(v, user, hosts, max, now, k + 1);
}

proof fn lemma_all_bound<A: Authenticator>(
    v: A::V,
    range: Option<(u16, u16)>,
    user: i64,
    ports: Seq<u16>,
    binds: Seq<Option<Seq<char>>>,
)
    requires
        ports.len() <= binds.len(),
        forall|i: int|
            0 <= i < ports.len() ==> #[trigger] port_open::<A>(v, range, user, ports[i])
                && binds[i] is None,
    ensures
        walk_ports::<A>(v, range, user, ports, binds, 0) is Bound,
{
    lemma_walk_from::<A>(v, range, user, ports, binds, 0, ports.len() as int);
}

/// A claim whose ports are bound and which the plan permits stands and falls
/// with its hostnames. They are claimed in order, in lower case, for the
/// session's own user and under the plan's cap. The first that is not had
/// refuses the claim, with the code that fits; if all are had, the claim is
/// granted for exactly the names and ports it listed.
pub proof fn claim_rests_on_its_hostnames<A: Authenticator>(
    v: A::V,
    r: RouterView,
    handle: SessionHandle,
    hostnames: Seq<Seq<char>>,
    ports: Seq<u16>,
    range: Option<(u16, u16)>,
    binds: Seq<Option<Seq<char>>>,
    decision: CapDecision,
    now: i64,
    max: Option<i64>,
    states: Seq<A::V>,
    k: int,
)
    requires
        match decision {
            CapDecision::Cap(m) => max == Some(m),
            _ => max is None,
        },
        hostnames.len() + ports.len() <= MAX_CLAIM_ENTRIES,
        ports.len() <= binds.len(),
        forall|i: int|
            0 <= i < ports.len() ==> #[trigger] port_open::<A>(v, range, handle.user_id, ports[i])
                && binds[i] is None,
        decision != CapDecision::DenyAll,
        decision matches CapDecision::Cap(m) ==> r.projected(
            handle.user_id,
            lowered(hostnames),
            ports,
        ) <= m,
        0 <= k <= hostnames.len(),
        k < states.len(),
        states[0] == v,
        forall|i: int|
            0 <= i < k ==> #[trigger] host_had::<A>(
                states,
                i,
                handle.user_id,
                text::lower(hostnames[i]),
                max,
                now,
            ),
    ensures
        ({
            let (w, after, step) = claim_answer::<A>(
                v,
                r,
                handle,
                hostnames,
                ports,
                range,
                binds,
                decision,
                now,
            );
            if k == hostnames.len() {
                &&& w == states[k]
                &&& step matches ClaimStepView::Answer { reply, .. } && reply
                    matches FrameView::Granted { hostnames: h, tcp_ports: p } && p == ports
                    && h.len() == hostnames.len() && forall|i: int|
                    0 <= i < h.len() ==> #[trigger] h[i] == text::lower(hostnames[i])
            } else {
                let (x, out) = A::claim_step(
                    states[k],
                    handle.user_id,
                    text::lower(hostnames[k]),
                    max,
                    now,
                );
                out != ClaimView::Owned ==> {
                    &&& w == x
                    &&& after == r
                    &&& step matches ClaimStepView::Answer { reply, notices } && notices.len() == 0
                        && (reply matches FrameView::Denied { code, message } && code == (
                    if out == ClaimView::CapExceeded {
                        DenyCode::LimitExceeded
                    } else {
                        DenyCode::NotOwner
                    }) && (out == ClaimView::Taken ==> message == "not authorized for "@
                        + text::lower(hostnames[k])))
                }
            }
        }),
{
    let user = handle.user_id;
    let hosts = lowered(hostnames);
    lemma_all_bound::<A>(v, range, handle.user_id, ports, binds);
    assert forall|i: int| 0 <= i < k implies #[trigger] host_had::<A>(
        states,
        i,
        user,
        hosts[i],
        max,
        now,
    ) by {
        assert(host_had::<A>(states, i, user, text::lower(hostnames[i]), max, now));
    }
    lemma_register_trace::<A>(v, user, hosts, max, now, states, k);
    if k == hosts.len() {
        assert(hosts.take(k) =~= hosts);
    }
}

/// What the plan says to a claim: no plan and no withdrawn plan, no objection;
/// a withdrawn one refuses everything; and a cap refuses exactly a claim that
/// would leave the user with more tunnels than it allows. The refusal stores
/// and routes nothing.
pub proof fn plan_is_enforced<A: Authenticator>(
    v: A::V,
    r: RouterView,
    handle: SessionHandle,
    hostnames: Seq<Seq<char>>,
    ports: Seq<u16>,
    range: Option<(u16, u16)>,
    binds: Seq<Option<Seq<char>>>,
    decision: CapDecision,
    now: i64,
)
    requires
        hostnames.len() + ports.len() <= MAX_CLAIM_ENTRIES,
        ports.len() <= binds.len(),
        forall|i: int|
            0 <= i < ports.len() ==> #[trigger] port_open::<A>(v, range, handle.user_id, ports[i])
                && binds[i] is None,
        decision == CapDecision::DenyAll || (decision is Cap && r.projected(
            handle.user_id,
            lowered(hostnames),
            ports,
        ) > decision->Cap_0),
    ensures
        ({
            let (w, after, step) = claim_answer::<A>(
                v,
                r,
                handle,
                hostnames,
                ports,
                range,
                binds,
                decision,
                now,
            );
            &&& w == v
            &&& after == r
            &&& step matches ClaimStepView::Answer { reply, notices } && notices.len() == 0
                && (reply matches FrameView::Denied { code, .. } && code == DenyCode::LimitExceeded)
        }),
{
    lemma_all_bound::<A>(v, range, handle.user_id, ports, binds);
}

/// A granted claim leads every name and port it listed to the claiming session
/// and leaves all other routes alone; exactly the other sessions that served
/// one of them are told, of that resource.
pub proof fn granted_claim_moves_its_routes<A: Authenticator>(
    v: A::V,
    r: RouterView,
    handle: SessionHandle,
    hostnames: Seq<Seq<char>>,
    ports: Seq<u16>,
    range: Option<(u16, u16)>,
    binds: Seq<Option<Seq<char>>>,
    decision: CapDecision,
    now: i64,
    host: Seq<char>,
    port: u16,
    i: int,
)
    requires
        claim_answer::<A>(v, r, handle, hostnames, ports, range, binds, decision, now).2 matches
            ClaimStepView::Answer { reply, .. } && reply is Granted,
    ensures
        ({
            let (_, after, step) = claim_answer::<A>(
                v,
                r,
                handle,
                hostnames,
                ports,
                range,
                binds,
                decision,
                now,
            );
            let told = step->notices;
            let mine = exists|k: int|
                0 <= k < hostnames.len() && text::lower(#[trigger] hostnames[k]) == host;
            &&& mine ==> after.http.dom().contains(host) && after.http[host] == handle
            &&& !mine ==> after.http.dom().contains(host) == r.http.dom().contains(host) && (
            r.http.dom().contains(host) ==> after.http[host] == r.http[host])
            &&& ports.contains(port) ==> after.tcp.dom().contains(port) && after.tcp[port] == handle
            &&& !ports.contains(port) ==> after.tcp.dom().contains(port) == r.tcp.dom().contains(
                port,
            ) && (r.tcp.dom().contains(port) ==> after.tcp[port] == r.tcp[port])
            &&& mine && r.http.dom().contains(host) && r.http[host].session_id != handle.session_id
                ==> told.contains(
                (r.http[host], FrameView::Superseded { resource: ResourceView::Host(host) }),
            )
            &&& ports.contains(port) && r.tcp.dom().contains(port) && r.tcp[port].session_id
                != handle.session_id ==> told.contains(
                (r.tcp[port], FrameView::Superseded { resource: ResourceView::Port(port) }),
            )
            &&& 0 <= i < told.len() ==> told[i].0.session_id != handle.session_id && (
            told[i].1 matches FrameView::Superseded { resource } && match resource {
                ResourceView::Host(h) => r.http.dom().contains(h) && r.http[h] == told[i].0
                    && after.http[h] == handle,
                ResourceView::Port(p) => r.tcp.dom().contains(p) && r.tcp[p] == told[i].0
                    && after.tcp[p] == handle,
            })
        }),
{
    let hosts = lowered(hostnames);
    let step = claim_answer::<A>(
        v,
        r,
        handle,
        hostnames,
        ports,
        range,
        binds,
        decision,
        now,
    ).2;
    lemma_walk_denies::<A>(v, range, handle.user_id, ports, binds, 0);
    lemma_register_denies::<A>(v, handle.user_id, hosts, cap_of(decision), now);
    let lost = r.superseded(handle, hosts, ports);
    let told = step->notices;
    assert(told == lost.map_values(supersede_notice()));
    router::newest_wins(r, handle, hosts, ports);
    router::every_loss_is_reported(r, handle, hosts, ports);
    let mine = exists|k: int|
        0 <= k < hostnames.len() && text::lower(#[trigger] hostnames[k]) == host;
    if mine {
        let k = choose|k: int|
            0 <= k < hostnames.len() && text::lower(#[trigger] hostnames[k]) == host;
        assert(hosts[k] == host);
    }
    if hosts.contains(host) {
        let k = choose|k: int| 0 <= k < hosts.len() && hosts[k] == host;
        assert(text::lower(hostnames[k]) == host);
        if r.http.dom().contains(host) && r.http[host].session_id != handle.session_id {
            let j = lost.index_of((r.http[host], ResourceView::Host(host)));
            assert(told[j] == (
                r.http[host],
                FrameView::Superseded { resource: ResourceView::Host(host) },
            ));
        }
    }
    if ports.contains(port) && r.tcp.dom().contains(port) && r.tcp[port].session_id
        != handle.session_id {
        let j = lost.index_of((r.tcp[port], ResourceView::Port(port)));
        assert(told[j] == (r.tcp[port], FrameView::Superseded { resource: ResourceView::Port(port) }));
    }
    if 0 <= i < told.len() {
        router::superseded_were_live(r, handle, hosts, ports, i);
        assert(told[i] == supersede_notice()(lost[i]));
    }
}

/// The limit a user is shown is the one a claim is held to: none shown, none
/// enforced; and with one shown, a claim that goes beyond it is refused.
pub proof fn shown_limit_is_enforced<A: Authenticator>(
    v: A::V,
    r: RouterView,
    user: i64,
    hosts: Seq<Seq<char>>,
    ports: Seq<u16>,
    decision: CapDecision,
)
    ensures
        owned_answer::<A>(v, user, decision) matches FrameView::Owned {
            hostnames,
            tcp_ports,
            max_tunnels,
        } && hostnames == A::hosts_of(v, user) && tcp_ports == A::ports_of(v, user) && match max_tunnels {
            None => plan_fault(decision, r, user, hosts, ports) is None,
            Some(m) => (r.projected(user, hosts, ports) > m ==> plan_fault(
                decision,
                r,
                user,
                hosts,
                ports,
            ) is Some) && (decision == CapDecision::Cap(m) || (decision == CapDecision::DenyAll && m
                == 0)),
        },
{
}

/// Giving up this hostname in one of these states leads to the next; `had` is
/// whether the user had it.
pub open spec fn host_released<A: Authenticator>(
    states: Seq<A::V>,
    i: int,
    user: i64,
    host: Seq<char>,
    had: bool,
) -> bool {
    A::release_host_step(states[i], user, host) == (states[i + 1], had)
}

/// Giving up this port in one of these states leads to the next; `had` is
/// whether the user had it.
pub open spec fn port_released<A: Authenticator>(
    states: Seq<A::V>,
    i: int,
    user: i64,
    port: u16,
    had: bool,
) -> bool {
    A::release_port_step(states[i], user, port) == (states[i + 1], had)
}

proof fn lemma_released_hosts<A: Authenticator>(
    v: A::V,
    user: i64,
    hosts: Seq<Seq<char>>,
    states: Seq<A::V>,
    had: Seq<bool>,
    k: int,
)
    requires
        0 <= k <= hosts.len(),
        k < states.len(),
        k <= had.len(),
        states[0] == v,
        forall|i: int|
            0 <= i < k ==> #[trigger] host_released::<A>(states, i, user, hosts[i], had[i]),
    ensures
        ({
            let (w, gone) = released_hosts::<A>(v, user, hosts.take(k));
            &&& w == states[k]
            &&& forall|h: Seq<char>| #[trigger]
                gone.contains(h) <==> exists|i: int| 0 <= i < k && #[trigger] had[i] && hosts[i] == h
        }),
    decreases k,
{
    if k > 0 {
        lemma_released_hosts::<A>(v, user, hosts, states, had, k - 1);
        assert(hosts.take(k).drop_last() =~= hosts.take(k - 1));
        assert(host_released::<A>(states, k - 1, user, hosts[k - 1], had[k - 1]));
        let before = released_hosts::<A>(v, user, hosts.take(k - 1)).1;
        let gone = released_hosts::<A>(v, user, hosts.take(k)).1;
        assert forall|h: Seq<char>| #[trigger] gone.contains(h) <==> exists|i: int|
            0 <= i < k && #[trigger] had[i] && hosts[i] == h by {
            if gone.contains(h) {
                let j = choose|j: int| 0 <= j < gone.len() && gone[j] == h;
                if j < before.len() {
                    assert(before[j] == h);
                    assert(before.contains(h));
                } else {
                    assert(had[k - 1] && hosts[k - 1] == h);
                }
            }
            if exists|i: int| 0 <= i < k && #[trigger] had[i] && hosts[i] == h {
                let i = choose|i: int| 0 <= i < k && #[trigger] had[i] && hosts[i] == h;
                if i < k - 1 {
                    assert(before.contains(h));
                    let j = choose|j: int| 0 <= j < before.len() && before[j] == h;
                    assert(gone[j] == h);
                } else {
                    assert(gone[gone.len() - 1] == h);
                }
            }
        }
    }
}

proof fn lemma_released_ports<A: Authenticator>(
    v: A::V,
    user: i64,
    ports: Seq<u16>,
    states: Seq<A::V>,
    had: Seq<bool>,
    k: int,
)
    requires
        0 <= k <= ports.len(),
        k < states.len(),
        k <= had.len(),
        states[0] == v,
        forall|i: int|
            0 <= i < k ==> #[trigger] port_released::<A>(states, i, user, ports[i], had[i]),
    ensures
        ({
            let (w, gone) = released_ports::<A>(v, user, ports.take(k));
            &&& w == states[k]
            &&& forall|p: u16| #[trigger]
                gone.contains(p) <==> exists|i: int| 0 <= i < k && #[trigger] had[i] && ports[i] == p
        }),
    decreases k,
{
    if k > 0 {
        lemma_released_ports::<A>(v, user, ports, states, had, k - 1);
        assert(ports.take(k).drop_last() =~= ports.take(k - 1));
        assert(port_released::<A>(states, k - 1, user, ports[k - 1], had[k - 1]));
        let before = released_ports::<A>(v, user, ports.take(k - 1)).1;
        let gone = released_ports::<A>(v, user, ports.take(k)).1;
        assert forall|p: u16| #[trigger] gone.contains(p) <==> exists|i: int|
            0 <= i < k && #[trigger] had[i] && ports[i] == p by {
            if gone.contains(p) {
                let j = choose|j: int| 0 <= j < gone.len() && gone[j] == p;
                if j < before.len() {
                    assert(before[j] == p);
                    assert(before.contains(p));
                } else {
                    assert(had[k - 1] && ports[k - 1] == p);
                }
            }
            if exists|i: int| 0 <= i < k && #[trigger] had[i] && ports[i] == p {
                let i = choose|i: int| 0 <= i < k && #[trigger] had[i] && ports[i] == p;
                if i < k - 1 {
                    assert(before.contains(p));
                    let j = choose|j: int| 0 <= j < before.len() && before[j] == p;
                    assert(gone[j] == p);
                } else {
                    assert(gone[gone.len() - 1] == p);
                }
            }
        }
    }
}

/// A release gives up each listed resource in turn, for the caller alone. The
/// answer names exactly those that the caller had; their routes come down and
/// all others stay.
pub proof fn release_frees_what_was_owned<A: Authenticator>(
    v: A::V,
    r: RouterView,
    user: i64,
    hostnames: Seq<Seq<char>>,
    ports: Seq<u16>,
    hs: Seq<A::V>,
    had_host: Seq<bool>,
    ps: Seq<A::V>,
    had_port: Seq<bool>,
    host: Seq<char>,
    port: u16,
)
    requires
        hs.len() == hostnames.len() + 1,
        had_host.len() == hostnames.len(),
        hs[0] == v,
        forall|i: int|
            0 <= i < hostnames.len() ==> #[trigger] host_released::<A>(
                hs,
                i,
                user,
                text::lower(hostnames[i]),
                had_host[i],
            ),
        ps.len() == ports.len() + 1,
        had_port.len() == ports.len(),
        ps[0] == hs.last(),
        forall|i: int|
            0 <= i < ports.len() ==> #[trigger] port_released::<A>(
                ps,
                i,
                user,
                ports[i],
                had_port[i],
            ),
    ensures
        ({
            let (w, after, reply) = release_answer::<A>(v, r, user, hostnames, ports);
            let host_gone = exists|i: int|
                0 <= i < hostnames.len() && #[trigger] had_host[i] && text::lower(hostnames[i])
                    == host;
            let port_gone = exists|i: int|
                0 <= i < ports.len() && #[trigger] had_port[i] && ports[i] == port;
            &&& w == ps.last()
            &&& reply matches FrameView::Released { hostnames: h, tcp_ports: p } && h.contains(host)
                == host_gone && p.contains(port) == port_gone
            &&& after.http.dom().contains(host) == (r.http.dom().contains(host) && !host_gone)
            &&& after.http.dom().contains(host) ==> after.http[host] == r.http[host]
            &&& after.tcp.dom().contains(port) == (r.tcp.dom().contains(port) && !port_gone)
            &&& after.tcp.dom().contains(port) ==> after.tcp[port] == r.tcp[port]
        }),
{
    let hosts = lowered(hostnames);
    let n = hosts.len() as int;
    let m = ports.len() as int;
    assert forall|i: int| 0 <= i < n implies #[trigger] host_released::<A>(
        hs,
        i,
        user,
        hosts[i],
        had_host[i],
    ) by {
        assert(host_released::<A>(hs, i, user, text::lower(hostnames[i]), had_host[i]));
    }
    lemma_released_hosts::<A>(v, user, hosts, hs, had_host, n);
    assert(hosts.take(n) =~= hosts);
    lemma_released_ports::<A>(hs.last(), user, ports, ps, had_port, m);
    assert(ports.take(m) =~= ports);
    let gone = released_hosts::<A>(v, user, hosts).1;
    assert(gone.contains(host) == exists|i: int|
        0 <= i < hostnames.len() && #[trigger] had_host[i] && text::lower(hostnames[i]) == host) by {
        if gone.contains(host) {
            let i = choose|i: int| 0 <= i < n && #[trigger] had_host[i] && hosts[i] == host;
            assert(text::lower(hostnames[i]) == host);
        }
        if exists|i: int|
            0 <= i < hostnames.len() && #[trigger] had_host[i] && text::lower(hostnames[i]) == host {
            let i = choose|i: int|
                0 <= i < hostnames.len() && #[trigger] had_host[i] && text::lower(hostnames[i])
                    == host;
            assert(hosts[i] == host);
        }
    }
}

/// A daemon is welcomed exactly if its first frame is a `Hello`, some version
/// is spoken on both sides and its token is known; each other case has a denial
/// of its own. The welcome names the version agreed on and the new session.
pub proof fn welcome_needs_version_and_token(
    frame: FrameView,
    who: Option<WhoView>,
    proto: u16,
    version: Seq<char>,
    id: u64,
)
    ensures
        hello_fault(frame) is None <==> frame is Hello && 1 <= frame->proto_max
            && frame->proto_min <= PROTOCOL_VERSION && frame->proto_min <= frame->proto_max,
        !(frame is Hello) ==> (hello_fault(frame) matches Some(FrameView::Denied { code, .. })
            && code == DenyCode::ProtocolError),
        frame is Hello && hello_fault(frame) is Some ==> (hello_fault(frame) matches Some(
            FrameView::Denied { code, .. },
        ) && code == DenyCode::VersionUnsupported),
        match hello_answer(who, proto, version, id) {
            FrameView::Welcome { proto: p, server_version: s, session_id: n } => who is Some && p
                == proto && s == version && n == id,
            FrameView::Denied { code, message } => who is None && code == DenyCode::AuthFailed,
            _ => false,
        },
{
}

/// A session that is ended at a tick is told why: the token when it is no
/// longer the user's, the subscription when the plan was withdrawn.
pub proof fn ended_session_is_told_why(who: Option<WhoView>, user_id: i64, decision: CapDecision)
    ensures
        match tick_verdict(who, user_id, decision) {
            Some(FrameView::Denied { code, message }) => if who is Some && who->0.user_id
                == user_id {
                decision == CapDecision::DenyAll && code == DenyCode::LimitExceeded && message
                    == "subscription lapsed or suspended"@
            } else {
                code == DenyCode::AuthFailed && message == "token revoked"@
            },
            Some(_) => false,
            None => decision != CapDecision::DenyAll,
        },
{
}

/// A frame of an established session is handled for what it is: a ping gets its
/// own nonce back, a claim and a release are handled with the lists they came
/// with, only a goodbye ends the session, and frames that only a relay sends do
/// nothing.
pub proof fn frames_are_handled(f: FrameView)
    ensures
        f matches FrameView::Ping { nonce } ==> treatment(f) == ActionView::Reply(
            FrameView::Pong { nonce },
        ),
        f matches FrameView::Claim { hostnames, tcp_ports } ==> (treatment(f)
            matches ActionView::Claim { hostnames: h, tcp_ports: p } && h == hostnames && p
            == tcp_ports),
        f matches FrameView::Release { hostnames, tcp_ports } ==> (treatment(f)
            matches ActionView::Release { hostnames: h, tcp_ports: p } && h == hostnames && p
            == tcp_ports),
        treatment(f) == ActionView::ListOwned <==> f == FrameView::ListOwned,
        treatment(f) == ActionView::End <==> f == FrameView::Goodbye,
        f is Hello ==> (treatment(f) matches ActionView::Reply(FrameView::Error { code, .. }) && code
            == ErrorCode::MalformedClaim),
        treatment(f) == ActionView::Ignore <==> f is Welcome || f is Denied || f is Granted
            || f is Pong || f is Superseded || f is Shutdown || f is Error || f is Released
            || f is Owned,
{
}

/// One stream is opened per command and goes to whoever asked: a command is
/// held until the open ends, and the end of an open is answered only if one was
/// asked for. The session stops when it is cancelled or closed, when no control
/// stream came in time, and when a second one comes.
pub proof fn stream_goes_to_its_command(s: SessionState)
    ensures
        s.after(SessionEvent::Command).1 == SessionAction::Hold,
        s.after(SessionEvent::Command).0.opening,
        s.after(SessionEvent::Opened).1 == SessionAction::HandOver <==> s.opening,
        s.after(SessionEvent::OpenFailed).1 == SessionAction::Refuse <==> s.opening,
        !s.after(SessionEvent::Opened).0.opening,
        !s.after(SessionEvent::OpenFailed).0.opening,
        !s.opening ==> s.after(SessionEvent::Opened) == (s, SessionAction::Wait) && s.after(
            SessionEvent::OpenFailed,
        ) == (s, SessionAction::Wait),
        forall|e: SessionEvent|
            #![trigger s.after(e)]
            (s.after(e).1 == SessionAction::Stop <==> e == SessionEvent::Cancelled || e
                == SessionEvent::Closed || (e == SessionEvent::Deadline && !s.control_started) || (e
                == SessionEvent::Inbound && s.control_started)) && (s.after(e).1
                == SessionAction::StartControl <==> e == SessionEvent::Inbound
                && !s.control_started) && (s.after(e).0.control_started <==> s.control_started || e
                == SessionEvent::Inbound),
{
}

/// How long a daemon may be silent: a handshake within ten seconds, and a frame
/// every ninety seconds after it. What is read is handled; the end of a stream
/// is a fault only within the handshake.
pub proof fn patience_is_as_promised(stage: ControlStage, o: ReadOutcome)
    ensures
        stage.patience() == (if stage == ControlStage::Live {
            90u64
        } else {
            10u64
        }),
        stage.after(o) == ReadNext::Fail <==> o == ReadOutcome::Failed || (o == ReadOutcome::Eof
            && stage != ControlStage::Live),
{
}

} // verus!
