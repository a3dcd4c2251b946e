//! One-shot authenticated control requests: what a reply means.
//!
//! A request opens a control stream, completes the handshake, exchanges a
//! single frame and says goodbye. The frames are of protocol 2; against an
//! older relay the request fails with a clear message instead of sending a
//! frame the relay cannot decode.
use vstd::prelude::*;

use crate::proto::codec::CodecError;
use crate::proto::debug;
use crate::proto::frames;
use crate::proto::frames::{ControlFrame, DenyCode, FrameView};
use crate::relay::session;
use crate::text;

verus! {

/// Lowest protocol version that knows the owned-set frames.
pub const PROTO_OWNED_SET: u16 = 2;

/// Seconds a relay has to answer.
pub const REPLY_TIMEOUT: u64 = 10;

/// How waiting for a reply went.
pub enum Reply {
    Frame(ControlFrame),
    TimedOut,
    Failed(CodecError),
}

/// View of a [`Reply`].
pub enum ReplyView {
    Frame(FrameView),
    TimedOut,
    Failed(Seq<char>),
}

impl View for Reply {
    type V = ReplyView;

    open spec fn view(&self) -> ReplyView {
        match self {
            Reply::Frame(f) => ReplyView::Frame(f@),
            Reply::TimedOut => ReplyView::TimedOut,
            Reply::Failed(e) => ReplyView::Failed(e.words()),
        }
    }
}

/// What a reply to `Hello` means: session and protocol, or why not. `rejected`
/// is what a refused token is told.
pub open spec fn welcome(r: ReplyView, rejected: Seq<char>) -> Result<(u64, u16), Seq<char>> {
    match r {
        ReplyView::TimedOut => Err("relay did not respond to Hello within 10s"@),
        ReplyView::Failed(e) => Err("reading relay reply: "@ + e),
        ReplyView::Frame(f) => match f {
            FrameView::Welcome { proto, server_version, session_id } => Ok((session_id, proto)),
            FrameView::Denied { code, message } => if code == DenyCode::AuthFailed {
                Err(rejected)
            } else {
                Err(
                    "relay denied the connection ("@ + code.spec_name() + "): "@ + message,
                )
            },
            other => Err("unexpected reply to Hello: "@ + debug::frame_text(other)),
        },
    }
}

/// View of a fallible handshake.
pub open spec fn welcome_view(r: Result<(u64, u16), String>) -> Result<(u64, u16), Seq<char>> {
    match r {
        Ok(p) => Ok(p),
        Err(e) => Err(e@),
    }
}

/// Read the reply to `Hello`: session and protocol, or why not.
pub fn read_welcome(reply: &Reply, rejected: &str) -> (r: Result<(u64, u16), String>)
    ensures
        welcome_view(r) == welcome(reply@, rejected@),
{
    match reply {
        Reply::TimedOut => Err("relay did not respond to Hello within 10s".to_owned()),
        Reply::Failed(e) => Err(text::join2("reading relay reply: ", e.message().as_str())),
        Reply::Frame(f) => match f {
            ControlFrame::Welcome { proto, server_version: _, session_id } => Ok(
                (*session_id, *proto),
            ),
            ControlFrame::Denied { code, message } => match code {
                DenyCode::AuthFailed => Err(rejected.to_owned()),
                _ => {
                    let mut s = text::join3("relay denied the connection (", code.name(), "): ");
                    s.append(message.as_str());
                    Err(s)
                },
            },
            other => Err(
                text::join2("unexpected reply to Hello: ", debug::describe(other).as_str()),
            ),
        },
    }
}

/// What a control request tells of a refused token.
pub fn open(reply: &Reply) -> (r: Result<(u64, u16), String>)
    ensures
        welcome_view(r) == welcome(
            reply@,
            "relay rejected the token (run `etun login` again)"@,
        ),
{
    read_welcome(reply, "relay rejected the token (run `etun login` again)")
}

/// What the relay has the account owning, or what it freed; and the number of
/// tunnels the plan allows, where the relay told of one.
#[derive(Clone, Debug)]
pub struct OwnedSet {
    pub hostnames: Vec<String>,
    pub tcp_ports: Vec<u16>,
    pub max_tunnels: Option<i64>,
}

/// View of an [`OwnedSet`].
pub struct OwnedView {
    pub hostnames: Seq<Seq<char>>,
    pub ports: Seq<u16>,
    pub max_tunnels: Option<i64>,
}

impl View for OwnedSet {
    type V = OwnedView;

    open spec fn view(&self) -> OwnedView {
        OwnedView {
            hostnames: frames::names(self.hostnames@),
            ports: self.tcp_ports@,
            max_tunnels: self.max_tunnels,
        }
    }
}

/// View of a fallible owned set.
pub open spec fn owned_view(r: Result<OwnedSet, String>) -> Result<OwnedView, Seq<char>> {
    match r {
        Ok(o) => Ok(o@),
        Err(e) => Err(e@),
    }
}

/// Why a request cannot be made of a relay of this protocol, if it cannot.
pub open spec fn too_old(proto: u16, what: Seq<char>) -> Option<Seq<char>> {
    if proto < PROTO_OWNED_SET {
        Some("relay is too old to "@ + what + " (needs protocol v2+)"@)
    } else {
        None
    }
}

fn check_proto(proto: u16, what: &str) -> (r: Result<(), String>)
    ensures
        match r {
            Ok(_) => too_old(proto, what@) is None,
            Err(e) => too_old(proto, what@) == Some(e@),
        },
{
    if proto < PROTO_OWNED_SET {
        Err(text::join3("relay is too old to ", what, " (needs protocol v2+)"))
    } else {
        Ok(())
    }
}

/// The frame that asks for the owned set, if the relay knows it.
pub fn list_request(proto: u16) -> (r: Result<ControlFrame, String>)
    ensures
        match r {
            Ok(f) => too_old(proto, "report owned tunnels"@) is None && f@ == FrameView::ListOwned,
            Err(e) => too_old(proto, "report owned tunnels"@) == Some(e@),
        },
{
    match check_proto(proto, "report owned tunnels") {
        Ok(_) => Ok(ControlFrame::ListOwned),
        Err(e) => Err(e),
    }
}

/// The frame that releases resources, if the relay knows it.
pub fn release_request(proto: u16, hostnames: Vec<String>, tcp_ports: Vec<u16>) -> (r: Result<
    ControlFrame,
    String,
>)
    ensures
        match r {
            Ok(f) => too_old(proto, "release tunnels remotely"@) is None && f@ == (
            FrameView::Release {
                hostnames: frames::names(hostnames@),
                tcp_ports: tcp_ports@,
            }),
            Err(e) => too_old(proto, "release tunnels remotely"@) == Some(e@),
        },
{
    match check_proto(proto, "release tunnels remotely") {
        Ok(_) => Ok(ControlFrame::Release { hostnames, tcp_ports }),
        Err(e) => Err(e),
    }
}

/// What is wrong with a reply before its frame is looked at.
pub open spec fn no_frame(r: ReplyView) -> Option<Seq<char>> {
    match r {
        ReplyView::TimedOut => Some("relay did not reply within 10s"@),
        ReplyView::Failed(e) => Some("reading relay reply: "@ + e),
        ReplyView::Frame(_) => None,
    }
}

/// What the reply to a request for the owned set means.
pub open spec fn owned_reply(r: ReplyView) -> Result<OwnedView, Seq<char>> {
    match r {
        ReplyView::Frame(f) => match f {
            FrameView::Owned { hostnames, tcp_ports, max_tunnels } => Ok(
                OwnedView { hostnames, ports: tcp_ports, max_tunnels },
            ),
            other => Err("unexpected reply to ListOwned: "@ + debug::frame_text(other)),
        },
        other => Err(no_frame(other)->0),
    }
}

/// Read the reply to a request for the owned set.
pub fn list_owned(reply: Reply) -> (r: Result<OwnedSet, String>)
    ensures
        owned_view(r) == owned_reply(reply@),
{
    match reply {
        Reply::TimedOut => Err("relay did not reply within 10s".to_owned()),
        Reply::Failed(e) => Err(text::join2("reading relay reply: ", e.message().as_str())),
        Reply::Frame(f) => match f {
            ControlFrame::Owned { hostnames, tcp_ports, max_tunnels } => Ok(
                OwnedSet { hostnames, tcp_ports, max_tunnels },
            ),
            other => Err(
                text::join2("unexpected reply to ListOwned: ", debug::describe(&other).as_str()),
            ),
        },
    }
}

/// What the reply to a release means.
pub open spec fn released_reply(r: ReplyView) -> Result<OwnedView, Seq<char>> {
    match r {
        ReplyView::Frame(f) => match f {
            FrameView::Released { hostnames, tcp_ports } => Ok(
                OwnedView { hostnames, ports: tcp_ports, max_tunnels: None },
            ),
            other => Err("unexpected reply to Release: "@ + debug::frame_text(other)),
        },
        other => Err(no_frame(other)->0),
    }
}

/// Read the reply to a release: what the relay actually freed.
pub fn release(reply: Reply) -> (r: Result<OwnedSet, String>)
    ensures
        owned_view(r) == released_reply(reply@),
{
    match reply {
        Reply::TimedOut => Err("relay did not reply within 10s".to_owned()),
        Reply::Failed(e) => Err(text::join2("reading relay reply: ", e.message().as_str())),
        Reply::Frame(f) => match f {
            ControlFrame::Released { hostnames, tcp_ports } => Ok(
                OwnedSet { hostnames, tcp_ports, max_tunnels: None },
            ),
            other => Err(
                text::join2("unexpected reply to Release: ", debug::describe(&other).as_str()),
            ),
        },
    }
}

/// A relay and a client that both speak the owned-set frames agree on a version
/// that has them, if they agree at all.
pub proof fn owned_set_is_agreed_on(peer_min: u16, peer_max: u16)
    requires
        peer_max >= PROTO_OWNED_SET,
    ensures
        match session::agreed(peer_min, peer_max) {
            Some(v) => v >= PROTO_OWNED_SET,
            None => true,
        },
{
}

/// Only a welcome opens a session, with the session and version that it names.
pub proof fn only_a_welcome_opens(r: ReplyView, rejected: Seq<char>)
    ensures
        welcome(r, rejected) is Ok <==> (r matches ReplyView::Frame(f) && f is Welcome),
        r matches ReplyView::Frame(FrameView::Welcome { proto, server_version, session_id })
            ==> welcome(r, rejected) == Ok::<_, Seq<char>>((session_id, proto)),
        r matches ReplyView::Frame(FrameView::Denied { code, message }) ==> welcome(r, rejected)
            == Err::<(u64, u16), _>(
            if code == DenyCode::AuthFailed {
                rejected
            } else {
                "relay denied the connection ("@ + code.spec_name() + "): "@ + message
            },
        ),
        r is TimedOut ==> welcome(r, rejected) == Err::<(u64, u16), _>(
            "relay did not respond to Hello within 10s"@,
        ),
        REPLY_TIMEOUT == 10,
{
}

/// Relays of version 2 on can be asked what is owned, and to release it.
pub proof fn first_version_is_too_old(proto: u16, what: Seq<char>)
    ensures
        too_old(proto, what) is Some <==> proto == 0 || proto == 1,
        too_old(proto, what) matches Some(e) ==> e == "relay is too old to "@ + what
            + " (needs protocol v2+)"@,
{
}

/// Each request has its own reply, and is answered with what that reply holds.
pub proof fn replies_are_told_apart(r: ReplyView)
    ensures
        owned_reply(r) is Ok <==> (r matches ReplyView::Frame(f) && f is Owned),
        released_reply(r) is Ok <==> (r matches ReplyView::Frame(f) && f is Released),
        r matches ReplyView::Frame(FrameView::Owned { hostnames, tcp_ports, max_tunnels }) ==> (
        owned_reply(r) matches Ok(o) && o.hostnames == hostnames && o.ports == tcp_ports
            && o.max_tunnels == max_tunnels),
        r matches ReplyView::Frame(FrameView::Released { hostnames, tcp_ports }) ==> (released_reply(
            r,
        ) matches Ok(o) && o.hostnames == hostnames && o.ports == tcp_ports),
        r is TimedOut ==> owned_reply(r) == Err::<OwnedView, _>("relay did not reply within 10s"@)
            && released_reply(r) == Err::<OwnedView, _>("relay did not reply within 10s"@),
        r matches ReplyView::Failed(e) ==> owned_reply(r) == Err::<OwnedView, _>(
            "reading relay reply: "@ + e,
        ) && released_reply(r) == Err::<OwnedView, _>("reading relay reply: "@ + e),
{
}

} // verus!
