//! The diagnostic text of a control frame, with the token left out.
use vstd::prelude::*;

use crate::proto::frames;
use crate::proto::frames::{ControlFrame, ErrorCode, FrameView, Resource, ResourceView};
use crate::relay::crypto;
use crate::text;

verus! {

/// Diagnostic forms of strings.
pub open spec fn quoted(s: Seq<Seq<char>>) -> Seq<Seq<char>> {
    s.map_values(|t: Seq<char>| crypto::debug_string(t))
}

/// Decimal forms of ports.
pub open spec fn numerals(s: Seq<u16>) -> Seq<Seq<char>> {
    s.map_values(|p: u16| text::decimal(p as nat))
}

/// The fields of a set of resources.
pub open spec fn set_fields(hostnames: Seq<Seq<char>>, ports: Seq<u16>) -> Seq<char> {
    " { hostnames: ["@ + text::joined(quoted(hostnames), ", "@) + "], tcp_ports: ["@
        + text::joined(numerals(ports), ", "@) + "]"@
}

/// The diagnostic text of a resource.
pub open spec fn resource_text(r: ResourceView) -> Seq<char> {
    match r {
        ResourceView::Host(h) => "Host("@ + crypto::debug_string(h) + ")"@,
        ResourceView::Port(p) => "Port("@ + text::decimal(p as nat) + ")"@,
    }
}

/// The name of a diagnostic code.
pub open spec fn error_name(c: ErrorCode) -> Seq<char> {
    match c {
        ErrorCode::MalformedClaim => "MalformedClaim"@,
        ErrorCode::Internal => "Internal"@,
    }
}

/// The diagnostic text of a frame.
pub open spec fn frame_text(f: FrameView) -> Seq<char> {
    match f {
        FrameView::Hello { token, agent_version, proto_min, proto_max } =>
            "Hello { token: Secret(***), agent_version: "@ + crypto::debug_string(agent_version)
            + ", proto_min: "@ + text::decimal(proto_min as nat) + ", proto_max: "@ + text::decimal(
            proto_max as nat,
        ) + " }"@,
        FrameView::Welcome { proto, server_version, session_id } => "Welcome { proto: "@
            + text::decimal(proto as nat) + ", server_version: "@ + crypto::debug_string(
            server_version,
        ) + ", session_id: "@ + text::decimal(session_id as nat) + " }"@,
        FrameView::Denied { code, message } => "Denied { code: "@ + code.spec_name()
            + ", message: "@ + crypto::debug_string(message) + " }"@,
        FrameView::Claim { hostnames, tcp_ports } => "Claim"@ + set_fields(hostnames, tcp_ports)
            + " }"@,
        FrameView::Granted { hostnames, tcp_ports } => "Granted"@ + set_fields(
            hostnames,
            tcp_ports,
        ) + " }"@,
        FrameView::Ping { nonce } => "Ping { nonce: "@ + text::decimal(nonce as nat) + " }"@,
        FrameView::Pong { nonce } => "Pong { nonce: "@ + text::decimal(nonce as nat) + " }"@,
        FrameView::Superseded { resource } => "Superseded { resource: "@ + resource_text(resource)
            + " }"@,
        FrameView::Goodbye => "Goodbye"@,
        FrameView::Shutdown { reason } => "Shutdown { reason: "@ + crypto::debug_string(reason)
            + " }"@,
        FrameView::Error { code, message } => "Error { code: "@ + error_name(code)
            + ", message: "@ + crypto::debug_string(message) + " }"@,
        FrameView::Release { hostnames, tcp_ports } => "Release"@ + set_fields(
            hostnames,
            tcp_ports,
        ) + " }"@,
        FrameView::Released { hostnames, tcp_ports } => "Released"@ + set_fields(
            hostnames,
            tcp_ports,
        ) + " }"@,
        FrameView::ListOwned => "ListOwned"@,
        FrameView::Owned { hostnames, tcp_ports, max_tunnels } => "Owned"@ + set_fields(
            hostnames,
            tcp_ports,
        ) + ", max_tunnels: "@ + (match max_tunnels {
            Some(m) => "Some("@ + text::decimal_int(m as int) + ")"@,
            None => "None"@,
        }) + " }"@,
    }
}

fn set_string(name: &str, hostnames: &Vec<String>, ports: &Vec<u16>) -> (r: String)
    ensures
        r@ == name@ + set_fields(frames::names(hostnames@), ports@),
{
    let ghost hv = frames::names(hostnames@);
    let mut hs: Vec<String> = Vec::new();
    let mut i: usize = 0;
    assert(text::all_of(hs@) =~= quoted(hv).take(0));
    while i < hostnames.len()
        invariant
            i <= hostnames@.len(),
            hv == frames::names(hostnames@),
            text::all_of(hs@) == quoted(hv).take(i as int),
        decreases hostnames@.len() - i,
    {
        let ghost done = hs@;
        let q = crypto::debug_of(hostnames[i].as_str());
        hs.push(q);
        i += 1;
        assert(text::all_of(hs@) =~= text::all_of(done).push(q@));
        assert(text::all_of(hs@) =~= quoted(hv).take(i as int));
    }
    assert(quoted(hv).take(i as int) =~= quoted(hv));
    let mut ps: Vec<String> = Vec::new();
    let mut j: usize = 0;
    assert(text::all_of(ps@) =~= numerals(ports@).take(0));
    while j < ports.len()
        invariant
            j <= ports@.len(),
            text::all_of(ps@) == numerals(ports@).take(j as int),
        decreases ports@.len() - j,
    {
        let ghost done = ps@;
        let q = text::decimal_u64(ports[j] as u64);
        ps.push(q);
        j += 1;
        assert(text::all_of(ps@) =~= text::all_of(done).push(q@));
        assert(text::all_of(ps@) =~= numerals(ports@).take(j as int));
    }
    assert(numerals(ports@).take(j as int) =~= numerals(ports@));
    let h = text::join(&hs, ", ");
    let p = text::join(&ps, ", ");
    let mut s = text::join3(name, " { hostnames: [", h.as_str());
    s.append("], tcp_ports: [");
    s.append(p.as_str());
    s.append("]");
    assert(s@ =~= name@ + set_fields(hv, ports@));
    s
}

fn closed_set(name: &str, hostnames: &Vec<String>, ports: &Vec<u16>) -> (r: String)
    ensures
        r@ == name@ + set_fields(frames::names(hostnames@), ports@) + " }"@,
{
    let mut s = set_string(name, hostnames, ports);
    s.append(" }");
    s
}

/// The diagnostic text of a frame. A token never shows.
pub fn describe(f: &ControlFrame) -> (r: String)
    ensures
        r@ == frame_text(f@),
{
    match f {
        ControlFrame::Hello { token: _, agent_version, proto_min, proto_max } => {
            let mut s = text::join3(
                "Hello { token: Secret(***), agent_version: ",
                crypto::debug_of(agent_version.as_str()).as_str(),
                ", proto_min: ",
            );
            s.append(text::decimal_u64(*proto_min as u64).as_str());
            s.append(", proto_max: ");
            s.append(text::decimal_u64(*proto_max as u64).as_str());
            s.append(" }");
            s
        },
        ControlFrame::Welcome { proto, server_version, session_id } => {
            let mut s = text::join3(
                "Welcome { proto: ",
                text::decimal_u64(*proto as u64).as_str(),
                ", server_version: ",
            );
            s.append(crypto::debug_of(server_version.as_str()).as_str());
            s.append(", session_id: ");
            s.append(text::decimal_u64(*session_id).as_str());
            s.append(" }");
            s
        },
        ControlFrame::Denied { code, message } => {
            let mut s = text::join3("Denied { code: ", code.name(), ", message: ");
            s.append(crypto::debug_of(message.as_str()).as_str());
            s.append(" }");
            s
        },
        ControlFrame::Claim { hostnames, tcp_ports } => closed_set("Claim", hostnames, tcp_ports),
        ControlFrame::Granted { hostnames, tcp_ports } => closed_set(
            "Granted",
            hostnames,
            tcp_ports,
        ),
        ControlFrame::Ping { nonce } => text::join3(
            "Ping { nonce: ",
            text::decimal_u64(*nonce).as_str(),
            " }",
        ),
        ControlFrame::Pong { nonce } => text::join3(
            "Pong { nonce: ",
            text::decimal_u64(*nonce).as_str(),
            " }",
        ),
        ControlFrame::Superseded { resource } => {
            let t = match resource {
                Resource::Host(h) => text::join3(
                    "Host(",
                    crypto::debug_of(h.as_str()).as_str(),
                    ")",
                ),
                Resource::Port(p) => text::join3(
                    "Port(",
                    text::decimal_u64(*p as u64).as_str(),
                    ")",
                ),
            };
            text::join3("Superseded { resource: ", t.as_str(), " }")
        },
        ControlFrame::Goodbye => "Goodbye".to_owned(),
        ControlFrame::Shutdown { reason } => text::join3(
            "Shutdown { reason: ",
            crypto::debug_of(reason.as_str()).as_str(),
            " }",
        ),
        ControlFrame::Error { code, message } => {
            let n = match code {
                ErrorCode::MalformedClaim => "MalformedClaim",
                ErrorCode::Internal => "Internal",
            };
            let mut s = text::join3("Error { code: ", n, ", message: ");
            s.append(crypto::debug_of(message.as_str()).as_str());
            s.append(" }");
            s
        },
        ControlFrame::Release { hostnames, tcp_ports } => closed_set(
            "Release",
            hostnames,
            tcp_ports,
        ),
        ControlFrame::Released { hostnames, tcp_ports } => closed_set(
            "Released",
            hostnames,
            tcp_ports,
        ),
        ControlFrame::ListOwned => "ListOwned".to_owned(),
        ControlFrame::Owned { hostnames, tcp_ports, max_tunnels } => {
            let mut s = set_string("Owned", hostnames, tcp_ports);
            s.append(", max_tunnels: ");
            match max_tunnels {
                Some(m) => {
                    let t = text::join3("Some(", text::decimal_i64(*m).as_str(), ")");
                    s.append(t.as_str());
                },
                None => {
                    s.append("None");
                },
            }
            s.append(" }");
            s
        },
    }
}

/// Two `Hello`s that differ in their token alone have the same text.
pub proof fn token_never_shows(
    a: Seq<char>,
    b: Seq<char>,
    agent: Seq<char>,
    min: u16,
    max: u16,
)
    ensures
        frame_text(
            FrameView::Hello { token: a, agent_version: agent, proto_min: min, proto_max: max },
        ) == frame_text(
            FrameView::Hello { token: b, agent_version: agent, proto_min: min, proto_max: max },
        ),
{
}

/// The text of a frame begins with the frame's name.
pub proof fn texts_begin_with_the_name(f: FrameView)
    ensures
        (match f {
            FrameView::Hello { .. } => "Hello {"@,
            FrameView::Welcome { .. } => "Welcome {"@,
            FrameView::Denied { .. } => "Denied {"@,
            FrameView::Claim { .. } => "Claim"@,
            FrameView::Granted { .. } => "Granted"@,
            FrameView::Ping { .. } => "Ping {"@,
            FrameView::Pong { .. } => "Pong {"@,
            FrameView::Superseded { .. } => "Superseded {"@,
            FrameView::Goodbye => "Goodbye"@,
            FrameView::Shutdown { .. } => "Shutdown {"@,
            FrameView::Error { .. } => "Error {"@,
            FrameView::Release { .. } => "Release"@,
            FrameView::Released { .. } => "Released"@,
            FrameView::ListOwned => "ListOwned"@,
            FrameView::Owned { .. } => "Owned"@,
        }).is_prefix_of(frame_text(f)),
{
    reveal_strlit("Hello {");
    reveal_strlit("Hello { token: Secret(***), agent_version: ");
    reveal_strlit("Welcome {");
    reveal_strlit("Welcome { proto: ");
    reveal_strlit("Denied {");
    reveal_strlit("Denied { code: ");
    reveal_strlit("Ping {");
    reveal_strlit("Ping { nonce: ");
    reveal_strlit("Pong {");
    reveal_strlit("Pong { nonce: ");
    reveal_strlit("Superseded {");
    reveal_strlit("Superseded { resource: ");
    reveal_strlit("Shutdown {");
    reveal_strlit("Shutdown { reason: ");
    reveal_strlit("Error {");
    reveal_strlit("Error { code: ");
}

} // verus!
