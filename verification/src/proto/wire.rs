//! Frames and stream headers as they stand on the wire.
//!
//! Each value is its variant's number and then its fields, in the order in which
//! they are declared, each as postcard encodes it. Nothing names a field, so the
//! order of variants and fields is the format: variants are only ever appended.
//! What follows a value in its frame is ignored.
use vstd::prelude::*;

use crate::proto::codec;
use crate::proto::codec::{CodecError, CodecErrorView};
use crate::proto::frames;
use crate::proto::frames::{
    ControlFrame, DenyCode, ErrorCode, FrameView, IpView, PeerIp, Resource, ResourceView, Secret,
    StreamHeader, StreamView,
};

verus! {

/// The encoding of an unsigned number: seven bits to a byte, the least
/// significant first, the high bit set on all but the last. It does not depend
/// on the number's width.
pub open spec fn number_bytes(n: u64) -> Seq<u8>
    decreases n,
{
    if n < 128 {
        seq![n as u8]
    } else {
        seq![(n % 128 + 128) as u8] + number_bytes(n / 128)
    }
}

/// The encoding of a text: the number of its bytes and its bytes, in UTF-8.
pub open spec fn text_bytes(text: Seq<char>) -> Seq<u8> {
    let bytes = vstd::utf8::encode_utf8(text);
    number_bytes(bytes.len() as u64) + bytes
}

/// The encodings of texts, one after the other.
pub open spec fn texts_bytes(texts: Seq<Seq<char>>) -> Seq<u8>
    decreases texts.len(),
{
    if texts.len() == 0 {
        Seq::empty()
    } else {
        texts_bytes(texts.drop_last()) + text_bytes(texts.last())
    }
}

/// The encodings of numbers, one after the other.
pub open spec fn numbers_bytes(numbers: Seq<u16>) -> Seq<u8>
    decreases numbers.len(),
{
    if numbers.len() == 0 {
        Seq::empty()
    } else {
        numbers_bytes(numbers.drop_last()) + number_bytes(numbers.last() as u64)
    }
}

/// The encoding of a list of names followed by a list of ports: each list is
/// its length and its elements.
pub open spec fn lists_bytes(names: Seq<Seq<char>>, ports: Seq<u16>) -> Seq<u8> {
    number_bytes(names.len() as u64) + texts_bytes(names) + number_bytes(ports.len() as u64)
        + numbers_bytes(ports)
}

/// A signed number as an unsigned one, the sign in the lowest bit.
pub open spec fn zigzag(n: i64) -> u64 {
    if n >= 0 {
        (2 * n) as u64
    } else {
        (-2 * n - 1) as u64
    }
}

/// The encoding of a limit that may be absent: whether it is there, and the
/// limit.
pub open spec fn limit_bytes(limit: Option<i64>) -> Seq<u8> {
    match limit {
        Some(n) => seq![1u8] + number_bytes(zigzag(n)),
        None => seq![0u8],
    }
}

/// The 16-bit number a byte string begins with and what follows it, or why
/// there is none.
pub uninterp spec fn taken_u16(bytes: Seq<u8>) -> Result<(u16, Seq<u8>), Seq<char>>;

/// The 32-bit number a byte string begins with and what follows it, or why
/// there is none.
pub uninterp spec fn taken_u32(bytes: Seq<u8>) -> Result<(u32, Seq<u8>), Seq<char>>;

/// The 64-bit number a byte string begins with and what follows it, or why
/// there is none.
pub uninterp spec fn taken_u64(bytes: Seq<u8>) -> Result<(u64, Seq<u8>), Seq<char>>;

/// The text a byte string begins with and what follows it, or why there is
/// none, on a machine whose sizes have this many bits.
pub uninterp spec fn taken_text(bytes: Seq<u8>, bits: u32) -> Result<
    (Seq<char>, Seq<u8>),
    Seq<char>,
>;

/// The names and ports a byte string begins with and what follows them, or why
/// there are none, on a machine whose sizes have this many bits.
pub uninterp spec fn taken_lists(bytes: Seq<u8>, bits: u32) -> Result<
    (Seq<Seq<char>>, Seq<u16>, Seq<u8>),
    Seq<char>,
>;

/// The limit a byte string begins with and what follows it, or why there is
/// none.
pub uninterp spec fn taken_limit(bytes: Seq<u8>) -> Result<(Option<i64>, Seq<u8>), Seq<char>>;

/// `postcard::to_stdvec` of a number, which never fails. The encoding of a
/// number is the same for every width that holds it, and reading it back, with
/// anything behind it, gives the number and what was behind it.
#[verifier::external_body]
fn put_number(n: u64) -> (r: Vec<u8>)
    ensures
        r@ == number_bytes(n),
        (forall|rest: Seq<u8>| #[trigger] taken_u64(r@ + rest) == Ok::<_, Seq<char>>((n, rest))),
        (n <= u32::MAX ==> forall|rest: Seq<u8>| #[trigger]
            taken_u32(r@ + rest) == Ok::<_, Seq<char>>((n as u32, rest))),
        (n <= u16::MAX ==> forall|rest: Seq<u8>| #[trigger]
            taken_u16(r@ + rest) == Ok::<_, Seq<char>>((n as u16, rest))),
{
    postcard::to_stdvec(&n).unwrap()
}

/// `postcard::to_stdvec` of a text, which never fails. Reading it back, with
/// anything behind it, gives the text and what was behind it.
#[verifier::external_body]
fn put_text(text: &str) -> (r: Vec<u8>)
    ensures
        r@ == text_bytes(text@),
        (forall|rest: Seq<u8>| #[trigger]
            taken_text(r@ + rest, usize::BITS) == Ok::<_, Seq<char>>((text@, rest))),
{
    postcard::to_stdvec(text).unwrap()
}

/// `postcard::to_stdvec` of a list of texts and a list of numbers, which never
/// fails. Reading them back, with anything behind them, gives both and what was
/// behind them.
#[verifier::external_body]
fn put_lists(names: &Vec<String>, ports: &Vec<u16>) -> (r: Vec<u8>)
    ensures
        r@ == lists_bytes(frames::names(names@), ports@),
        (forall|rest: Seq<u8>| #[trigger]
            taken_lists(r@ + rest, usize::BITS) == Ok::<_, Seq<char>>(
                (frames::names(names@), ports@, rest),
            )),
{
    postcard::to_stdvec(&(names, ports)).unwrap()
}

/// `postcard::to_stdvec` of an optional number, which never fails. Reading it
/// back, with anything behind it, gives it and what was behind it.
#[verifier::external_body]
fn put_limit(limit: Option<i64>) -> (r: Vec<u8>)
    ensures
        r@ == limit_bytes(limit),
        (forall|rest: Seq<u8>| #[trigger]
            taken_limit(r@ + rest) == Ok::<_, Seq<char>>((limit, rest))),
{
    postcard::to_stdvec(&limit).unwrap()
}

/// `postcard::take_from_bytes` of a `u16`: a function of the bytes alone.
#[verifier::external_body]
fn take_u16(bytes: &[u8]) -> (r: Result<(u16, Vec<u8>), String>)
    ensures
        taken_u16(bytes@) == (match r {
            Ok((n, rest)) => Ok((n, rest@)),
            Err(e) => Err(e@),
        }),
{
    match postcard::take_from_bytes::<u16>(bytes) {
        Ok((n, rest)) => Ok((n, rest.to_vec())),
        Err(e) => Err(e.to_string()),
    }
}

/// `postcard::take_from_bytes` of a `u32`: a function of the bytes alone.
#[verifier::external_body]
fn take_u32(bytes: &[u8]) -> (r: Result<(u32, Vec<u8>), String>)
    ensures
        taken_u32(bytes@) == (match r {
            Ok((n, rest)) => Ok((n, rest@)),
            Err(e) => Err(e@),
        }),
{
    match postcard::take_from_bytes::<u32>(bytes) {
        Ok((n, rest)) => Ok((n, rest.to_vec())),
        Err(e) => Err(e.to_string()),
    }
}

/// `postcard::take_from_bytes` of a `u64`: a function of the bytes alone.
#[verifier::external_body]
fn take_u64(bytes: &[u8]) -> (r: Result<(u64, Vec<u8>), String>)
    ensures
        taken_u64(bytes@) == (match r {
            Ok((n, rest)) => Ok((n, rest@)),
            Err(e) => Err(e@),
        }),
{
    match postcard::take_from_bytes::<u64>(bytes) {
        Ok((n, rest)) => Ok((n, rest.to_vec())),
        Err(e) => Err(e.to_string()),
    }
}

/// `postcard::take_from_bytes` of a `String`: a function of the bytes and of how
/// wide the machine's sizes are, as a length is cut to that width.
#[verifier::external_body]
fn take_text(bytes: &[u8]) -> (r: Result<(String, Vec<u8>), String>)
    ensures
        taken_text(bytes@, usize::BITS) == (match r {
            Ok((t, rest)) => Ok((t@, rest@)),
            Err(e) => Err(e@),
        }),
{
    match postcard::take_from_bytes::<String>(bytes) {
        Ok((t, rest)) => Ok((t, rest.to_vec())),
        Err(e) => Err(e.to_string()),
    }
}

/// `postcard::take_from_bytes` of a `Vec<String>` and a `Vec<u16>`: a function
/// of the bytes and of how wide the machine's sizes are, as a length is cut to
/// that width.
#[verifier::external_body]
fn take_lists(bytes: &[u8]) -> (r: Result<(Vec<String>, Vec<u16>, Vec<u8>), String>)
    ensures
        taken_lists(bytes@, usize::BITS) == (match r {
            Ok((names, ports, rest)) => Ok((frames::names(names@), ports@, rest@)),
            Err(e) => Err(e@),
        }),
{
    match postcard::take_from_bytes::<(Vec<String>, Vec<u16>)>(bytes) {
        Ok(((names, ports), rest)) => Ok((names, ports, rest.to_vec())),
        Err(e) => Err(e.to_string()),
    }
}

/// `postcard::take_from_bytes` of an `Option<i64>`: a function of the bytes
/// alone.
#[verifier::external_body]
fn take_limit(bytes: &[u8]) -> (r: Result<(Option<i64>, Vec<u8>), String>)
    ensures
        taken_limit(bytes@) == (match r {
            Ok((n, rest)) => Ok((n, rest@)),
            Err(e) => Err(e@),
        }),
{
    match postcard::take_from_bytes::<Option<i64>>(bytes) {
        Ok((n, rest)) => Ok((n, rest.to_vec())),
        Err(e) => Err(e.to_string()),
    }
}

/// The error of a variant's number that no variant has.
pub open spec fn no_variant() -> Seq<char> {
    "Serde Deserialization Error"@
}

/// The error of bytes that end too soon.
pub open spec fn cut_short() -> Seq<char> {
    "Hit the end of buffer, expected more data"@
}

/// The number of a deny code.
pub open spec fn deny_number(c: DenyCode) -> u64 {
    match c {
        DenyCode::AuthFailed => 0,
        DenyCode::VersionUnsupported => 1,
        DenyCode::NotOwner => 2,
        DenyCode::UnknownHostname => 3,
        DenyCode::PortNotReserved => 4,
        DenyCode::PortUnavailable => 5,
        DenyCode::LimitExceeded => 6,
        DenyCode::ProtocolError => 7,
    }
}

/// The deny code of a number.
pub open spec fn deny_of(n: u32) -> Option<DenyCode> {
    if n == 0 {
        Some(DenyCode::AuthFailed)
    } else if n == 1 {
        Some(DenyCode::VersionUnsupported)
    } else if n == 2 {
        Some(DenyCode::NotOwner)
    } else if n == 3 {
        Some(DenyCode::UnknownHostname)
    } else if n == 4 {
        Some(DenyCode::PortNotReserved)
    } else if n == 5 {
        Some(DenyCode::PortUnavailable)
    } else if n == 6 {
        Some(DenyCode::LimitExceeded)
    } else if n == 7 {
        Some(DenyCode::ProtocolError)
    } else {
        None
    }
}

fn number_of_deny(c: DenyCode) -> (r: u64)
    ensures
        r == deny_number(c),
{
    match c {
        DenyCode::AuthFailed => 0,
        DenyCode::VersionUnsupported => 1,
        DenyCode::NotOwner => 2,
        DenyCode::UnknownHostname => 3,
        DenyCode::PortNotReserved => 4,
        DenyCode::PortUnavailable => 5,
        DenyCode::LimitExceeded => 6,
        DenyCode::ProtocolError => 7,
    }
}

fn deny_from(n: u32) -> (r: Option<DenyCode>)
    ensures
        r == deny_of(n),
{
    match n {
        0 => Some(DenyCode::AuthFailed),
        1 => Some(DenyCode::VersionUnsupported),
        2 => Some(DenyCode::NotOwner),
        3 => Some(DenyCode::UnknownHostname),
        4 => Some(DenyCode::PortNotReserved),
        5 => Some(DenyCode::PortUnavailable),
        6 => Some(DenyCode::LimitExceeded),
        7 => Some(DenyCode::ProtocolError),
        _ => None,
    }
}

/// The number of an error code.
pub open spec fn error_number(c: ErrorCode) -> u64 {
    match c {
        ErrorCode::MalformedClaim => 0,
        ErrorCode::Internal => 1,
    }
}

/// The encoding of a control frame.
pub open spec fn frame_bytes(f: FrameView) -> Seq<u8> {
    match f {
        FrameView::Hello { token, agent_version, proto_min, proto_max } => number_bytes(0) + (
        text_bytes(token) + (text_bytes(agent_version) + (number_bytes(proto_min as u64)
            + number_bytes(proto_max as u64)))),
        FrameView::Welcome { proto, server_version, session_id } => number_bytes(1) + (number_bytes(
            proto as u64,
        ) + (text_bytes(server_version) + number_bytes(session_id))),
        FrameView::Denied { code, message } => number_bytes(2) + (number_bytes(deny_number(code))
            + text_bytes(message)),
        FrameView::Claim { hostnames, tcp_ports } => number_bytes(3) + lists_bytes(
            hostnames,
            tcp_ports,
        ),
        FrameView::Granted { hostnames, tcp_ports } => number_bytes(4) + lists_bytes(
            hostnames,
            tcp_ports,
        ),
        FrameView::Ping { nonce } => number_bytes(5) + number_bytes(nonce),
        FrameView::Pong { nonce } => number_bytes(6) + number_bytes(nonce),
        FrameView::Superseded { resource } => number_bytes(7) + (match resource {
            ResourceView::Host(h) => number_bytes(0) + text_bytes(h),
            ResourceView::Port(p) => number_bytes(1) + number_bytes(p as u64),
        }),
        FrameView::Goodbye => number_bytes(8),
        FrameView::Shutdown { reason } => number_bytes(9) + text_bytes(reason),
        FrameView::Error { code, message } => number_bytes(10) + (number_bytes(error_number(code))
            + text_bytes(message)),
        FrameView::Release { hostnames, tcp_ports } => number_bytes(11) + lists_bytes(
            hostnames,
            tcp_ports,
        ),
        FrameView::Released { hostnames, tcp_ports } => number_bytes(12) + lists_bytes(
            hostnames,
            tcp_ports,
        ),
        FrameView::ListOwned => number_bytes(13),
        FrameView::Owned { hostnames, tcp_ports, max_tunnels } => number_bytes(14) + (lists_bytes(
            hostnames,
            tcp_ports,
        ) + limit_bytes(max_tunnels)),
    }
}

/// The fields of a `Hello`.
pub open spec fn hello_of(b: Seq<u8>, bits: u32) -> Result<FrameView, Seq<char>> {
    match taken_text(b, bits) {
        Err(e) => Err(e),
        Ok((token, c)) => match taken_text(c, bits) {
            Err(e) => Err(e),
            Ok((agent_version, d)) => match taken_u16(d) {
                Err(e) => Err(e),
                Ok((proto_min, g)) => match taken_u16(g) {
                    Err(e) => Err(e),
                    Ok((proto_max, _)) => Ok(
                        FrameView::Hello { token, agent_version, proto_min, proto_max },
                    ),
                },
            },
        },
    }
}

/// The fields of a `Welcome`.
pub open spec fn welcome_of(b: Seq<u8>, bits: u32) -> Result<FrameView, Seq<char>> {
    match taken_u16(b) {
        Err(e) => Err(e),
        Ok((proto, c)) => match taken_text(c, bits) {
            Err(e) => Err(e),
            Ok((server_version, d)) => match taken_u64(d) {
                Err(e) => Err(e),
                Ok((session_id, _)) => Ok(
                    FrameView::Welcome { proto, server_version, session_id },
                ),
            },
        },
    }
}

/// The fields of a `Denied`.
pub open spec fn denied_of(b: Seq<u8>, bits: u32) -> Result<FrameView, Seq<char>> {
    match taken_u32(b) {
        Err(e) => Err(e),
        Ok((n, c)) => match deny_of(n) {
            None => Err(no_variant()),
            Some(code) => match taken_text(c, bits) {
                Err(e) => Err(e),
                Ok((message, _)) => Ok(FrameView::Denied { code, message }),
            },
        },
    }
}

/// The fields of an `Error`.
pub open spec fn error_of(b: Seq<u8>, bits: u32) -> Result<FrameView, Seq<char>> {
    match taken_u32(b) {
        Err(e) => Err(e),
        Ok((n, c)) => if n > 1 {
            Err(no_variant())
        } else {
            match taken_text(c, bits) {
                Err(e) => Err(e),
                Ok((message, _)) => Ok(
                    FrameView::Error {
                        code: if n == 0 {
                            ErrorCode::MalformedClaim
                        } else {
                            ErrorCode::Internal
                        },
                        message,
                    },
                ),
            }
        },
    }
}

/// The fields of a `Superseded`.
pub open spec fn superseded_of(b: Seq<u8>, bits: u32) -> Result<FrameView, Seq<char>> {
    match taken_u32(b) {
        Err(e) => Err(e),
        Ok((n, c)) => if n == 0 {
            match taken_text(c, bits) {
                Err(e) => Err(e),
                Ok((h, _)) => Ok(FrameView::Superseded { resource: ResourceView::Host(h) }),
            }
        } else if n == 1 {
            match taken_u16(c) {
                Err(e) => Err(e),
                Ok((p, _)) => Ok(FrameView::Superseded { resource: ResourceView::Port(p) }),
            }
        } else {
            Err(no_variant())
        },
    }
}

/// The fields of a frame of two lists: number 3, 4, 11 or 12.
pub open spec fn lists_of(n: u32, b: Seq<u8>, bits: u32) -> Result<FrameView, Seq<char>> {
    match taken_lists(b, bits) {
        Err(e) => Err(e),
        Ok((hostnames, tcp_ports, _)) => Ok(
            if n == 3 {
                FrameView::Claim { hostnames, tcp_ports }
            } else if n == 4 {
                FrameView::Granted { hostnames, tcp_ports }
            } else if n == 11 {
                FrameView::Release { hostnames, tcp_ports }
            } else {
                FrameView::Released { hostnames, tcp_ports }
            },
        ),
    }
}

/// The fields of an `Owned`.
pub open spec fn owned_of(b: Seq<u8>, bits: u32) -> Result<FrameView, Seq<char>> {
    match taken_lists(b, bits) {
        Err(e) => Err(e),
        Ok((hostnames, tcp_ports, c)) => match taken_limit(c) {
            Err(e) => Err(e),
            Ok((max_tunnels, _)) => Ok(FrameView::Owned { hostnames, tcp_ports, max_tunnels }),
        },
    }
}

/// The control frame a byte string begins with, or why there is none, on a
/// machine whose sizes have this many bits.
pub open spec fn frame_of(bytes: Seq<u8>, bits: u32) -> Result<FrameView, Seq<char>> {
    match taken_u32(bytes) {
        Err(e) => Err(e),
        Ok((n, b)) => if n == 0 {
            hello_of(b, bits)
        } else if n == 1 {
            welcome_of(b, bits)
        } else if n == 2 {
            denied_of(b, bits)
        } else if n == 3 || n == 4 || n == 11 || n == 12 {
            lists_of(n, b, bits)
        } else if n == 5 || n == 6 {
            match taken_u64(b) {
                Err(e) => Err(e),
                Ok((nonce, _)) => Ok(
                    if n == 5 {
                        FrameView::Ping { nonce }
                    } else {
                        FrameView::Pong { nonce }
                    },
                ),
            }
        } else if n == 7 {
            superseded_of(b, bits)
        } else if n == 8 {
            Ok(FrameView::Goodbye)
        } else if n == 9 {
            match taken_text(b, bits) {
                Err(e) => Err(e),
                Ok((reason, _)) => Ok(FrameView::Shutdown { reason }),
            }
        } else if n == 10 {
            error_of(b, bits)
        } else if n == 13 {
            Ok(FrameView::ListOwned)
        } else if n == 14 {
            owned_of(b, bits)
        } else {
            Err(no_variant())
        },
    }
}

/// View of what decoding a frame gave.
pub open spec fn decoded(r: Result<ControlFrame, String>) -> Result<FrameView, Seq<char>> {
    match r {
        Ok(f) => Ok(f@),
        Err(e) => Err(e@),
    }
}

fn joined(a: Vec<u8>, b: Vec<u8>) -> (r: Vec<u8>)
    ensures
        r@ == a@ + b@,
{
    let mut out = a;
    let mut tail = b;
    out.append(&mut tail);
    out
}

/// The last field of a value has nothing behind it.
proof fn lemma_nothing_behind(b: Seq<u8>)
    ensures
        b + Seq::<u8>::empty() == b,
{
    assert(b + Seq::<u8>::empty() =~= b);
}

/// A variant's number and two lists.
fn encode_lists(n: u64, hostnames: &Vec<String>, tcp_ports: &Vec<u16>) -> (r: Vec<u8>)
    requires
        n == 3 || n == 4 || n == 11 || n == 12,
    ensures
        r@ == number_bytes(n) + lists_bytes(frames::names(hostnames@), tcp_ports@),
        frame_of(r@, usize::BITS) == lists_of(
            n as u32,
            lists_bytes(frames::names(hostnames@), tcp_ports@),
            usize::BITS,
        ),
        taken_lists(lists_bytes(frames::names(hostnames@), tcp_ports@), usize::BITS) == Ok::<
            _,
            Seq<char>,
        >((frames::names(hostnames@), tcp_ports@, Seq::<u8>::empty())),
{
    let lists = put_lists(hostnames, tcp_ports);
    proof {
        lemma_nothing_behind(lists@);
    }
    joined(put_number(n), lists)
}

/// Encode a control frame. Decoding it again gives the frame.
pub fn encode_frame(frame: &ControlFrame) -> (r: Vec<u8>)
    ensures
        r@ == frame_bytes(frame@),
        frame_of(r@, usize::BITS) == Ok::<FrameView, Seq<char>>(frame@),
{
    match frame {
        ControlFrame::Hello { token, agent_version, proto_min, proto_max } => {
            let last = put_number(*proto_max as u64);
            proof {
                lemma_nothing_behind(last@);
            }
            let c = joined(put_number(*proto_min as u64), last);
            let b = joined(put_text(agent_version.as_str()), c);
            let a = joined(put_text(token.0.as_str()), b);
            joined(put_number(0), a)
        },
        ControlFrame::Welcome { proto, server_version, session_id } => {
            let last = put_number(*session_id);
            proof {
                lemma_nothing_behind(last@);
            }
            let b = joined(put_text(server_version.as_str()), last);
            let a = joined(put_number(*proto as u64), b);
            joined(put_number(1), a)
        },
        ControlFrame::Denied { code, message } => {
            let last = put_text(message.as_str());
            proof {
                lemma_nothing_behind(last@);
            }
            let a = joined(put_number(number_of_deny(*code)), last);
            joined(put_number(2), a)
        },
        ControlFrame::Claim { hostnames, tcp_ports } => encode_lists(3, hostnames, tcp_ports),
        ControlFrame::Granted { hostnames, tcp_ports } => encode_lists(4, hostnames, tcp_ports),
        ControlFrame::Ping { nonce } => {
            let last = put_number(*nonce);
            proof {
                lemma_nothing_behind(last@);
            }
            joined(put_number(5), last)
        },
        ControlFrame::Pong { nonce } => {
            let last = put_number(*nonce);
            proof {
                lemma_nothing_behind(last@);
            }
            joined(put_number(6), last)
        },
        ControlFrame::Superseded { resource } => {
            let a = match resource {
                Resource::Host(h) => {
                    let last = put_text(h.as_str());
                    proof {
                        lemma_nothing_behind(last@);
                    }
                    joined(put_number(0), last)
                },
                Resource::Port(p) => {
                    let last = put_number(*p as u64);
                    proof {
                        lemma_nothing_behind(last@);
                    }
                    joined(put_number(1), last)
                },
            };
            joined(put_number(7), a)
        },
        ControlFrame::Goodbye => {
            let last = put_number(8);
            proof {
                lemma_nothing_behind(last@);
            }
            last
        },
        ControlFrame::Shutdown { reason } => {
            let last = put_text(reason.as_str());
            proof {
                lemma_nothing_behind(last@);
            }
            joined(put_number(9), last)
        },
        ControlFrame::Error { code, message } => {
            let last = put_text(message.as_str());
            proof {
                lemma_nothing_behind(last@);
            }
            let n: u64 = match code {
                ErrorCode::MalformedClaim => 0,
                ErrorCode::Internal => 1,
            };
            let a = joined(put_number(n), last);
            joined(put_number(10), a)
        },
        ControlFrame::Release { hostnames, tcp_ports } => encode_lists(11, hostnames, tcp_ports),
        ControlFrame::Released { hostnames, tcp_ports } => encode_lists(12, hostnames, tcp_ports),
        ControlFrame::ListOwned => {
            let last = put_number(13);
            proof {
                lemma_nothing_behind(last@);
            }
            last
        },
        ControlFrame::Owned { hostnames, tcp_ports, max_tunnels } => {
            let last = put_limit(*max_tunnels);
            proof {
                lemma_nothing_behind(last@);
            }
            let a = joined(put_lists(hostnames, tcp_ports), last);
            joined(put_number(14), a)
        },
    }
}

fn decode_hello(b: &[u8]) -> (r: Result<ControlFrame, String>)
    ensures
        decoded(r) == hello_of(b@, usize::BITS),
{
    match take_text(b) {
        Err(e) => Err(e),
        Ok((token, c)) => match take_text(c.as_slice()) {
            Err(e) => Err(e),
            Ok((agent_version, d)) => match take_u16(d.as_slice()) {
                Err(e) => Err(e),
                Ok((proto_min, g)) => match take_u16(g.as_slice()) {
                    Err(e) => Err(e),
                    Ok((proto_max, _)) => Ok(
                        ControlFrame::Hello {
                            token: Secret(token),
                            agent_version,
                            proto_min,
                            proto_max,
                        },
                    ),
                },
            },
        },
    }
}

fn decode_welcome(b: &[u8]) -> (r: Result<ControlFrame, String>)
    ensures
        decoded(r) == welcome_of(b@, usize::BITS),
{
    match take_u16(b) {
        Err(e) => Err(e),
        Ok((proto, c)) => match take_text(c.as_slice()) {
            Err(e) => Err(e),
            Ok((server_version, d)) => match take_u64(d.as_slice()) {
                Err(e) => Err(e),
                Ok((session_id, _)) => Ok(
                    ControlFrame::Welcome { proto, server_version, session_id },
                ),
            },
        },
    }
}

fn decode_denied(b: &[u8]) -> (r: Result<ControlFrame, String>)
    ensures
        decoded(r) == denied_of(b@, usize::BITS),
{
    match take_u32(b) {
        Err(e) => Err(e),
        Ok((n, c)) => match deny_from(n) {
            None => Err("Serde Deserialization Error".to_owned()),
            Some(code) => match take_text(c.as_slice()) {
                Err(e) => Err(e),
                Ok((message, _)) => Ok(ControlFrame::Denied { code, message }),
            },
        },
    }
}

fn decode_error(b: &[u8]) -> (r: Result<ControlFrame, String>)
    ensures
        decoded(r) == error_of(b@, usize::BITS),
{
    match take_u32(b) {
        Err(e) => Err(e),
        Ok((n, c)) => {
            if n > 1 {
                return Err("Serde Deserialization Error".to_owned());
            }
            match take_text(c.as_slice()) {
                Err(e) => Err(e),
                Ok((message, _)) => {
                    let code = if n == 0 {
                        ErrorCode::MalformedClaim
                    } else {
                        ErrorCode::Internal
                    };
                    Ok(ControlFrame::Error { code, message })
                },
            }
        },
    }
}

fn decode_superseded(b: &[u8]) -> (r: Result<ControlFrame, String>)
    ensures
        decoded(r) == superseded_of(b@, usize::BITS),
{
    match take_u32(b) {
        Err(e) => Err(e),
        Ok((n, c)) => {
            if n == 0 {
                match take_text(c.as_slice()) {
                    Err(e) => Err(e),
                    Ok((h, _)) => Ok(ControlFrame::Superseded { resource: Resource::Host(h) }),
                }
            } else if n == 1 {
                match take_u16(c.as_slice()) {
                    Err(e) => Err(e),
                    Ok((p, _)) => Ok(ControlFrame::Superseded { resource: Resource::Port(p) }),
                }
            } else {
                Err("Serde Deserialization Error".to_owned())
            }
        },
    }
}

fn decode_lists(n: u32, b: &[u8]) -> (r: Result<ControlFrame, String>)
    ensures
        decoded(r) == lists_of(n, b@, usize::BITS),
{
    match take_lists(b) {
        Err(e) => Err(e),
        Ok((hostnames, tcp_ports, _)) => Ok(
            if n == 3 {
                ControlFrame::Claim { hostnames, tcp_ports }
            } else if n == 4 {
                ControlFrame::Granted { hostnames, tcp_ports }
            } else if n == 11 {
                ControlFrame::Release { hostnames, tcp_ports }
            } else {
                ControlFrame::Released { hostnames, tcp_ports }
            },
        ),
    }
}

fn decode_owned(b: &[u8]) -> (r: Result<ControlFrame, String>)
    ensures
        decoded(r) == owned_of(b@, usize::BITS),
{
    match take_lists(b) {
        Err(e) => Err(e),
        Ok((hostnames, tcp_ports, c)) => match take_limit(c.as_slice()) {
            Err(e) => Err(e),
            Ok((max_tunnels, _)) => Ok(ControlFrame::Owned { hostnames, tcp_ports, max_tunnels }),
        },
    }
}

/// Decode a control frame; what follows it is ignored.
pub fn decode_frame(bytes: &[u8]) -> (r: Result<ControlFrame, String>)
    ensures
        decoded(r) == frame_of(bytes@, usize::BITS),
{
    let (n, rest) = match take_u32(bytes) {
        Err(e) => return Err(e),
        Ok(t) => t,
    };
    let b = rest.as_slice();
    match n {
        0 => decode_hello(b),
        1 => decode_welcome(b),
        2 => decode_denied(b),
        3 | 4 | 11 | 12 => decode_lists(n, b),
        5 => match take_u64(b) {
            Err(e) => Err(e),
            Ok((nonce, _)) => Ok(ControlFrame::Ping { nonce }),
        },
        6 => match take_u64(b) {
            Err(e) => Err(e),
            Ok((nonce, _)) => Ok(ControlFrame::Pong { nonce }),
        },
        7 => decode_superseded(b),
        8 => Ok(ControlFrame::Goodbye),
        9 => match take_text(b) {
            Err(e) => Err(e),
            Ok((reason, _)) => Ok(ControlFrame::Shutdown { reason }),
        },
        10 => decode_error(b),
        13 => Ok(ControlFrame::ListOwned),
        14 => decode_owned(b),
        _ => Err("Serde Deserialization Error".to_owned()),
    }
}

/// The encoding of an address: its family's number and its octets.
pub open spec fn ip_bytes(ip: IpView) -> Seq<u8> {
    match ip {
        IpView::V4(o) => number_bytes(0) + o,
        IpView::V6(o) => number_bytes(1) + o,
    }
}

/// The encoding of a stream header.
pub open spec fn header_bytes(h: StreamView) -> Seq<u8> {
    match h {
        StreamView::Http { host, peer_ip, peer_port } => number_bytes(0) + (text_bytes(host) + (
        ip_bytes(peer_ip) + number_bytes(peer_port as u64))),
        StreamView::Tcp { port, peer_ip, peer_port } => number_bytes(1) + (number_bytes(port as u64)
            + (ip_bytes(peer_ip) + number_bytes(peer_port as u64))),
    }
}

/// The address a byte string begins with and what follows it.
pub open spec fn ip_of(b: Seq<u8>) -> Result<(IpView, Seq<u8>), Seq<char>> {
    match taken_u32(b) {
        Err(e) => Err(e),
        Ok((n, c)) => if n > 1 {
            Err(no_variant())
        } else {
            let width: int = if n == 0 {
                4
            } else {
                16
            };
            if c.len() < width {
                Err(cut_short())
            } else if n == 0 {
                Ok((IpView::V4(c.take(4)), c.skip(4)))
            } else {
                Ok((IpView::V6(c.take(16)), c.skip(16)))
            }
        },
    }
}

/// An address and a port.
pub open spec fn peer_of(b: Seq<u8>) -> Result<(IpView, u16), Seq<char>> {
    match ip_of(b) {
        Err(e) => Err(e),
        Ok((ip, c)) => match taken_u16(c) {
            Err(e) => Err(e),
            Ok((port, _)) => Ok((ip, port)),
        },
    }
}

/// The stream header a byte string begins with, or why there is none, on a
/// machine whose sizes have this many bits.
pub open spec fn header_of(bytes: Seq<u8>, bits: u32) -> Result<StreamView, Seq<char>> {
    match taken_u32(bytes) {
        Err(e) => Err(e),
        Ok((n, b)) => if n == 0 {
            match taken_text(b, bits) {
                Err(e) => Err(e),
                Ok((host, c)) => match peer_of(c) {
                    Err(e) => Err(e),
                    Ok((peer_ip, peer_port)) => Ok(StreamView::Http { host, peer_ip, peer_port }),
                },
            }
        } else if n == 1 {
            match taken_u16(b) {
                Err(e) => Err(e),
                Ok((port, c)) => match peer_of(c) {
                    Err(e) => Err(e),
                    Ok((peer_ip, peer_port)) => Ok(StreamView::Tcp { port, peer_ip, peer_port }),
                },
            }
        } else {
            Err(no_variant())
        },
    }
}

/// View of what decoding a stream header gave.
pub open spec fn decoded_header(r: Result<StreamHeader, String>) -> Result<StreamView, Seq<char>> {
    match r {
        Ok(h) => Ok(h@),
        Err(e) => Err(e@),
    }
}

/// An address and a port.
fn encode_peer(ip: &PeerIp, port: u16) -> (r: Vec<u8>)
    ensures
        r@ == ip_bytes(ip@) + number_bytes(port as u64),
        peer_of(r@) == Ok::<_, Seq<char>>((ip@, port)),
{
    let last = put_number(port as u64);
    let ghost tail = last@;
    let mut octets: Vec<u8> = Vec::new();
    let tag: u64 = match ip {
        PeerIp::V4(o) => {
            let mut i: usize = 0;
            while i < 4
                invariant
                    i <= 4,
                    octets@ == o@.take(i as int),
                decreases 4 - i,
            {
                octets.push(o[i]);
                i += 1;
                assert(octets@ =~= o@.take(i as int));
            }
            assert(octets@ =~= o@);
            0
        },
        PeerIp::V6(o) => {
            let mut i: usize = 0;
            while i < 16
                invariant
                    i <= 16,
                    octets@ == o@.take(i as int),
                decreases 16 - i,
            {
                octets.push(o[i]);
                i += 1;
                assert(octets@ =~= o@.take(i as int));
            }
            assert(octets@ =~= o@);
            1
        },
    };
    let ghost o = octets@;
    let head = put_number(tag);
    let rest = joined(octets, last);
    let ghost h = head@;
    let r = joined(head, rest);
    proof {
        lemma_nothing_behind(tail);
        assert(r@ =~= (h + o) + tail);
        assert(rest@.take(o.len() as int) =~= o);
        assert(rest@.skip(o.len() as int) =~= tail);
    }
    r
}

/// Encode a stream header. Decoding it again gives the header.
pub fn encode_header(header: &StreamHeader) -> (r: Vec<u8>)
    ensures
        r@ == header_bytes(header@),
        header_of(r@, usize::BITS) == Ok::<StreamView, Seq<char>>(header@),
{
    match header {
        StreamHeader::Http { host, peer_ip, peer_port } => {
            let peer = encode_peer(peer_ip, *peer_port);
            let a = joined(put_text(host.as_str()), peer);
            joined(put_number(0), a)
        },
        StreamHeader::Tcp { port, peer_ip, peer_port } => {
            let peer = encode_peer(peer_ip, *peer_port);
            let a = joined(put_number(*port as u64), peer);
            joined(put_number(1), a)
        },
    }
}

fn decode_peer(b: &[u8]) -> (r: Result<(PeerIp, u16), String>)
    ensures
        peer_of(b@) == (match r {
            Ok((ip, port)) => Ok((ip@, port)),
            Err(e) => Err(e@),
        }),
{
    let (n, c) = match take_u32(b) {
        Err(e) => return Err(e),
        Ok(t) => t,
    };
    if n > 1 {
        return Err("Serde Deserialization Error".to_owned());
    }
    let width: usize = if n == 0 {
        4
    } else {
        16
    };
    if c.len() < width {
        return Err("Hit the end of buffer, expected more data".to_owned());
    }
    let ip = if n == 0 {
        let o: [u8; 4] = [c[0], c[1], c[2], c[3]];
        assert(o@ =~= c@.take(4));
        PeerIp::V4(o)
    } else {
        let o: [u8; 16] = [
            c[0],
            c[1],
            c[2],
            c[3],
            c[4],
            c[5],
            c[6],
            c[7],
            c[8],
            c[9],
            c[10],
            c[11],
            c[12],
            c[13],
            c[14],
            c[15],
        ];
        assert(o@ =~= c@.take(16));
        PeerIp::V6(o)
    };
    let mut behind: Vec<u8> = Vec::new();
    let mut i: usize = width;
    while i < c.len()
        invariant
            width <= i <= c@.len(),
            behind@ == c@.subrange(width as int, i as int),
        decreases c@.len() - i,
    {
        behind.push(c[i]);
        i += 1;
        assert(behind@ =~= c@.subrange(width as int, i as int));
    }
    assert(behind@ =~= c@.skip(width as int));
    match take_u16(behind.as_slice()) {
        Err(e) => Err(e),
        Ok((port, _)) => Ok((ip, port)),
    }
}

/// Decode a stream header; what follows it is ignored.
pub fn decode_header(bytes: &[u8]) -> (r: Result<StreamHeader, String>)
    ensures
        decoded_header(r) == header_of(bytes@, usize::BITS),
{
    let (n, b) = match take_u32(bytes) {
        Err(e) => return Err(e),
        Ok(t) => t,
    };
    match n {
        0 => match take_text(b.as_slice()) {
            Err(e) => Err(e),
            Ok((host, c)) => match decode_peer(c.as_slice()) {
                Err(e) => Err(e),
                Ok((peer_ip, peer_port)) => Ok(StreamHeader::Http { host, peer_ip, peer_port }),
            },
        },
        1 => match take_u16(b.as_slice()) {
            Err(e) => Err(e),
            Ok((port, c)) => match decode_peer(c.as_slice()) {
                Err(e) => Err(e),
                Ok((peer_ip, peer_port)) => Ok(StreamHeader::Tcp { port, peer_ip, peer_port }),
            },
        },
        _ => Err("Serde Deserialization Error".to_owned()),
    }
}

/// What reading one control frame off `wire` gives, on a machine whose sizes
/// have this many bits: the frame and what is left.
pub open spec fn control_read(wire: Seq<u8>, max: nat, bits: u32) -> Result<
    (FrameView, Seq<u8>),
    CodecErrorView,
> {
    match codec::parse_frame(wire, max) {
        Err(e) => Err(e),
        Ok((payload, rest)) => match frame_of(payload, bits) {
            Err(e) => Err(CodecErrorView::Postcard(e)),
            Ok(f) => Ok((f, rest)),
        },
    }
}

/// Append a control frame, or reject it as over `max`. A frame that was written
/// is read back as it was, and a reader stops where it ends, whatever follows.
pub fn write_control(out: &mut Vec<u8>, frame: &ControlFrame, max: usize) -> (r: Result<
    (),
    CodecError,
>)
    ensures
        match r {
            Ok(_) => {
                &&& frame_bytes(frame@).len() <= codec::ceiling(max)
                &&& final(out)@ == old(out)@ + codec::framed(frame_bytes(frame@))
                &&& forall|rest: Seq<u8>| #[trigger]
                    control_read(
                        codec::framed(frame_bytes(frame@)) + rest,
                        max as nat,
                        usize::BITS,
                    ) == Ok::<_, CodecErrorView>((frame@, rest))
            },
            Err(e) => {
                &&& frame_bytes(frame@).len() > codec::ceiling(max)
                &&& final(out)@ == old(out)@
                &&& e@ == (CodecErrorView::TooLarge {
                    len: frame_bytes(frame@).len(),
                    max: codec::exceeded(frame_bytes(frame@).len(), max),
                })
            },
        },
{
    let payload = encode_frame(frame);
    match codec::write_frame(out, payload.as_slice(), max) {
        Err(e) => Err(e),
        Ok(_) => {
            proof {
                let p = frame_bytes(frame@);
                assert forall|rest: Seq<u8>| #[trigger]
                    control_read(codec::framed(p) + rest, max as nat, usize::BITS) == Ok::<
                        _,
                        CodecErrorView,
                    >((frame@, rest)) by {
                    codec::frame_round_trip(p, rest, max as nat);
                }
            }
            Ok(())
        },
    }
}

/// Read one control frame from position `at` on: the frame and the position
/// behind it.
pub fn read_control(wire: &[u8], at: usize, max: usize) -> (r: Result<
    (ControlFrame, usize),
    CodecError,
>)
    requires
        at <= wire@.len(),
    ensures
        match control_read(wire@.skip(at as int), max as nat, usize::BITS) {
            Ok((f, rest)) => match r {
                Ok((frame, next)) => frame@ == f && at + 4 <= next <= wire@.len()
                    && wire@.skip(next as int) == rest,
                Err(_) => false,
            },
            Err(e) => match r {
                Ok(_) => false,
                Err(f) => f@ == e,
            },
        },
{
    match codec::read_frame(wire, at, max) {
        Err(e) => Err(e),
        Ok((payload, next)) => match decode_frame(payload.as_slice()) {
            Err(e) => Err(CodecError::Postcard(e)),
            Ok(frame) => Ok((frame, next)),
        },
    }
}

/// What reading one stream header off `wire` gives, on a machine whose sizes
/// have this many bits: the header and what is left.
pub open spec fn header_read(wire: Seq<u8>, max: nat, bits: u32) -> Result<
    (StreamView, Seq<u8>),
    CodecErrorView,
> {
    match codec::parse_frame(wire, max) {
        Err(e) => Err(e),
        Ok((payload, rest)) => match header_of(payload, bits) {
            Err(e) => Err(CodecErrorView::Postcard(e)),
            Ok(h) => Ok((h, rest)),
        },
    }
}

/// Append a stream header, or reject it as over `max`. A header that was written
/// is read back as it was, and a reader stops where it ends, whatever follows.
pub fn write_header(out: &mut Vec<u8>, header: &StreamHeader, max: usize) -> (r: Result<
    (),
    CodecError,
>)
    ensures
        match r {
            Ok(_) => {
                &&& header_bytes(header@).len() <= codec::ceiling(max)
                &&& final(out)@ == old(out)@ + codec::framed(header_bytes(header@))
                &&& forall|rest: Seq<u8>| #[trigger]
                    header_read(
                        codec::framed(header_bytes(header@)) + rest,
                        max as nat,
                        usize::BITS,
                    ) == Ok::<_, CodecErrorView>((header@, rest))
            },
            Err(e) => {
                &&& header_bytes(header@).len() > codec::ceiling(max)
                &&& final(out)@ == old(out)@
                &&& e@ == (CodecErrorView::TooLarge {
                    len: header_bytes(header@).len(),
                    max: codec::exceeded(header_bytes(header@).len(), max),
                })
            },
        },
{
    let payload = encode_header(header);
    match codec::write_frame(out, payload.as_slice(), max) {
        Err(e) => Err(e),
        Ok(_) => {
            proof {
                let p = header_bytes(header@);
                assert forall|rest: Seq<u8>| #[trigger]
                    header_read(codec::framed(p) + rest, max as nat, usize::BITS) == Ok::<
                        _,
                        CodecErrorView,
                    >((header@, rest)) by {
                    codec::frame_round_trip(p, rest, max as nat);
                }
            }
            Ok(())
        },
    }
}

/// Read one stream header from position `at` on: the header and the position
/// behind it.
pub fn read_header(wire: &[u8], at: usize, max: usize) -> (r: Result<
    (StreamHeader, usize),
    CodecError,
>)
    requires
        at <= wire@.len(),
    ensures
        match header_read(wire@.skip(at as int), max as nat, usize::BITS) {
            Ok((h, rest)) => match r {
                Ok((header, next)) => header@ == h && at + 4 <= next <= wire@.len()
                    && wire@.skip(next as int) == rest,
                Err(_) => false,
            },
            Err(e) => match r {
                Ok(_) => false,
                Err(f) => f@ == e,
            },
        },
{
    match codec::read_frame(wire, at, max) {
        Err(e) => Err(e),
        Ok((payload, next)) => match decode_header(payload.as_slice()) {
            Err(e) => Err(CodecError::Postcard(e)),
            Ok(header) => Ok((header, next)),
        },
    }
}

/// Frames written in a row are read back in order, and the reader stops where
/// the last of them ends. Of each frame it takes what writing it gives: that it
/// fits, and that it decodes to itself.
pub proof fn frames_are_read_in_order(frames: Seq<FrameView>, rest: Seq<u8>, max: nat, bits: u32)
    requires
        forall|i: int|
            0 <= i < frames.len() ==> frame_bytes(#[trigger] frames[i]).len() <= max
                && frame_bytes(frames[i]).len() <= u32::MAX && frame_of(
                frame_bytes(frames[i]),
                bits,
            ) == Ok::<FrameView, Seq<char>>(frames[i]),
    ensures
        codec::read_values(
            codec::wire_of(frames, |f: FrameView| frame_bytes(f)) + rest,
            frames.len(),
            max,
            |b: Seq<u8>| frame_of(b, bits).ok(),
        ) == Some((frames, rest)),
{
    let enc = |f: FrameView| frame_bytes(f);
    let dec = |b: Seq<u8>| frame_of(b, bits).ok();
    assert forall|i: int| 0 <= i < frames.len() implies enc(#[trigger] frames[i]).len() <= max
        && enc(frames[i]).len() <= u32::MAX && dec(enc(frames[i])) == Some(frames[i]) by {}
    codec::values_are_read_in_order(frames, enc, dec, rest, max);
}

/// Each frame begins with its own number, which never changes.
pub proof fn frames_begin_with_their_number(f: FrameView)
    ensures
        frame_bytes(f).len() > 0,
        frame_bytes(f)[0] == (match f {
            FrameView::Hello { .. } => 0u8,
            FrameView::Welcome { .. } => 1u8,
            FrameView::Denied { .. } => 2u8,
            FrameView::Claim { .. } => 3u8,
            FrameView::Granted { .. } => 4u8,
            FrameView::Ping { .. } => 5u8,
            FrameView::Pong { .. } => 6u8,
            FrameView::Superseded { .. } => 7u8,
            FrameView::Goodbye => 8u8,
            FrameView::Shutdown { .. } => 9u8,
            FrameView::Error { .. } => 10u8,
            FrameView::Release { .. } => 11u8,
            FrameView::Released { .. } => 12u8,
            FrameView::ListOwned => 13u8,
            FrameView::Owned { .. } => 14u8,
        }),
{
}

/// A refusal carries the number of its reason, which never changes and is read
/// back as that reason.
pub proof fn reasons_keep_their_number(c: DenyCode, message: Seq<char>, n: u32)
    ensures
        deny_of(deny_number(c) as u32) == Some(c),
        deny_of(n) matches Some(d) ==> deny_number(d) == n,
        deny_of(n) is None <==> n > 7,
        frame_bytes(FrameView::Denied { code: c, message })[1] == deny_number(c),
        deny_number(DenyCode::AuthFailed) == 0,
        deny_number(DenyCode::VersionUnsupported) == 1,
        deny_number(DenyCode::NotOwner) == 2,
        deny_number(DenyCode::UnknownHostname) == 3,
        deny_number(DenyCode::PortNotReserved) == 4,
        deny_number(DenyCode::PortUnavailable) == 5,
        deny_number(DenyCode::LimitExceeded) == 6,
        deny_number(DenyCode::ProtocolError) == 7,
        frame_bytes(FrameView::Error { code: ErrorCode::MalformedClaim, message })[1] == 0,
        frame_bytes(FrameView::Error { code: ErrorCode::Internal, message })[1] == 1,
{
}

/// A header begins with its kind; a superseded resource likewise.
pub proof fn headers_begin_with_their_kind(h: StreamView, ip: IpView, r: ResourceView)
    ensures
        header_bytes(h)[0] == (if h is Http {
            0u8
        } else {
            1u8
        }),
        ip_bytes(ip)[0] == (if ip is V4 {
            0u8
        } else {
            1u8
        }),
        ip_bytes(ip).skip(1) == (match ip {
            IpView::V4(o) => o,
            IpView::V6(o) => o,
        }),
        frame_bytes(FrameView::Superseded { resource: r })[1] == (if r is Host {
            0u8
        } else {
            1u8
        }),
{
    match ip {
        IpView::V4(o) => {
            assert(ip_bytes(ip).skip(1) =~= o);
        },
        IpView::V6(o) => {
            assert(ip_bytes(ip).skip(1) =~= o);
        },
    }
}

/// Fields follow in the order in which they are declared.
pub proof fn fields_keep_their_order(
    a: Seq<char>,
    b: Seq<char>,
    m: u16,
    n: u16,
    id: u64,
    ip: IpView,
)
    ensures
        frame_bytes(
            FrameView::Hello { token: a, agent_version: b, proto_min: m, proto_max: n },
        ).skip(1) == text_bytes(a) + text_bytes(b) + number_bytes(m as u64) + number_bytes(
            n as u64,
        ),
        frame_bytes(FrameView::Welcome { proto: m, server_version: a, session_id: id }).skip(1)
            == number_bytes(m as u64) + text_bytes(a) + number_bytes(id),
        header_bytes(StreamView::Http { host: a, peer_ip: ip, peer_port: m }).skip(1) == text_bytes(
            a,
        ) + ip_bytes(ip) + number_bytes(m as u64),
        header_bytes(StreamView::Tcp { port: n, peer_ip: ip, peer_port: m }).skip(1)
            == number_bytes(n as u64) + ip_bytes(ip) + number_bytes(m as u64),
{
    assert(frame_bytes(
        FrameView::Hello { token: a, agent_version: b, proto_min: m, proto_max: n },
    ).skip(1) =~= text_bytes(a) + text_bytes(b) + number_bytes(m as u64) + number_bytes(n as u64));
    assert(frame_bytes(FrameView::Welcome { proto: m, server_version: a, session_id: id }).skip(1)
        =~= number_bytes(m as u64) + text_bytes(a) + number_bytes(id));
    assert(header_bytes(StreamView::Http { host: a, peer_ip: ip, peer_port: m }).skip(1)
        =~= text_bytes(a) + ip_bytes(ip) + number_bytes(m as u64));
    assert(header_bytes(StreamView::Tcp { port: n, peer_ip: ip, peer_port: m }).skip(1)
        =~= number_bytes(n as u64) + ip_bytes(ip) + number_bytes(m as u64));
}

} // verus!
