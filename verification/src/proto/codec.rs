//! Length-prefixed framing.
//!
//! Wire shape: a little-endian `u32` payload length, then that many bytes of
//! an encoded value. The `max` of a read is a hard ceiling: a peer cannot cause
//! a large allocation by sending a giant length prefix.
//!
//! Readers here work on the bytes a peer sent before closing its side, from a
//! position on; running out of bytes is the end of the stream.
use vstd::prelude::*;

use crate::text;
use crate::{CONTROL_MAGIC, PROTOCOL_VERSION};

verus! {

/// Errors from framing or from decoding a payload.
#[derive(Clone, Debug, PartialEq, Eq)]
pub enum CodecError {
    /// The stream failed; `eof` when the peer closed it.
    Io { eof: bool, detail: String },
    /// A payload is no encoding of the value expected.
    Postcard(String),
    /// A frame is over the limit.
    TooLarge { len: usize, max: usize },
    /// The control stream does not begin with the magic bytes.
    BadMagic,
}

/// View of a [`CodecError`].
pub enum CodecErrorView {
    Io { eof: bool, detail: Seq<char> },
    Postcard(Seq<char>),
    TooLarge { len: nat, max: nat },
    BadMagic,
}

impl View for CodecError {
    type V = CodecErrorView;

    open spec fn view(&self) -> CodecErrorView {
        match self {
            CodecError::Io { eof, detail } => CodecErrorView::Io { eof: *eof, detail: detail@ },
            CodecError::Postcard(d) => CodecErrorView::Postcard(d@),
            CodecError::TooLarge { len, max } => CodecErrorView::TooLarge {
                len: *len as nat,
                max: *max as nat,
            },
            CodecError::BadMagic => CodecErrorView::BadMagic,
        }
    }
}

/// What reading past the end of a stream reports.
pub open spec fn end_of_stream() -> CodecErrorView {
    CodecErrorView::Io { eof: true, detail: "early eof"@ }
}

impl CodecError {
    /// True if the error is a clean end of stream (the peer closed), as
    /// opposed to a protocol violation.
    pub fn is_eof(&self) -> (r: bool)
        ensures
            r == (match self@ {
                CodecErrorView::Io { eof, .. } => eof,
                _ => false,
            }),
    {
        match self {
            CodecError::Io { eof, detail: _ } => *eof,
            _ => false,
        }
    }

    /// The error in words.
    pub open spec fn words(self) -> Seq<char> {
        match self@ {
            CodecErrorView::Io { detail, .. } => "io error: "@ + detail,
            CodecErrorView::Postcard(d) => "postcard error: "@ + d,
            CodecErrorView::TooLarge { len, max } => "frame of "@ + text::decimal(len)
                + " bytes exceeds maximum "@ + text::decimal(max),
            CodecErrorView::BadMagic => "bad control-stream magic (not an EtherTunnel peer)"@,
        }
    }

    /// The error in words.
    pub fn message(&self) -> (r: String)
        ensures
            r@ == self.words(),
    {
        match self {
            CodecError::Io { eof: _, detail } => text::join2("io error: ", detail.as_str()),
            CodecError::Postcard(d) => text::join2("postcard error: ", d.as_str()),
            CodecError::TooLarge { len, max } => {
                let mut s = text::join3(
                    "frame of ",
                    text::decimal_u64(*len as u64).as_str(),
                    " bytes exceeds maximum ",
                );
                s.append(text::decimal_u64(*max as u64).as_str());
                s
            },
            CodecError::BadMagic => "bad control-stream magic (not an EtherTunnel peer)".to_owned(),
        }
    }
}

/// The end-of-stream error.
fn eof() -> (r: CodecError)
    ensures
        r@ == end_of_stream(),
{
    CodecError::Io { eof: true, detail: "early eof".to_owned() }
}

/// The four bytes of `n`, least significant first.
pub open spec fn le32(n: nat) -> Seq<u8> {
    seq![
        (n % 256) as u8,
        (n / 256 % 256) as u8,
        (n / 65536 % 256) as u8,
        (n / 16777216 % 256) as u8,
    ]
}

/// The number whose bytes, least significant first, are the first four of `s`.
pub open spec fn from_le32(s: Seq<u8>) -> nat {
    (s[0] + 256 * s[1] + 65536 * s[2] + 16777216 * s[3]) as nat
}

/// The two bytes of `n`, least significant first.
pub open spec fn le16(n: u16) -> Seq<u8> {
    seq![(n % 256) as u8, (n / 256) as u8]
}

/// A payload as it stands on the wire.
pub open spec fn framed(payload: Seq<u8>) -> Seq<u8> {
    le32(payload.len()) + payload
}

/// What reading one frame off `wire` gives: the payload and what is left.
pub open spec fn parse_frame(wire: Seq<u8>, max: nat) -> Result<
    (Seq<u8>, Seq<u8>),
    CodecErrorView,
> {
    if wire.len() < 4 {
        Err(end_of_stream())
    } else {
        let len = from_le32(wire);
        if len > max {
            Err(CodecErrorView::TooLarge { len, max })
        } else if wire.len() < 4 + len {
            Err(end_of_stream())
        } else {
            Ok((wire.subrange(4, 4 + len as int), wire.skip(4 + len as int)))
        }
    }
}

/// The control-stream preamble: magic bytes, then the protocol version.
pub open spec fn preamble(version: u16) -> Seq<u8> {
    CONTROL_MAGIC@ + le16(version)
}

/// What reading the preamble off `wire` gives: the peer's version and what is
/// left.
pub open spec fn parse_preamble(wire: Seq<u8>) -> Result<(u16, Seq<u8>), CodecErrorView> {
    if wire.len() < 4 {
        Err(end_of_stream())
    } else if wire.take(4) != CONTROL_MAGIC@ {
        Err(CodecErrorView::BadMagic)
    } else if wire.len() < 6 {
        Err(end_of_stream())
    } else {
        Ok(((wire[4] + 256 * wire[5]) as u16, wire.skip(6)))
    }
}

/// Append the bytes of `more`.
fn extend(out: &mut Vec<u8>, more: &[u8])
    ensures
        final(out)@ == old(out)@ + more@,
{
    let ghost start = out@;
    let mut i: usize = 0;
    assert(out@ =~= start + more@.take(0));
    while i < more.len()
        invariant
            i <= more@.len(),
            out@ == start + more@.take(i as int),
        decreases more@.len() - i,
    {
        out.push(more[i]);
        i += 1;
        assert(out@ =~= start + more@.take(i as int));
    }
    assert(more@.take(i as int) =~= more@);
}

/// The most bytes a payload may have under a limit: the length prefix holds no
/// more than 32 bits.
pub open spec fn ceiling(max: usize) -> nat {
    if max <= u32::MAX {
        max as nat
    } else {
        u32::MAX as nat
    }
}

/// The limit that a payload of this length is over: the one given, or else what
/// the length prefix can hold.
pub open spec fn exceeded(len: nat, max: usize) -> nat {
    if len > max {
        max as nat
    } else {
        u32::MAX as nat
    }
}

/// Append one frame holding `payload`, or reject it as over `max`, or as over
/// what the length prefix can hold.
pub fn write_frame(out: &mut Vec<u8>, payload: &[u8], max: usize) -> (r: Result<(), CodecError>)
    ensures
        match r {
            Ok(_) => payload@.len() <= ceiling(max) && final(out)@ == old(out)@ + framed(payload@),
            Err(e) => payload@.len() > ceiling(max) && final(out)@ == old(out)@ && e@
                == (CodecErrorView::TooLarge {
                len: payload@.len(),
                max: exceeded(payload@.len(), max),
            }),
        },
{
    let len: usize = payload.len();
    if len > max {
        return Err(CodecError::TooLarge { len, max });
    }
    if len > u32::MAX as usize {
        return Err(CodecError::TooLarge { len, max: u32::MAX as usize });
    }
    let n: u32 = len as u32;
    let ghost start = out@;
    out.push((n % 256) as u8);
    out.push((n / 256 % 256) as u8);
    out.push((n / 65536 % 256) as u8);
    out.push((n / 16777216 % 256) as u8);
    assert(out@ =~= start + le32(len as nat));
    extend(out, payload);
    assert(out@ =~= start + framed(payload@));
    Ok(())
}

/// The payload length a prefix announces, checked against the ceiling.
pub fn frame_len(prefix: &[u8; 4], max: usize) -> (r: Result<usize, CodecError>)
    ensures
        match r {
            Ok(n) => n == from_le32(prefix@) && n <= max,
            Err(e) => from_le32(prefix@) > max && e@ == (CodecErrorView::TooLarge {
                len: from_le32(prefix@),
                max: max as nat,
            }),
        },
{
    let n: u32 = prefix[0] as u32 + 256 * (prefix[1] as u32) + 65536 * (prefix[2] as u32)
        + 16777216 * (prefix[3] as u32);
    let len: usize = n as usize;
    if len > max {
        Err(CodecError::TooLarge { len, max })
    } else {
        Ok(len)
    }
}

/// Read one frame from position `at` on: its payload and the position behind
/// it. An oversize length is rejected on the prefix alone.
pub fn read_frame(wire: &[u8], at: usize, max: usize) -> (r: Result<(Vec<u8>, usize), CodecError>)
    requires
        at <= wire@.len(),
    ensures
        match parse_frame(wire@.skip(at as int), max as nat) {
            Ok((payload, rest)) => match r {
                Ok((p, next)) => p@ == payload && next <= wire@.len() && wire@.skip(next as int)
                    == rest && next == at + 4 + payload.len(),
                Err(_) => false,
            },
            Err(e) => match r {
                Ok(_) => false,
                Err(f) => f@ == e,
            },
        },
{
    let ghost w = wire@.skip(at as int);
    if wire.len() - at < 4 {
        return Err(eof());
    }
    let prefix: [u8; 4] = [wire[at], wire[at + 1], wire[at + 2], wire[at + 3]];
    assert(from_le32(prefix@) == from_le32(w));
    match frame_len(&prefix, max) {
        Err(e) => Err(e),
        Ok(len) => {
            if wire.len() - at - 4 < len {
                return Err(eof());
            }
            let next: usize = at + 4 + len;
            let mut p: Vec<u8> = Vec::new();
            let mut i: usize = 0;
            while i < len
                invariant
                    i <= len,
                    next == at + 4 + len,
                    next <= wire@.len(),
                    w == wire@.skip(at as int),
                    p@ == w.subrange(4, 4 + i as int),
                decreases len - i,
            {
                p.push(wire[at + 4 + i]);
                i += 1;
                assert(p@ =~= w.subrange(4, 4 + i as int));
            }
            assert(wire@.skip(next as int) =~= w.skip(4 + len as int));
            Ok((p, next))
        },
    }
}

/// Append the control-stream preamble, the first thing a daemon sends.
pub fn write_preamble(out: &mut Vec<u8>)
    ensures
        final(out)@ == old(out)@ + preamble(PROTOCOL_VERSION),
{
    let ghost start = out@;
    extend(out, &CONTROL_MAGIC);
    out.push((PROTOCOL_VERSION % 256) as u8);
    out.push((PROTOCOL_VERSION / 256) as u8);
    assert(out@ =~= start + preamble(PROTOCOL_VERSION));
}

/// Read the control-stream preamble from position `at` on: the peer's highest
/// protocol version and the position behind the preamble.
pub fn read_preamble(wire: &[u8], at: usize) -> (r: Result<(u16, usize), CodecError>)
    requires
        at <= wire@.len(),
    ensures
        match parse_preamble(wire@.skip(at as int)) {
            Ok((version, rest)) => match r {
                Ok((v, next)) => v == version && next == at + 6 && next <= wire@.len()
                    && wire@.skip(next as int) == rest,
                Err(_) => false,
            },
            Err(e) => match r {
                Ok(_) => false,
                Err(f) => f@ == e,
            },
        },
{
    let ghost w = wire@.skip(at as int);
    if wire.len() - at < 4 {
        return Err(eof());
    }
    let body: usize = at + 4;
    let mut i: usize = 0;
    while i < 4
        invariant
            i <= 4,
            body == at + 4,
            body <= wire@.len(),
            w == wire@.skip(at as int),
            w.take(i as int) == CONTROL_MAGIC@.take(i as int),
        decreases 4 - i,
    {
        if wire[at + i] != CONTROL_MAGIC[i] {
            assert(w.take(4)[i as int] != CONTROL_MAGIC@[i as int]);
            return Err(CodecError::BadMagic);
        }
        i += 1;
        assert(w.take(i as int) =~= w.take(i - 1).push(w[i - 1]));
        assert(CONTROL_MAGIC@.take(i as int) =~= CONTROL_MAGIC@.take(i - 1).push(
            CONTROL_MAGIC@[i - 1],
        ));
    }
    assert(CONTROL_MAGIC@.take(4) =~= CONTROL_MAGIC@);
    if wire.len() - at < 6 {
        return Err(eof());
    }
    let v: u16 = wire[at + 4] as u16 + 256 * (wire[at + 5] as u16);
    assert(wire@.skip(at + 6) =~= w.skip(6));
    Ok((v, at + 6))
}

proof fn lemma_le32(n: nat)
    requires
        n <= u32::MAX,
    ensures
        from_le32(le32(n)) == n,
{
}

/// A frame that was written within a limit is read back exactly, and what
/// follows it on the wire is left for the next read.
pub proof fn frame_round_trip(payload: Seq<u8>, rest: Seq<u8>, max: nat)
    requires
        payload.len() <= max,
        payload.len() <= u32::MAX,
    ensures
        parse_frame(framed(payload) + rest, max) == Ok::<_, CodecErrorView>((payload, rest)),
{
    let wire = framed(payload) + rest;
    lemma_le32(payload.len());
    assert(from_le32(wire) == from_le32(le32(payload.len())));
    assert(wire.subrange(4, 4 + payload.len() as int) =~= payload);
    assert(wire.skip(4 + payload.len() as int) =~= rest);
}

/// An oversize frame is rejected on its length prefix alone, whatever follows.
pub proof fn oversize_is_rejected_early(prefix: Seq<u8>, body: Seq<u8>, max: nat)
    requires
        prefix.len() == 4,
        from_le32(prefix) > max,
    ensures
        parse_frame(prefix + body, max) == Err::<(Seq<u8>, Seq<u8>), _>(
            (CodecErrorView::TooLarge { len: from_le32(prefix), max }),
        ),
{
}

/// No read takes more than the prefix and the ceiling off the wire.
pub proof fn read_is_bounded(wire: Seq<u8>, max: nat)
    ensures
        match parse_frame(wire, max) {
            Ok((payload, rest)) => payload.len() <= max && wire.len() - rest.len() <= max + 4
                && wire == wire.take(wire.len() - rest.len()) + rest,
            Err(_) => true,
        },
{
    if let Ok((payload, rest)) = parse_frame(wire, max) {
        assert(wire =~= wire.take(wire.len() - rest.len()) + rest);
    }
}

/// A frame cut short anywhere reads as the end of the stream.
pub proof fn truncated_frame_is_eof(payload: Seq<u8>, max: nat, cut: int)
    requires
        payload.len() <= max,
        payload.len() <= u32::MAX,
        0 <= cut < framed(payload).len(),
    ensures
        parse_frame(framed(payload).take(cut), max) == Err::<(Seq<u8>, Seq<u8>), _>(
            end_of_stream(),
        ),
{
    lemma_le32(payload.len());
    if cut >= 4 {
        assert(from_le32(framed(payload).take(cut)) == from_le32(le32(payload.len())));
    }
}

/// A stream that ends before the announced payload does reads as its end.
pub proof fn short_body_is_eof(wire: Seq<u8>, max: nat)
    requires
        4 <= wire.len() < 4 + from_le32(wire),
        from_le32(wire) <= max,
    ensures
        parse_frame(wire, max) == Err::<(Seq<u8>, Seq<u8>), _>(end_of_stream()),
{
}

/// The frames of a list of values, one after the other, each value as `enc`
/// encodes it.
pub open spec fn wire_of<T>(values: Seq<T>, enc: spec_fn(T) -> Seq<u8>) -> Seq<u8>
    decreases values.len(),
{
    if values.len() == 0 {
        Seq::empty()
    } else {
        framed(enc(values[0])) + wire_of(values.drop_first(), enc)
    }
}

/// What `n` reads in a row give, each payload decoded by `dec`: the values, and
/// what is left on the wire; `None` when any read or decoding fails.
pub open spec fn read_values<T>(
    wire: Seq<u8>,
    n: nat,
    max: nat,
    dec: spec_fn(Seq<u8>) -> Option<T>,
) -> Option<(Seq<T>, Seq<u8>)>
    decreases n,
{
    if n == 0 {
        Some((Seq::empty(), wire))
    } else {
        match parse_frame(wire, max) {
            Err(_) => None,
            Ok((payload, rest)) => match (
                dec(payload),
                read_values(rest, (n - 1) as nat, max, dec),
            ) {
                (Some(v), Some((vs, left))) => Some((seq![v] + vs, left)),
                _ => None,
            },
        }
    }
}

/// Values written in a row are read back in order, and the reader stops where
/// the last of them ends. Holds of any encoding that decodes to what it
/// encoded.
pub proof fn values_are_read_in_order<T>(
    values: Seq<T>,
    enc: spec_fn(T) -> Seq<u8>,
    dec: spec_fn(Seq<u8>) -> Option<T>,
    rest: Seq<u8>,
    max: nat,
)
    requires
        forall|i: int|
            0 <= i < values.len() ==> enc(#[trigger] values[i]).len() <= max && enc(
                values[i],
            ).len() <= u32::MAX && dec(enc(values[i])) == Some(values[i]),
    ensures
        read_values(wire_of(values, enc) + rest, values.len(), max, dec) == Some((values, rest)),
    decreases values.len(),
{
    if values.len() == 0 {
        assert(wire_of(values, enc) + rest =~= rest);
        assert(values =~= Seq::empty());
    } else {
        let more = values.drop_first();
        let behind = wire_of(more, enc) + rest;
        assert forall|i: int| 0 <= i < more.len() implies enc(#[trigger] more[i]).len() <= max
            && enc(more[i]).len() <= u32::MAX && dec(enc(more[i])) == Some(more[i]) by {
            assert(more[i] == values[i + 1]);
        }
        values_are_read_in_order(more, enc, dec, rest, max);
        frame_round_trip(enc(values[0]), behind, max);
        assert(wire_of(values, enc) + rest =~= framed(enc(values[0])) + behind);
        assert(seq![values[0]] + more =~= values);
    }
}

/// The preamble is read back with its version, and anything that does not
/// begin with the magic bytes is refused.
pub proof fn preamble_round_trip(version: u16, rest: Seq<u8>)
    ensures
        parse_preamble(preamble(version) + rest) == Ok::<_, CodecErrorView>((version, rest)),
        forall|wire: Seq<u8>|
            wire.len() >= 4 && wire.take(4) != CONTROL_MAGIC@ ==> #[trigger] parse_preamble(wire)
                == Err::<(u16, Seq<u8>), _>(CodecErrorView::BadMagic),
{
    let wire = preamble(version) + rest;
    assert(wire.take(4) =~= CONTROL_MAGIC@);
    assert(wire.skip(6) =~= rest);
}

/// A frame is its payload behind four bytes of its length, the lowest first.
pub proof fn length_comes_first(payload: Seq<u8>)
    requires
        payload.len() <= u32::MAX,
    ensures
        framed(payload).len() == payload.len() + 4,
        framed(payload).skip(4) == payload,
        framed(payload)[0] + 256 * framed(payload)[1] + 65_536 * framed(payload)[2] + 16_777_216
            * framed(payload)[3] == payload.len(),
{
    lemma_le32(payload.len());
    assert(framed(payload).skip(4) =~= payload);
}

/// A control stream opens with `ETUN` and the version, the low byte first.
pub proof fn preamble_is_six_bytes(version: u16)
    ensures
        preamble(version).len() == 6,
        preamble(version)[0] == 69 && preamble(version)[1] == 84 && preamble(version)[2] == 85
            && preamble(version)[3] == 78,
        preamble(version)[4] + 256 * preamble(version)[5] == version,
        PROTOCOL_VERSION == 2,
{
}

/// Frames are refused from the limit on, and from what four bytes can count.
pub proof fn ceiling_is_the_lower_limit(len: nat, max: usize)
    ensures
        len <= ceiling(max) <==> len <= max && len <= 4_294_967_295,
        len > ceiling(max) ==> exceeded(len, max) < len && (exceeded(len, max) == max || exceeded(
            len,
            max,
        ) == 4_294_967_295),
        len > max ==> exceeded(len, max) == max,
{
}

/// Errors tell what went wrong.
pub proof fn codec_errors_tell(e: CodecError)
    ensures
        e@ matches CodecErrorView::Io { eof, detail } ==> e.words() == "io error: "@ + detail,
        e@ matches CodecErrorView::Postcard(d) ==> e.words() == "postcard error: "@ + d,
        e@ matches CodecErrorView::TooLarge { len, max } ==> text::occurs(
            e.words(),
            text::decimal(len) + " bytes exceeds maximum "@ + text::decimal(max),
        ),
{
    match e@ {
        CodecErrorView::TooLarge { len, max } => {
            let m = text::decimal(len) + " bytes exceeds maximum "@ + text::decimal(max);
            assert(e.words() =~= "frame of "@ + m + Seq::<char>::empty());
            text::occurrences_are_found("frame of "@, m, Seq::empty());
        },
        _ => {},
    }
}

} // verus!
