//! The visitor-facing HTTP proxy: headers, error pages and deadlines.
//!
//! For a request to a tunnel hostname the relay opens a stream to the daemon,
//! speaks HTTP/1.1 over it and streams the response back. Upgraded connections
//! are spliced byte for byte. The streams belong to the program around this
//! module; here is what it does at each step.
use vstd::prelude::*;

use crate::relay::ratelimit::ConnPermit;
use crate::relay::router::{Router, SessionHandle};
use crate::text;

verus! {

/// One header line. The name is in lower case; `text` is the value as a string
/// when it consists of visible ASCII only.
#[derive(Clone, Debug)]
pub struct Header {
    pub name: String,
    pub value: Vec<u8>,
    pub text: Option<String>,
}

/// View of a [`Header`].
pub struct HeaderView {
    pub name: Seq<char>,
    pub value: Seq<u8>,
    pub text: Option<Seq<char>>,
}

/// The view of an optional string.
pub open spec fn opt_text(o: Option<String>) -> Option<Seq<char>> {
    match o {
        Some(s) => Some(s@),
        None => None,
    }
}

impl View for Header {
    type V = HeaderView;

    open spec fn view(&self) -> HeaderView {
        HeaderView { name: self.name@, value: self.value@, text: opt_text(self.text) }
    }
}

/// Views of a list of headers.
pub open spec fn header_views(v: Seq<Header>) -> Seq<HeaderView> {
    v.map_values(|h: Header| h@)
}

/// A header with a text value.
pub open spec fn text_header(name: Seq<char>, value: Seq<char>) -> HeaderView {
    HeaderView { name, value: vstd::utf8::encode_utf8(value), text: Some(value) }
}

/// Build a header with a text value.
pub fn make_header(name: &str, value: &str) -> (r: Header)
    ensures
        r@ == text_header(name@, value@),
{
    Header {
        name: name.to_owned(),
        value: value.as_bytes_vec(),
        text: Some(value.to_owned()),
    }
}

/// The text of the first header of a name: `None` when there is no such header
/// or its value is not visible ASCII.
pub open spec fn first_text(s: Seq<HeaderView>, name: Seq<char>) -> Option<Seq<char>>
    decreases s.len(),
{
    if s.len() == 0 {
        None
    } else if s[0].name == name {
        s[0].text
    } else {
        first_text(s.drop_first(), name)
    }
}

/// A header of this name is there.
pub open spec fn has_name(s: Seq<HeaderView>, name: Seq<char>) -> bool {
    exists|i: int| 0 <= i < s.len() && (#[trigger] s[i]).name == name
}

/// The text of the first header of a name.
pub fn header_text(headers: &Vec<Header>, name: &str) -> (r: Option<String>)
    ensures
        opt_text(r) == first_text(header_views(headers@), name@),
{
    let ghost hv = header_views(headers@);
    let mut i: usize = 0;
    assert(hv.skip(0) =~= hv);
    while i < headers.len()
        invariant
            i <= headers@.len(),
            hv == header_views(headers@),
            first_text(hv, name@) == first_text(hv.skip(i as int), name@),
        decreases headers@.len() - i,
    {
        assert(hv.skip(i as int)[0] == headers@[i as int]@);
        if text::same(headers[i].name.as_str(), name) {
            return match &headers[i].text {
                Some(t) => Some(t.clone()),
                None => None,
            };
        }
        assert(hv.skip(i as int).drop_first() =~= hv.skip(i + 1));
        i += 1;
    }
    None
}

/// The value of the first header of a name.
pub open spec fn first_value(s: Seq<HeaderView>, name: Seq<char>) -> Option<Seq<u8>>
    decreases s.len(),
{
    if s.len() == 0 {
        None
    } else if s[0].name == name {
        Some(s[0].value)
    } else {
        first_value(s.drop_first(), name)
    }
}

/// The value of the first header of a name.
pub fn header_value<'a>(headers: &'a Vec<Header>, name: &str) -> (r: Option<&'a Vec<u8>>)
    ensures
        match r {
            Some(v) => first_value(header_views(headers@), name@) == Some(v@),
            None => first_value(header_views(headers@), name@) is None,
        },
{
    let ghost hv = header_views(headers@);
    let mut i: usize = 0;
    assert(hv.skip(0) =~= hv);
    while i < headers.len()
        invariant
            i <= headers@.len(),
            hv == header_views(headers@),
            first_value(hv, name@) == first_value(hv.skip(i as int), name@),
        decreases headers@.len() - i,
    {
        assert(hv.skip(i as int)[0] == headers@[i as int]@);
        if text::same(headers[i].name.as_str(), name) {
            return Some(&headers[i].value);
        }
        assert(hv.skip(i as int).drop_first() =~= hv.skip(i + 1));
        i += 1;
    }
    None
}

/// True iff a header of this name is there.
pub fn has_header(headers: &Vec<Header>, name: &str) -> (r: bool)
    ensures
        r == has_name(header_views(headers@), name@),
{
    let ghost hv = header_views(headers@);
    let mut i: usize = 0;
    while i < headers.len()
        invariant
            i <= headers@.len(),
            hv == header_views(headers@),
            forall|j: int| 0 <= j < i ==> (#[trigger] hv[j]).name != name@,
        decreases headers@.len() - i,
    {
        assert(hv[i as int] == headers@[i as int]@);
        if text::same(headers[i].name.as_str(), name) {
            return true;
        }
        i += 1;
    }
    false
}

/// The text of a header, in lower case, holds `needle`.
pub open spec fn mentions(s: Seq<HeaderView>, name: Seq<char>, needle: Seq<char>) -> bool {
    match first_text(s, name) {
        Some(t) => text::occurs(text::lower(t), needle),
        None => false,
    }
}

/// True iff the text of a header, in lower case, holds `needle`.
pub fn header_contains(headers: &Vec<Header>, name: &str, needle: &str) -> (r: bool)
    ensures
        r == mentions(header_views(headers@), name@, needle@),
{
    match header_text(headers, name) {
        Some(t) => text::contains(text::to_lower(t.as_str()).as_str(), needle),
        None => false,
    }
}

/// Hop-by-hop headers, apart from `connection` and `upgrade`.
pub open spec fn hop_by_hop(name: Seq<char>) -> bool {
    ||| name == "keep-alive"@
    ||| name == "proxy-connection"@
    ||| name == "proxy-authenticate"@
    ||| name == "proxy-authorization"@
    ||| name == "te"@
    ||| name == "trailer"@
    ||| name == "transfer-encoding"@
}

fn is_hop_by_hop(name: &str) -> (r: bool)
    ensures
        r == hop_by_hop(name@),
{
    text::same(name, "keep-alive") || text::same(name, "proxy-connection") || text::same(
        name,
        "proxy-authenticate",
    ) || text::same(name, "proxy-authorization") || text::same(name, "te") || text::same(
        name,
        "trailer",
    ) || text::same(name, "transfer-encoding")
}

/// A name is listed in the first `connection` header.
pub open spec fn listed(s: Seq<HeaderView>, name: Seq<char>) -> bool {
    match first_text(s, "connection"@) {
        Some(t) => exists|i: int|
            0 <= i < text::parts(t, ',').len() && text::lower(
                text::trimmed(#[trigger] text::parts(t, ',')[i]),
            ) == name && name.len() > 0,
        None => false,
    }
}

/// A header is dropped on this hop. `keep` preserves what an upgrade needs.
pub open spec fn dropped(s: Seq<HeaderView>, name: Seq<char>, keep: bool) -> bool {
    ||| listed(s, name) && !(keep && name == "upgrade"@)
    ||| hop_by_hop(name)
    ||| !keep && (name == "connection"@ || name == "upgrade"@)
}

/// What is left of the headers after this hop.
pub open spec fn stripped(s: Seq<HeaderView>, keep: bool) -> Seq<HeaderView> {
    s.filter(|h: HeaderView| !dropped(s, h.name, keep))
}

/// The names listed in the first `connection` header.
fn listed_names(headers: &Vec<Header>) -> (r: Vec<String>)
    ensures
        forall|name: Seq<char>| #[trigger]
            listed(header_views(headers@), name) <==> name.len() > 0 && exists|i: int|
                0 <= i < r@.len() && (#[trigger] r@[i])@ == name,
{
    let ghost hv = header_views(headers@);
    let mut out: Vec<String> = Vec::new();
    match header_text(headers, "connection") {
        None => {},
        Some(t) => {
            let pieces = text::split(t.as_str(), ',');
            let ghost ps = text::parts(t@, ',');
            let mut i: usize = 0;
            while i < pieces.len()
                invariant
                    i <= pieces@.len(),
                    ps == text::parts(t@, ','),
                    text::all_of(pieces@) == ps,
                    out@.len() == i,
                    forall|j: int|
                        0 <= j < i ==> (#[trigger] out@[j])@ == text::lower(text::trimmed(ps[j])),
                decreases pieces@.len() - i,
            {
                let piece = text::trim(pieces[i].as_str());
                assert(ps[i as int] == pieces@[i as int]@);
                out.push(text::to_lower(piece.as_str()));
                i += 1;
            }
            assert(ps.len() == pieces@.len());
            proof {
                assert forall|name: Seq<char>| #[trigger] listed(hv, name) <==> name.len() > 0
                    && exists|i: int| 0 <= i < out@.len() && (#[trigger] out@[i])@ == name by {
                    if listed(hv, name) {
                        let k = choose|i: int|
                            0 <= i < ps.len() && text::lower(text::trimmed(#[trigger] ps[i]))
                                == name && name.len() > 0;
                        assert(out@[k]@ == name);
                    }
                    if name.len() > 0 && exists|i: int|
                        0 <= i < out@.len() && (#[trigger] out@[i])@ == name {
                        let k = choose|i: int| 0 <= i < out@.len() && (#[trigger] out@[i])@ == name;
                        assert(text::lower(text::trimmed(ps[k])) == name);
                    }
                }
            }
        },
    }
    out
}

fn name_in(name: &str, names: &Vec<String>) -> (r: bool)
    ensures
        r == exists|i: int| 0 <= i < names@.len() && (#[trigger] names@[i])@ == name@,
{
    let mut i: usize = 0;
    while i < names.len()
        invariant
            i <= names@.len(),
            forall|j: int| 0 <= j < i ==> (#[trigger] names@[j])@ != name@,
        decreases names@.len() - i,
    {
        if text::same(names[i].as_str(), name) {
            return true;
        }
        i += 1;
    }
    false
}

fn copy_header(h: &Header) -> (r: Header)
    ensures
        r@ == h@,
{
    let mut value: Vec<u8> = Vec::new();
    let mut i: usize = 0;
    while i < h.value.len()
        invariant
            i <= h.value@.len(),
            value@ == h.value@.take(i as int),
        decreases h.value@.len() - i,
    {
        value.push(h.value[i]);
        i += 1;
        assert(value@ =~= h.value@.take(i as int));
    }
    assert(value@ =~= h.value@);
    Header {
        name: h.name.clone(),
        value,
        text: match &h.text {
            Some(t) => Some(t.clone()),
            None => None,
        },
    }
}

/// Remove hop-by-hop headers, with any named in the `connection` header. With
/// `keep_upgrade`, `connection` and `upgrade` stay, so that an upgrade can
/// reach the origin.
pub fn strip_hop_by_hop(headers: &Vec<Header>, keep_upgrade: bool) -> (r: Vec<Header>)
    ensures
        header_views(r@) == stripped(header_views(headers@), keep_upgrade),
{
    let ghost hv = header_views(headers@);
    let ghost p = |h: HeaderView| !dropped(hv, h.name, keep_upgrade);
    let names = listed_names(headers);
    let mut out: Vec<Header> = Vec::new();
    let mut i: usize = 0;
    proof {
        reveal(Seq::filter);
        assert(hv.take(0) =~= Seq::<HeaderView>::empty());
        assert(header_views(out@) =~= hv.take(0).filter(p));
    }
    while i < headers.len()
        invariant
            i <= headers@.len(),
            hv == header_views(headers@),
            p == (|h: HeaderView| !dropped(hv, h.name, keep_upgrade)),
            forall|name: Seq<char>| #[trigger]
                listed(hv, name) <==> name.len() > 0 && exists|i: int|
                    0 <= i < names@.len() && (#[trigger] names@[i])@ == name,
            header_views(out@) == hv.take(i as int).filter(p),
        decreases headers@.len() - i,
    {
        let ghost done = out@;
        let h = &headers[i];
        let n = h.name.as_str();
        let in_list = !n.is_empty() && name_in(n, &names);
        assert(in_list == listed(hv, n@));
        let drop = (in_list && !(keep_upgrade && text::same(n, "upgrade"))) || is_hop_by_hop(n) || (
        !keep_upgrade && (text::same(n, "connection") || text::same(n, "upgrade")));
        proof {
            reveal(Seq::filter);
            assert(hv.take(i + 1).drop_last() =~= hv.take(i as int));
            assert(hv.take(i + 1).last() == h@);
        }
        if !drop {
            let c = copy_header(h);
            out.push(c);
            assert(header_views(out@) =~= header_views(done).push(h@));
        }
        i += 1;
    }
    assert(hv.take(i as int) =~= hv);
    out
}

/// Forwarding headers a visitor could send.
pub open spec fn forwarding(name: Seq<char>) -> bool {
    ||| name == "x-forwarded-for"@
    ||| name == "x-forwarded-proto"@
    ||| name == "x-forwarded-host"@
    ||| name == "forwarded"@
}

/// The request headers the daemon gets.
pub open spec fn request_headers(
    s: Seq<HeaderView>,
    peer: Seq<char>,
    host: Seq<char>,
    upgrading: bool,
) -> Seq<HeaderView> {
    stripped(s, upgrading).filter(|h: HeaderView| !forwarding(h.name)) + seq![
        text_header("x-forwarded-for"@, peer),
        text_header("x-forwarded-proto"@, "https"@),
        text_header("x-forwarded-host"@, host),
    ]
}

/// The response headers the visitor gets.
pub open spec fn response_headers(s: Seq<HeaderView>) -> Seq<HeaderView> {
    stripped(s, false).filter(|h: HeaderView| h.name != "server"@)
}

/// Strip hop-by-hop headers and rewrite the forwarding set. What a visitor
/// supplied of it is dropped first, so that it cannot be spoofed. `host` is the
/// hostname the request was routed by; the `host` header itself stays.
pub fn scrub_request(headers: &Vec<Header>, peer_ip: &str, host: &str, upgrading: bool) -> (r: Vec<
    Header,
>)
    ensures
        header_views(r@) == request_headers(
            header_views(headers@),
            peer_ip@,
            host@,
            upgrading,
        ),
{
    let base = strip_hop_by_hop(headers, upgrading);
    let ghost bv = header_views(base@);
    let ghost p = |h: HeaderView| !forwarding(h.name);
    let mut out: Vec<Header> = Vec::new();
    let mut i: usize = 0;
    proof {
        reveal(Seq::filter);
        assert(bv.take(0) =~= Seq::<HeaderView>::empty());
        assert(header_views(out@) =~= bv.take(0).filter(p));
    }
    while i < base.len()
        invariant
            i <= base@.len(),
            bv == header_views(base@),
            p == (|h: HeaderView| !forwarding(h.name)),
            header_views(out@) == bv.take(i as int).filter(p),
        decreases base@.len() - i,
    {
        let ghost done = out@;
        let n = base[i].name.as_str();
        proof {
            reveal(Seq::filter);
            assert(bv.take(i + 1).drop_last() =~= bv.take(i as int));
            assert(bv.take(i + 1).last() == base@[i as int]@);
        }
        if !(text::same(n, "x-forwarded-for") || text::same(n, "x-forwarded-proto") || text::same(
            n,
            "x-forwarded-host",
        ) || text::same(n, "forwarded")) {
            out.push(copy_header(&base[i]));
            assert(header_views(out@) =~= header_views(done).push(base@[i as int]@));
        }
        i += 1;
    }
    assert(bv.take(i as int) =~= bv);
    let ghost done = out@;
    let a = make_header("x-forwarded-for", peer_ip);
    let b = make_header("x-forwarded-proto", "https");
    let c = make_header("x-forwarded-host", host);
    out.push(a);
    out.push(b);
    out.push(c);
    assert(header_views(out@) =~= header_views(done) + seq![a@, b@, c@]);
    out
}

/// Strip hop-by-hop headers off a response, and do not advertise the stack.
pub fn scrub_response(headers: &Vec<Header>) -> (r: Vec<Header>)
    ensures
        header_views(r@) == response_headers(header_views(headers@)),
{
    let base = strip_hop_by_hop(headers, false);
    let ghost bv = header_views(base@);
    let ghost p = |h: HeaderView| h.name != "server"@;
    let mut out: Vec<Header> = Vec::new();
    let mut i: usize = 0;
    proof {
        reveal(Seq::filter);
        assert(bv.take(0) =~= Seq::<HeaderView>::empty());
        assert(header_views(out@) =~= bv.take(0).filter(p));
    }
    while i < base.len()
        invariant
            i <= base@.len(),
            bv == header_views(base@),
            p == (|h: HeaderView| h.name != "server"@),
            header_views(out@) == bv.take(i as int).filter(p),
        decreases base@.len() - i,
    {
        let ghost done = out@;
        proof {
            reveal(Seq::filter);
            assert(bv.take(i + 1).drop_last() =~= bv.take(i as int));
            assert(bv.take(i + 1).last() == base@[i as int]@);
        }
        if !text::same(base[i].name.as_str(), "server") {
            out.push(copy_header(&base[i]));
            assert(header_views(out@) =~= header_views(done).push(base@[i as int]@));
        }
        i += 1;
    }
    assert(bv.take(i as int) =~= bv);
    out
}

/// The request asks for a protocol upgrade.
pub open spec fn upgrade_asked(s: Seq<HeaderView>) -> bool {
    mentions(s, "connection"@, "upgrade"@) && has_name(s, "upgrade"@)
}

/// True iff the request asks for a protocol upgrade, such as a WebSocket.
pub fn is_upgrade(headers: &Vec<Header>) -> (r: bool)
    ensures
        r == upgrade_asked(header_views(headers@)),
{
    header_contains(headers, "connection", "upgrade") && has_header(headers, "upgrade")
}

/// A static response. It is never stored by caches.
#[derive(Clone, Debug)]
pub struct Page {
    pub status: u16,
    pub content_type: String,
    pub body: String,
}

/// View of a [`Page`].
pub struct PageView {
    pub status: u16,
    pub content_type: Seq<char>,
    pub body: Seq<char>,
}

impl View for Page {
    type V = PageView;

    open spec fn view(&self) -> PageView {
        PageView {
            status: self.status,
            content_type: self.content_type@,
            body: self.body@,
        }
    }
}

/// Build a static response.
pub fn page(status: u16, content_type: &str, body: &str) -> (r: Page)
    ensures
        r@ == (PageView { status, content_type: content_type@, body: body@ }),
{
    Page { status, content_type: content_type.to_owned(), body: body.to_owned() }
}

/// A plain-text page.
pub open spec fn plain(status: u16, body: Seq<char>) -> PageView {
    PageView { status, content_type: "text/plain; charset=utf-8"@, body }
}

/// Build a plain-text page.
pub fn plain_page(status: u16, body: &str) -> (r: Page)
    ensures
        r@ == plain(status, body@),
{
    page(status, "text/plain; charset=utf-8", body)
}

/// Where serving a visitor's request failed.
#[derive(Clone, Copy, Debug, PartialEq, Eq, Structural)]
pub enum ProxyFault {
    /// No session serves the hostname.
    NoRoute,
    /// The daemon could not be given a stream.
    Open,
    /// No HTTP connection over the stream.
    Handshake,
    /// The request failed.
    Request,
    /// No response headers in time.
    HeaderTimeout,
    /// The daemon switched protocols without being asked to.
    UnaskedUpgrade,
}

/// The error page of each fault.
pub open spec fn fault_page(f: ProxyFault) -> PageView {
    match f {
        ProxyFault::NoRoute => PageView {
            status: 404,
            content_type: "text/html; charset=utf-8"@,
            body:
                "<!doctype html><meta charset=utf-8><title>404</title><h1>404 - no such tunnel</h1><p>No tunnel is registered for this hostname.</p>"@,
        },
        ProxyFault::HeaderTimeout => PageView {
            status: 504,
            content_type: "text/html; charset=utf-8"@,
            body:
                "<!doctype html><meta charset=utf-8><title>504</title><h1>504 - upstream timeout</h1><p>The tunnel's local service did not respond in time.</p>"@,
        },
        _ => PageView {
            status: 502,
            content_type: "text/html; charset=utf-8"@,
            body:
                "<!doctype html><meta charset=utf-8><title>502</title><h1>502 - tunnel unavailable</h1><p>The tunnel is registered but its daemon is not reachable.</p>"@,
        },
    }
}

/// The error page of a fault.
pub fn relay_error(f: ProxyFault) -> (r: Page)
    ensures
        r@ == fault_page(f),
{
    match f {
        ProxyFault::NoRoute => page(
            404,
            "text/html; charset=utf-8",
            "<!doctype html><meta charset=utf-8><title>404</title><h1>404 - no such tunnel</h1><p>No tunnel is registered for this hostname.</p>",
        ),
        ProxyFault::HeaderTimeout => page(
            504,
            "text/html; charset=utf-8",
            "<!doctype html><meta charset=utf-8><title>504</title><h1>504 - upstream timeout</h1><p>The tunnel's local service did not respond in time.</p>",
        ),
        _ => page(
            502,
            "text/html; charset=utf-8",
            "<!doctype html><meta charset=utf-8><title>502</title><h1>502 - tunnel unavailable</h1><p>The tunnel is registered but its daemon is not reachable.</p>",
        ),
    }
}

/// How far serving a visitor's request is.
#[derive(Clone, Copy, Debug, PartialEq, Eq, Structural)]
pub enum ProxyStage {
    /// A stream to the daemon is being opened.
    Opening,
    /// An HTTP connection is being set up over it.
    Handshaking,
    /// The request is sent and the response due.
    Waiting,
    /// The request is answered.
    Done,
}

/// How the outside work of a stage ended.
#[derive(Clone, Copy, Debug, PartialEq, Eq, Structural)]
pub enum ProxyEvent {
    /// It succeeded; while waiting, with a response of this status.
    Done(u16),
    /// It failed.
    Failed,
    /// It did not end in time.
    TimedOut,
}

/// What to do next for a visitor's request.
#[derive(Clone, Copy, Debug, PartialEq, Eq, Structural)]
pub enum ProxyAction {
    /// Open a stream through this session.
    OpenStream(SessionHandle),
    /// Set up an HTTP connection over the stream.
    Handshake,
    /// Send the scrubbed request.
    SendRequest,
    /// Stream the scrubbed response to the visitor.
    Forward,
    /// Hand the response over and splice the two upgraded connections.
    Splice,
    /// Answer with the error page.
    Refuse(ProxyFault),
}

/// One visitor's request on its way through the relay.
#[derive(Clone, Copy, Debug, PartialEq, Eq, Structural)]
pub struct ProxyRun {
    pub stage: ProxyStage,
    pub upgrading: bool,
}

impl ProxyRun {
    /// The step of a request.
    pub open spec fn after(self, e: ProxyEvent) -> (ProxyRun, ProxyAction) {
        let done = ProxyRun { stage: ProxyStage::Done, ..self };
        match self.stage {
            ProxyStage::Opening => match e {
                ProxyEvent::Done(_) => (
                    ProxyRun { stage: ProxyStage::Handshaking, ..self },
                    ProxyAction::Handshake,
                ),
                _ => (done, ProxyAction::Refuse(ProxyFault::Open)),
            },
            ProxyStage::Handshaking => match e {
                ProxyEvent::Done(_) => (
                    ProxyRun { stage: ProxyStage::Waiting, ..self },
                    ProxyAction::SendRequest,
                ),
                _ => (done, ProxyAction::Refuse(ProxyFault::Handshake)),
            },
            ProxyStage::Waiting => match e {
                ProxyEvent::Done(status) => (
                    done,
                    if status != 101 {
                        ProxyAction::Forward
                    } else if self.upgrading {
                        ProxyAction::Splice
                    } else {
                        ProxyAction::Refuse(ProxyFault::UnaskedUpgrade)
                    },
                ),
                ProxyEvent::Failed => (done, ProxyAction::Refuse(ProxyFault::Request)),
                ProxyEvent::TimedOut => (done, ProxyAction::Refuse(ProxyFault::HeaderTimeout)),
            },
            ProxyStage::Done => (done, ProxyAction::Refuse(ProxyFault::Request)),
        }
    }

    /// The outside work of the stage ended: what next. A switch of protocols is
    /// spliced if the visitor asked for it, and refused otherwise.
    pub fn step(&mut self, e: ProxyEvent) -> (r: ProxyAction)
        ensures
            (*final(self), r) == old(self).after(e),
    {
        match self.stage {
            ProxyStage::Opening => match e {
                ProxyEvent::Done(_) => {
                    self.stage = ProxyStage::Handshaking;
                    ProxyAction::Handshake
                },
                _ => {
                    self.stage = ProxyStage::Done;
                    ProxyAction::Refuse(ProxyFault::Open)
                },
            },
            ProxyStage::Handshaking => match e {
                ProxyEvent::Done(_) => {
                    self.stage = ProxyStage::Waiting;
                    ProxyAction::SendRequest
                },
                _ => {
                    self.stage = ProxyStage::Done;
                    ProxyAction::Refuse(ProxyFault::Handshake)
                },
            },
            ProxyStage::Waiting => {
                self.stage = ProxyStage::Done;
                match e {
                    ProxyEvent::Done(status) => if status != 101 {
                        ProxyAction::Forward
                    } else if self.upgrading {
                        ProxyAction::Splice
                    } else {
                        ProxyAction::Refuse(ProxyFault::UnaskedUpgrade)
                    },
                    ProxyEvent::Failed => ProxyAction::Refuse(ProxyFault::Request),
                    ProxyEvent::TimedOut => ProxyAction::Refuse(ProxyFault::HeaderTimeout),
                }
            },
            ProxyStage::Done => ProxyAction::Refuse(ProxyFault::Request),
        }
    }
}

/// Begin to serve a visitor's request for `host`: through the session that owns
/// the hostname, if there is one.
pub fn proxy_http(router: &Router, host: &str, headers: &Vec<Header>) -> (r: (
    ProxyRun,
    ProxyAction,
))
    requires
        router.wf(),
    ensures
        r.0.upgrading == upgrade_asked(header_views(headers@)),
        match r.1 {
            ProxyAction::OpenStream(h) => r.0.stage == ProxyStage::Opening
                && router@.http.dom().contains(host@) && h == router@.http[host@],
            ProxyAction::Refuse(f) => r.0.stage == ProxyStage::Done && f == ProxyFault::NoRoute
                && !router@.http.dom().contains(host@),
            _ => false,
        },
{
    let upgrading = is_upgrade(headers);
    match router.lookup_http(host) {
        Some(h) => (
            ProxyRun { stage: ProxyStage::Opening, upgrading },
            ProxyAction::OpenStream(h),
        ),
        None => (
            ProxyRun { stage: ProxyStage::Done, upgrading },
            ProxyAction::Refuse(ProxyFault::NoRoute),
        ),
    }
}

/// Seconds a daemon has to answer with response headers.
pub const RESPONSE_HEADER_TIMEOUT: u64 = 30;

/// A setting in seconds, 0 meaning off, as milliseconds.
pub fn dur_or_off(secs: u64) -> (r: Option<u128>)
    ensures
        r == (if secs > 0 {
            Some((secs * 1000) as u128)
        } else {
            None
        }),
{
    if secs > 0 {
        Some(secs as u128 * 1000)
    } else {
        None
    }
}

/// When either direction of a splice last made progress, in milliseconds since
/// the splice began. Activity in one direction counts for both.
#[derive(Clone, Copy, Debug, PartialEq, Eq, Structural)]
pub struct ActivityClock {
    pub last_ms: u128,
}

impl ActivityClock {
    pub fn new() -> (r: Self)
        ensures
            r.last_ms == 0,
    {
        ActivityClock { last_ms: 0 }
    }

    /// Bytes moved at `now`.
    pub fn bump(&mut self, now: u128)
        ensures
            final(self).last_ms == now,
    {
        self.last_ms = now;
    }

    /// The silence so far.
    pub open spec fn silence(self, now: u128) -> int {
        if now > self.last_ms {
            now - self.last_ms
        } else {
            0
        }
    }

    /// The silence so far.
    pub fn idle_for(&self, now: u128) -> (r: u128)
        ensures
            r == self.silence(now),
    {
        if now > self.last_ms {
            now - self.last_ms
        } else {
            0
        }
    }
}

/// Why a splice was torn down.
#[derive(Clone, Copy, Debug, PartialEq, Eq, Structural)]
pub enum SpliceTimeout {
    /// It lived to its ceiling.
    Absolute,
    /// Neither direction made progress.
    Idle,
}

impl SpliceTimeout {
    /// The timeout in words.
    pub fn message(&self) -> (r: &'static str)
        ensures
            r@ == (match self {
                SpliceTimeout::Absolute => "splice absolute timeout"@,
                SpliceTimeout::Idle => "splice idle timeout"@,
            }),
    {
        match self {
            SpliceTimeout::Absolute => "splice absolute timeout",
            SpliceTimeout::Idle => "splice idle timeout",
        }
    }
}

/// Bounds on a splice, in milliseconds; `None` is no bound.
#[derive(Clone, Copy, Debug, PartialEq, Eq, Structural)]
pub struct SpliceBounds {
    pub idle: Option<u128>,
    pub absolute: Option<u128>,
}

impl SpliceBounds {
    /// What the watchdog finds `now` milliseconds into the splice.
    pub open spec fn verdict(self, clock: ActivityClock, now: u128) -> Option<SpliceTimeout> {
        if self.absolute is Some && now >= self.absolute->0 {
            Some(SpliceTimeout::Absolute)
        } else if self.idle is Some && clock.silence(now) >= self.idle->0 {
            Some(SpliceTimeout::Idle)
        } else {
            None
        }
    }

    /// What the watchdog finds `now` milliseconds into the splice.
    pub fn check(&self, clock: &ActivityClock, now: u128) -> (r: Option<SpliceTimeout>)
        ensures
            r == self.verdict(*clock, now),
    {
        match self.absolute {
            Some(d) => {
                if now >= d {
                    return Some(SpliceTimeout::Absolute);
                }
            },
            None => {},
        }
        match self.idle {
            Some(d) => {
                if clock.idle_for(now) >= d {
                    return Some(SpliceTimeout::Idle);
                }
            },
            None => {},
        }
        None
    }

    /// Whether a watchdog is needed at all.
    pub fn bounded(&self) -> (r: bool)
        ensures
            r == (self.idle is Some || self.absolute is Some),
    {
        self.idle.is_some() || self.absolute.is_some()
    }

    /// The watchdog's period: a quarter of the idle bound, within 10
    /// milliseconds and a second.
    pub fn tick_period(&self) -> (r: u128)
        ensures
            r == (match self.idle {
                Some(d) => if d / 4 < 10 {
                    10
                } else if d / 4 > 1000 {
                    1000
                } else {
                    d / 4
                },
                None => 1000,
            }),
    {
        match self.idle {
            Some(d) => {
                let q: u128 = d / 4;
                if q < 10 {
                    10
                } else if q > 1000 {
                    1000
                } else {
                    q
                }
            },
            None => 1000,
        }
    }
}

/// How far the two directions of a splice are: the bytes of each that ended.
#[derive(Clone, Copy, Debug, PartialEq, Eq, Structural)]
pub struct CopyProgress {
    pub a_to_b: Option<u64>,
    pub b_to_a: Option<u64>,
}

impl CopyProgress {
    pub fn new() -> (r: Self)
        ensures
            r == (CopyProgress { a_to_b: None, b_to_a: None }),
    {
        CopyProgress { a_to_b: None, b_to_a: None }
    }

    /// The byte counts once both directions ended.
    pub fn finished(&self) -> (r: Option<(u64, u64)>)
        ensures
            r == (match (self.a_to_b, self.b_to_a) {
                (Some(x), Some(y)) => Some((x, y)),
                _ => None,
            }),
    {
        match (self.a_to_b, self.b_to_a) {
            (Some(x), Some(y)) => Some((x, y)),
            _ => None,
        }
    }
}

/// What a guarded read or write reports.
#[derive(Clone, Copy, Debug, PartialEq, Eq, Structural)]
pub enum GuardedPoll {
    Ready,
    Pending,
    TimedOut,
}

/// Fails a read or write once `idle` milliseconds pass with no progress in
/// either direction; `None` disables the bound. Used on the body legs towards
/// the daemon, so that a stalled body frees the daemon's stream.
#[derive(Clone, Copy, Debug, PartialEq, Eq, Structural)]
pub struct IdleTimeout {
    pub idle: Option<u128>,
    pub last_ms: u128,
}

impl IdleTimeout {
    pub fn new(idle: Option<u128>, now: u128) -> (r: Self)
        ensures
            r == (IdleTimeout { idle, last_ms: now }),
    {
        IdleTimeout { idle, last_ms: now }
    }

    /// Quiet for too long.
    pub open spec fn expired(self, now: u128) -> bool {
        self.idle is Some && now >= self.last_ms + self.idle->0
    }

    /// A poll of the inner stream at `now`: progress re-arms the clock, and a
    /// stall past it is an error.
    pub fn poll(&mut self, ready: bool, now: u128) -> (r: GuardedPoll)
        ensures
            final(self).idle == old(self).idle,
            ready ==> r == GuardedPoll::Ready && final(self).last_ms == now,
            !ready ==> final(self).last_ms == old(self).last_ms && r == (if old(self).expired(
                now,
            ) {
                GuardedPoll::TimedOut
            } else {
                GuardedPoll::Pending
            }),
    {
        if ready {
            self.last_ms = now;
            return GuardedPoll::Ready;
        }
        match self.idle {
            Some(d) => if now >= self.last_ms && now - self.last_ms >= d {
                GuardedPoll::TimedOut
            } else {
                GuardedPoll::Pending
            },
            None => GuardedPoll::Pending,
        }
    }
}

/// Carries the accept-time permit of a connection to the task that outlives
/// the request, which takes it exactly once.
pub struct PermitCell {
    slot: Option<ConnPermit>,
}

impl PermitCell {
    /// The permit, while it is still there.
    pub closed spec fn content(&self) -> Option<ConnPermit> {
        self.slot
    }

    pub fn new(permit: ConnPermit) -> (r: Self)
        ensures
            r.content() == Some(permit),
    {
        PermitCell { slot: Some(permit) }
    }

    /// The permit, the first time.
    pub fn take(&mut self) -> (r: Option<ConnPermit>)
        ensures
            r == old(self).content(),
            final(self).content() is None,
    {
        self.slot.take()
    }
}

proof fn lemma_filter_in(s: Seq<HeaderView>, p: spec_fn(HeaderView) -> bool, i: int)
    requires
        0 <= i < s.filter(p).len(),
    ensures
        p(s.filter(p)[i]),
        s.contains(s.filter(p)[i]),
    decreases s.len(),
{
    reveal(Seq::filter);
    if s.len() > 0 {
        let rest = s.drop_last();
        if i < rest.filter(p).len() {
            lemma_filter_in(rest, p, i);
            let k = choose|k: int| 0 <= k < rest.len() && rest[k] == rest.filter(p)[i];
            assert(s[k] == rest[k]);
        } else {
            assert(s[s.len() - 1] == s.last());
        }
    }
}

/// No hop-by-hop header passes, and neither does one that the `connection`
/// header names, save `upgrade` on a request that upgrades.
pub proof fn hop_by_hop_never_passes(s: Seq<HeaderView>, keep: bool, i: int)
    requires
        0 <= i < stripped(s, keep).len(),
    ensures
        s.contains(stripped(s, keep)[i]),
        !hop_by_hop(stripped(s, keep)[i].name),
        listed(s, stripped(s, keep)[i].name) ==> keep && stripped(s, keep)[i].name == "upgrade"@,
        !keep ==> stripped(s, keep)[i].name != "connection"@ && stripped(s, keep)[i].name
            != "upgrade"@,
{
    lemma_filter_in(s, |h: HeaderView| !dropped(s, h.name, keep), i);
}

/// Whatever a visitor sends, each forwarding header the daemon gets is the one
/// the relay wrote.
pub proof fn forwarding_cannot_be_spoofed(
    s: Seq<HeaderView>,
    peer: Seq<char>,
    host: Seq<char>,
    upgrading: bool,
    i: int,
)
    requires
        0 <= i < request_headers(s, peer, host, upgrading).len(),
        forwarding(request_headers(s, peer, host, upgrading)[i].name),
    ensures
        request_headers(s, peer, host, upgrading)[i] == text_header("x-forwarded-for"@, peer)
            || request_headers(s, peer, host, upgrading)[i] == text_header(
            "x-forwarded-proto"@,
            "https"@,
        ) || request_headers(s, peer, host, upgrading)[i] == text_header(
            "x-forwarded-host"@,
            host,
        ),
{
    let p = |h: HeaderView| !forwarding(h.name);
    let kept = stripped(s, upgrading).filter(p);
    if i < kept.len() {
        lemma_filter_in(stripped(s, upgrading), p, i);
    }
}

/// A protocol switch that the visitor did not ask for never reaches the
/// visitor.
pub proof fn unasked_switch_is_refused(run: ProxyRun, e: ProxyEvent)
    requires
        !run.upgrading,
    ensures
        run.after(e).1 != ProxyAction::Splice,
        e == ProxyEvent::Done(101) ==> run.after(e).1 != ProxyAction::Forward,
        run.stage == ProxyStage::Waiting && e == ProxyEvent::Done(101) ==> run.after(e).1
            == ProxyAction::Refuse(ProxyFault::UnaskedUpgrade) && fault_page(
            ProxyFault::UnaskedUpgrade,
        ).status == 502,
{
}

/// A response never tells the visitor what software answered.
pub proof fn stack_is_not_advertised(s: Seq<HeaderView>)
    ensures
        !has_name(response_headers(s), "server"@),
{
    let p = |h: HeaderView| h.name != "server"@;
    if has_name(response_headers(s), "server"@) {
        let i = choose|i: int|
            0 <= i < response_headers(s).len() && (#[trigger] response_headers(s)[i]).name
                == "server"@;
        lemma_filter_in(stripped(s, false), p, i);
    }
}

/// Progress in either direction keeps a splice from idling out for a whole
/// idle bound; with no bounds it is never torn down.
pub proof fn activity_keeps_a_splice(b: SpliceBounds, moved: u128, now: u128)
    requires
        moved <= now,
    ensures
        b.idle is Some && now - moved < b.idle->0 ==> b.verdict(
            ActivityClock { last_ms: moved },
            now,
        ) != Some(SpliceTimeout::Idle),
        b.idle is None && b.absolute is None ==> b.verdict(ActivityClock { last_ms: moved }, now)
            is None,
        b.absolute is Some && now >= b.absolute->0 ==> b.verdict(
            ActivityClock { last_ms: moved },
            now,
        ) == Some(SpliceTimeout::Absolute),
        b.idle is Some && now - moved >= b.idle->0 ==> b.verdict(
            ActivityClock { last_ms: moved },
            now,
        ) is Some,
{
}

/// Whatever response the local app gives reaches the visitor, whatever its
/// status: it is forwarded, or spliced if it switches protocols as asked. The
/// relay answers with a page of its own only where a stage failed or timed out,
/// or a switch was not asked for, and that page says which.
pub proof fn response_reaches_the_visitor(run: ProxyRun, e: ProxyEvent)
    ensures
        run.after(e).0.upgrading == run.upgrading,
        run.after(e).1 == ProxyAction::Forward <==> run.stage == ProxyStage::Waiting && (
        e matches ProxyEvent::Done(status) && status != 101),
        run.after(e).1 == ProxyAction::Splice <==> run.stage == ProxyStage::Waiting && e
            == ProxyEvent::Done(101) && run.upgrading,
        run.after(e).1 matches ProxyAction::Refuse(f) ==> run.stage == ProxyStage::Done || e
            == ProxyEvent::Failed || e == ProxyEvent::TimedOut || (run.stage == ProxyStage::Waiting
            && e == ProxyEvent::Done(101) && !run.upgrading),
        run.stage != ProxyStage::Done && (e == ProxyEvent::Failed || e == ProxyEvent::TimedOut)
            ==> (run.after(e).1 matches ProxyAction::Refuse(f) && fault_page(f).status == (
        if run.stage == ProxyStage::Waiting && e == ProxyEvent::TimedOut {
            504u16
        } else {
            502u16
        })),
        !(run.after(e).1 is Handshake) && !(run.after(e).1 is SendRequest) ==> run.after(e).0.stage
            == ProxyStage::Done,
{
}

/// A request that meets no trouble opens a stream, sets up HTTP over it, sends
/// the request and hands on the response, in this order and once each.
pub proof fn request_takes_its_course(upgrading: bool, a: u16, b: u16, status: u16)
    ensures
        ({
            let start = ProxyRun { stage: ProxyStage::Opening, upgrading };
            let (opened, first) = start.after(ProxyEvent::Done(a));
            let (ready, second) = opened.after(ProxyEvent::Done(b));
            let (over, third) = ready.after(ProxyEvent::Done(status));
            &&& first == ProxyAction::Handshake
            &&& second == ProxyAction::SendRequest
            &&& status != 101 ==> third == ProxyAction::Forward
            &&& status == 101 && upgrading ==> third == ProxyAction::Splice
            &&& over.stage == ProxyStage::Done
            &&& forall|e: ProxyEvent| (#[trigger] over.after(e)).1 is Refuse
        }),
{
}

/// The status of an error page: 404 where no tunnel is registered, 504 where
/// the local service was too slow, 502 for everything else; all of them HTML.
pub proof fn fault_pages_tell_the_fault(f: ProxyFault)
    ensures
        fault_page(f).status == (match f {
            ProxyFault::NoRoute => 404u16,
            ProxyFault::HeaderTimeout => 504u16,
            _ => 502u16,
        }),
        fault_page(f).content_type == "text/html; charset=utf-8"@,
{
}

/// The value of a header is that of the first header so named.
pub proof fn first_header_counts(s: Seq<HeaderView>, name: Seq<char>, i: int)
    requires
        0 <= i <= s.len(),
        forall|j: int| 0 <= j < i ==> (#[trigger] s[j]).name != name,
        i < s.len() ==> s[i].name == name,
    ensures
        first_text(s, name) == (if i < s.len() {
            s[i].text
        } else {
            None
        }),
        first_value(s, name) == (if i < s.len() {
            Some(s[i].value)
        } else {
            None
        }),
    decreases i,
{
    if i > 0 {
        let rest = s.drop_first();
        assert(s[0].name != name);
        assert forall|j: int| 0 <= j < i - 1 implies (#[trigger] rest[j]).name != name by {
            assert(s[j + 1].name != name);
        }
        first_header_counts(rest, name, i - 1);
    }
}

proof fn lemma_filter_has(s: Seq<HeaderView>, p: spec_fn(HeaderView) -> bool, h: HeaderView)
    ensures
        s.filter(p).contains(h) <==> s.contains(h) && p(h),
    decreases s.len(),
{
    reveal(Seq::filter);
    if s.len() > 0 {
        let rest = s.drop_last();
        lemma_filter_has(rest, p, h);
        if s.contains(h) {
            let k = choose|k: int| 0 <= k < s.len() && s[k] == h;
            if k < rest.len() {
                assert(rest[k] == h);
            }
        }
        if rest.contains(h) {
            let k = choose|k: int| 0 <= k < rest.len() && rest[k] == h;
            assert(s[k] == h);
        }
        assert(s[s.len() - 1] == s.last());
        let f = rest.filter(p);
        let g = s.filter(p);
        if g.contains(h) {
            let k = choose|k: int| 0 <= k < g.len() && g[k] == h;
            if k < f.len() {
                assert(f[k] == h);
            }
        }
        if f.contains(h) {
            let k = choose|k: int| 0 <= k < f.len() && f[k] == h;
            assert(g[k] == h);
        }
        if p(s.last()) {
            assert(g[g.len() - 1] == s.last());
        }
    }
}

/// The headers that concern one connection only and never pass the relay.
pub open spec fn connection_bound(name: Seq<char>) -> bool {
    seq![
        "keep-alive"@,
        "proxy-connection"@,
        "proxy-authenticate"@,
        "proxy-authorization"@,
        "te"@,
        "trailer"@,
        "transfer-encoding"@,
    ].contains(name)
}

proof fn lemma_connection_bound(name: Seq<char>)
    ensures
        connection_bound(name) == hop_by_hop(name),
{
    let all = seq![
        "keep-alive"@,
        "proxy-connection"@,
        "proxy-authenticate"@,
        "proxy-authorization"@,
        "te"@,
        "trailer"@,
        "transfer-encoding"@,
    ];
    assert(all[0] == "keep-alive"@);
    assert(all[1] == "proxy-connection"@);
    assert(all[2] == "proxy-authenticate"@);
    assert(all[3] == "proxy-authorization"@);
    assert(all[4] == "te"@);
    assert(all[5] == "trailer"@);
    assert(all[6] == "transfer-encoding"@);
}

/// A request header reaches the local app unchanged exactly if it is none that
/// concerns the connection, none that the `connection` header names (`upgrade`
/// passes if the request upgrades, and so does `connection`) and no forwarding
/// header; besides these the app gets the visitor's address, the scheme and the
/// public hostname.
pub proof fn request_headers_pass(
    s: Seq<HeaderView>,
    peer: Seq<char>,
    host: Seq<char>,
    upgrading: bool,
    h: HeaderView,
)
    ensures
        request_headers(s, peer, host, upgrading).contains(h) <==> (s.contains(h)
            && !connection_bound(h.name) && (upgrading || (h.name != "connection"@ && h.name
            != "upgrade"@)) && (listed(s, h.name) ==> upgrading && h.name == "upgrade"@) && h.name
            != "x-forwarded-for"@ && h.name != "x-forwarded-proto"@ && h.name
            != "x-forwarded-host"@ && h.name != "forwarded"@) || h == text_header(
            "x-forwarded-for"@,
            peer,
        ) || h == text_header("x-forwarded-proto"@, "https"@) || h == text_header(
            "x-forwarded-host"@,
            host,
        ),
{
    let p = |h: HeaderView| !dropped(s, h.name, upgrading);
    let q = |h: HeaderView| !forwarding(h.name);
    let kept = stripped(s, upgrading).filter(q);
    let own = seq![
        text_header("x-forwarded-for"@, peer),
        text_header("x-forwarded-proto"@, "https"@),
        text_header("x-forwarded-host"@, host),
    ];
    lemma_connection_bound(h.name);
    lemma_filter_has(s, p, h);
    lemma_filter_has(stripped(s, upgrading), q, h);
    let all = request_headers(s, peer, host, upgrading);
    assert(own[0] == text_header("x-forwarded-for"@, peer));
    assert(own[1] == text_header("x-forwarded-proto"@, "https"@));
    assert(own[2] == text_header("x-forwarded-host"@, host));
    assert(all.contains(h) == (kept.contains(h) || own.contains(h))) by {
        if all.contains(h) {
            let k = choose|k: int| 0 <= k < all.len() && all[k] == h;
            if k < kept.len() {
                assert(kept[k] == h);
            } else {
                assert(own[k - kept.len()] == h);
            }
        }
        if kept.contains(h) {
            let k = choose|k: int| 0 <= k < kept.len() && kept[k] == h;
            assert(all[k] == h);
        }
        if own.contains(h) {
            let k = choose|k: int| 0 <= k < own.len() && own[k] == h;
            assert(all[kept.len() + k] == h);
        }
    }
}

/// A response header reaches the visitor unchanged exactly if it does not
/// concern the connection, is not named by the `connection` header and does not
/// name the server.
pub proof fn response_headers_pass(s: Seq<HeaderView>, h: HeaderView)
    ensures
        response_headers(s).contains(h) <==> s.contains(h) && !connection_bound(h.name) && h.name
            != "connection"@ && h.name != "upgrade"@ && !listed(s, h.name) && h.name != "server"@,
{
    lemma_connection_bound(h.name);
    lemma_filter_has(s, |h: HeaderView| !dropped(s, h.name, false), h);
    lemma_filter_has(stripped(s, false), |h: HeaderView| h.name != "server"@, h);
}

/// Headers pass in the order in which they came.
pub proof fn headers_keep_their_order(s: Seq<HeaderView>, keep: bool, i: int, j: int)
    requires
        0 <= i < j < stripped(s, keep).len(),
    ensures
        exists|a: int, b: int|
            0 <= a < b < s.len() && #[trigger] s[a] == stripped(s, keep)[i] && #[trigger] s[b]
                == stripped(s, keep)[j],
{
    crate::relay::rows::lemma_filter_positions(
        s,
        |h: HeaderView| !dropped(s, h.name, keep),
        i,
        j,
    );
}

/// A header is named by the `connection` header exactly if it is one of the
/// entries there, which commas set apart, whatever the case and the blanks
/// around them.
pub proof fn connection_header_lists(s: Seq<HeaderView>, name: Seq<char>)
    requires
        name.len() > 0,
    ensures
        match first_text(s, "connection"@) {
            None => !listed(s, name),
            Some(t) => listed(s, name) <==> text::parts(t, ',').map_values(
                |e: Seq<char>| text::lower(text::trimmed(e)),
            ).contains(name),
        },
{
    if let Some(t) = first_text(s, "connection"@) {
        let f = |e: Seq<char>| text::lower(text::trimmed(e));
        let all = text::parts(t, ',').map_values(f);
        if listed(s, name) {
            let i = choose|i: int|
                0 <= i < text::parts(t, ',').len() && text::lower(
                    text::trimmed(#[trigger] text::parts(t, ',')[i]),
                ) == name && name.len() > 0;
            assert(all[i] == name);
        }
        if all.contains(name) {
            let i = choose|i: int| 0 <= i < all.len() && all[i] == name;
            assert(text::lower(text::trimmed(text::parts(t, ',')[i])) == name);
        }
    }
}

/// A request asks for an upgrade exactly if it carries an `upgrade` header and
/// its `connection` header mentions `upgrade`, in whatever case.
pub proof fn upgrade_needs_both_headers(s: Seq<HeaderView>)
    ensures
        upgrade_asked(s) <==> (exists|i: int| 0 <= i < s.len() && (#[trigger] s[i]).name == "upgrade"@)
            && first_text(s, "connection"@) is Some && text::occurs(
            text::lower(first_text(s, "connection"@)->0),
            "upgrade"@,
        ),
{
}

/// A splice ends by the clock exactly if it has lasted as long as it may, or
/// nothing has moved in either direction for the idle bound.
pub proof fn splice_ends_at_its_bounds(b: SpliceBounds, clock: ActivityClock, now: u128)
    ensures
        b.verdict(clock, now) is Some <==> (b.absolute is Some && now >= b.absolute->0) || (b.idle
            is Some && (now >= clock.last_ms + b.idle->0 || b.idle->0 == 0)),
        b.verdict(clock, now) == Some(SpliceTimeout::Absolute) <==> b.absolute is Some && now
            >= b.absolute->0,
{
}

/// A guarded stream is quiet for too long exactly if it has a bound and that
/// much time passed since the last progress.
pub proof fn quiet_stream_times_out(t: IdleTimeout, now: u128)
    ensures
        t.expired(now) <==> t.idle is Some && now - t.last_ms >= t.idle->0,
{
}

} // verus!
