//! Local forwarding: from the relay to a local service.
//!
//! The relay opens one stream per visitor connection and begins it with a
//! header naming the tunnel. The stream is spliced to the mapped local address.
//! If the local service is down, an HTTP tunnel answers with an error page of
//! its own, so that the visitor learns the tunnel is up but the service is not.
use vstd::prelude::*;

use crate::proto::frames::StreamHeader;
use crate::table::Table;
use crate::text;

verus! {

/// Where a tunnel forwards to.
#[derive(Clone, Debug)]
pub struct LocalTarget {
    pub host: String,
    pub port: u16,
}

/// View of a [`LocalTarget`].
pub struct TargetView {
    pub host: Seq<char>,
    pub port: u16,
}

impl View for LocalTarget {
    type V = TargetView;

    open spec fn view(&self) -> TargetView {
        TargetView { host: self.host@, port: self.port }
    }
}

/// HTTP tunnels by hostname and TCP tunnels by public port.
pub struct RouteTable {
    pub http: Table<String, LocalTarget>,
    pub tcp: Table<u16, LocalTarget>,
}

/// Seconds a local service has to take a connection.
pub const CONNECT_TIMEOUT: u64 = 3;

/// What an inbound stream is for.
pub enum Inbound {
    /// An HTTP tunnel to this address.
    Http(LocalTarget),
    /// A raw-TCP tunnel to this address.
    Tcp(LocalTarget),
    /// A hostname that is not served: answer with this text and close.
    Answer(String),
    /// A port that is not served: close.
    Close,
}

impl RouteTable {
    pub open spec fn wf(&self) -> bool {
        self.http.wf() && self.tcp.wf()
    }

    /// Tables without a tunnel.
    pub fn new() -> (r: Self)
        ensures
            r.wf(),
            r.http@ == Map::<Seq<char>, LocalTarget>::empty(),
            r.tcp@ == Map::<u16, LocalTarget>::empty(),
    {
        RouteTable { http: Table::new(), tcp: Table::new() }
    }

    /// Where a stream with this header goes.
    pub fn handle_inbound(&self, header: &StreamHeader) -> (r: Inbound)
        requires
            self.wf(),
        ensures
            match header {
                StreamHeader::Http { host, .. } => if self.http@.dom().contains(host@) {
                    r is Http && r->Http_0@ == self.http@[host@]@
                } else {
                    r is Answer && r->Answer_0@ == bad_gateway(host@)
                },
                StreamHeader::Tcp { port, .. } => if self.tcp@.dom().contains(*port) {
                    r is Tcp && r->Tcp_0@ == self.tcp@[*port]@
                } else {
                    r is Close
                },
            },
    {
        match header {
            StreamHeader::Http { host, peer_ip: _, peer_port: _ } => match self.http.get(host) {
                Some(t) => Inbound::Http(LocalTarget { host: t.host.clone(), port: t.port }),
                None => Inbound::Answer(text_502(host.as_str())),
            },
            StreamHeader::Tcp { port, peer_ip: _, peer_port: _ } => match self.tcp.get(port) {
                Some(t) => Inbound::Tcp(LocalTarget { host: t.host.clone(), port: t.port }),
                None => Inbound::Close,
            },
        }
    }
}

/// How connecting to the local service went.
#[derive(Clone, Copy, Debug, PartialEq, Eq, Structural)]
pub enum LocalConnect {
    Connected,
    Refused,
    TimedOut,
}

/// What to do with a stream once the local service was tried.
pub enum Forward {
    /// Splice the two.
    Splice,
    /// Answer with this text and close.
    Answer(String),
    /// Close.
    Close,
}

/// What to do with an HTTP stream once the local service was tried.
pub fn forward_http(target: &LocalTarget, c: LocalConnect) -> (r: Forward)
    ensures
        match c {
            LocalConnect::Connected => r is Splice,
            LocalConnect::Refused => r is Answer && r->Answer_0@ == bad_gateway(target.host@),
            LocalConnect::TimedOut => r is Answer && r->Answer_0@ == gateway_timeout(
                target.host@,
            ),
        },
{
    match c {
        LocalConnect::Connected => Forward::Splice,
        LocalConnect::Refused => Forward::Answer(text_502(target.host.as_str())),
        LocalConnect::TimedOut => Forward::Answer(text_504(target.host.as_str())),
    }
}

/// What to do with a raw-TCP stream once the local service was tried: there is
/// no protocol to put an error into, so a failure just closes.
pub fn forward_tcp(c: LocalConnect) -> (r: Forward)
    ensures
        match c {
            LocalConnect::Connected => r is Splice,
            _ => r is Close,
        },
{
    match c {
        LocalConnect::Connected => Forward::Splice,
        _ => Forward::Close,
    }
}

/// A self-contained HTTP response.
pub open spec fn response(
    status: u16,
    reason: Seq<char>,
    tag: Seq<char>,
    body: Seq<char>,
) -> Seq<char> {
    "HTTP/1.1 "@ + text::decimal(status as nat) + " "@ + reason
        + "\r\nContent-Type: text/html; charset=utf-8\r\nContent-Length: "@ + text::decimal(
        vstd::utf8::encode_utf8(body).len(),
    ) + "\r\nCache-Control: no-store\r\nX-Etun-Error: "@ + tag + "\r\nConnection: close\r\n\r\n"@
        + body
}

/// Build a self-contained HTTP response, whose length is counted in bytes.
pub fn write_http(status: u16, reason: &str, error_tag: &str, body: &str) -> (r: String)
    ensures
        r@ == response(status, reason@, error_tag@, body@),
{
    let mut s = text::join3("HTTP/1.1 ", text::decimal_u64(status as u64).as_str(), " ");
    s.append(reason);
    s.append("\r\nContent-Type: text/html; charset=utf-8\r\nContent-Length: ");
    s.append(text::decimal_u64(body.as_bytes().len() as u64).as_str());
    s.append("\r\nCache-Control: no-store\r\nX-Etun-Error: ");
    s.append(error_tag);
    s.append("\r\nConnection: close\r\n\r\n");
    s.append(body);
    s
}

/// The answer when nothing took the connection.
pub open spec fn bad_gateway(host: Seq<char>) -> Seq<char> {
    response(
        502,
        "Bad Gateway"@,
        "local-connect-failed"@,
        "<!doctype html><meta charset=utf-8><title>502</title><h1>502 - local service unavailable</h1><p>The tunnel is connected, but nothing accepted the connection on the target for <code>"@
            + host + "</code>. Check that your local service is running.</p>"@,
    )
}

/// The answer when the connection was not taken in time.
pub open spec fn gateway_timeout(host: Seq<char>) -> Seq<char> {
    response(
        504,
        "Gateway Timeout"@,
        "local-connect-timeout"@,
        "<!doctype html><meta charset=utf-8><title>504</title><h1>504 - local service timed out</h1><p>The tunnel is connected, but the local target for <code>"@
            + host + "</code> did not accept the connection in time.</p>"@,
    )
}

fn text_502(host: &str) -> (r: String)
    ensures
        r@ == bad_gateway(host@),
{
    let body = text::join3(
        "<!doctype html><meta charset=utf-8><title>502</title><h1>502 - local service unavailable</h1><p>The tunnel is connected, but nothing accepted the connection on the target for <code>",
        host,
        "</code>. Check that your local service is running.</p>",
    );
    write_http(502, "Bad Gateway", "local-connect-failed", body.as_str())
}

fn text_504(host: &str) -> (r: String)
    ensures
        r@ == gateway_timeout(host@),
{
    let body = text::join3(
        "<!doctype html><meta charset=utf-8><title>504</title><h1>504 - local service timed out</h1><p>The tunnel is connected, but the local target for <code>",
        host,
        "</code> did not accept the connection in time.</p>",
    );
    write_http(504, "Gateway Timeout", "local-connect-timeout", body.as_str())
}

/// An answer that the daemon gives itself is a complete HTTP response: its
/// length is that of the body in bytes, the body comes last, and the connection
/// closes behind it. It says that the service failed to answer, and how.
pub proof fn own_answers_are_complete(status: u16, reason: Seq<char>, tag: Seq<char>, body: Seq<char>)
    ensures
        ({
            let r = response(status, reason, tag, body);
            let line = "HTTP/1.1 "@ + text::decimal(status as nat) + " "@ + reason + "\r\n"@;
            let length = "\r\nContent-Length: "@ + text::decimal(
                vstd::utf8::encode_utf8(body).len(),
            ) + "\r\n"@;
            let end = "\r\nX-Etun-Error: "@ + tag + "\r\nConnection: close\r\n\r\n"@ + body;
            &&& line.is_prefix_of(r)
            &&& end.is_suffix_of(r)
            &&& text::occurs(r, length)
        }),
{
    let r = response(status, reason, tag, body);
    let digits = text::decimal(vstd::utf8::encode_utf8(body).len());
    let line = "HTTP/1.1 "@ + text::decimal(status as nat) + " "@ + reason + "\r\n"@;
    let length = "\r\nContent-Length: "@ + digits + "\r\n"@;
    let end = "\r\nX-Etun-Error: "@ + tag + "\r\nConnection: close\r\n\r\n"@ + body;
    reveal_strlit("\r\n");
    reveal_strlit("\r\nContent-Type: text/html; charset=utf-8\r\nContent-Length: ");
    reveal_strlit("\r\nContent-Length: ");
    reveal_strlit("Content-Type: text/html; charset=utf-8");
    reveal_strlit("\r\nCache-Control: no-store\r\nX-Etun-Error: ");
    reveal_strlit("Cache-Control: no-store");
    reveal_strlit("\r\nX-Etun-Error: ");
    assert("\r\nContent-Type: text/html; charset=utf-8\r\nContent-Length: "@ =~= "\r\n"@
        + "Content-Type: text/html; charset=utf-8"@ + "\r\nContent-Length: "@);
    assert("\r\nCache-Control: no-store\r\nX-Etun-Error: "@ =~= "\r\n"@
        + "Cache-Control: no-store"@ + "\r\nX-Etun-Error: "@);
    let front = line + "Content-Type: text/html; charset=utf-8"@;
    let back = "Cache-Control: no-store"@ + end;
    assert(r =~= front + length + back);
    text::occurrences_are_found(front, length, back);
    assert(r.subrange(0, line.len() as int) =~= line);
    assert(r.subrange(r.len() - end.len(), r.len() as int) =~= end);
}

/// Nobody listening is a 502, nobody answering in time a 504; both name the
/// target.
pub proof fn local_faults_are_told_apart(host: Seq<char>)
    ensures
        ("HTTP/1.1 "@ + text::decimal(502) + " Bad Gateway\r\n"@).is_prefix_of(bad_gateway(host)),
        ("HTTP/1.1 "@ + text::decimal(504) + " Gateway Timeout\r\n"@).is_prefix_of(
            gateway_timeout(host),
        ),
        text::occurs(bad_gateway(host), host),
        text::occurs(gateway_timeout(host), host),
        text::occurs(bad_gateway(host), "\r\nX-Etun-Error: local-connect-failed\r\n"@),
        text::occurs(gateway_timeout(host), "\r\nX-Etun-Error: local-connect-timeout\r\n"@),
{
    let a = "<!doctype html><meta charset=utf-8><title>502</title><h1>502 - local service unavailable</h1><p>The tunnel is connected, but nothing accepted the connection on the target for <code>"@;
    let b = "</code>. Check that your local service is running.</p>"@;
    let c = "<!doctype html><meta charset=utf-8><title>504</title><h1>504 - local service timed out</h1><p>The tunnel is connected, but the local target for <code>"@;
    let d = "</code> did not accept the connection in time.</p>"@;
    reveal_strlit(" ");
    reveal_strlit("\r\n");
    reveal_strlit("Bad Gateway");
    reveal_strlit(" Bad Gateway\r\n");
    reveal_strlit("Gateway Timeout");
    reveal_strlit(" Gateway Timeout\r\n");
    assert(" Bad Gateway\r\n"@ =~= " "@ + "Bad Gateway"@ + "\r\n"@);
    assert(" Gateway Timeout\r\n"@ =~= " "@ + "Gateway Timeout"@ + "\r\n"@);
    reveal_strlit("\r\nX-Etun-Error: ");
    reveal_strlit("local-connect-failed");
    reveal_strlit("local-connect-timeout");
    reveal_strlit("\r\nConnection: close\r\n\r\n");
    reveal_strlit("Connection: close\r\n\r\n");
    reveal_strlit("\r\nX-Etun-Error: local-connect-failed\r\n");
    reveal_strlit("\r\nX-Etun-Error: local-connect-timeout\r\n");
    assert("\r\nConnection: close\r\n\r\n"@ =~= "\r\n"@ + "Connection: close\r\n\r\n"@);
    assert("\r\nX-Etun-Error: local-connect-failed\r\n"@ =~= "\r\nX-Etun-Error: "@
        + "local-connect-failed"@ + "\r\n"@);
    assert("\r\nX-Etun-Error: local-connect-timeout\r\n"@ =~= "\r\nX-Etun-Error: "@
        + "local-connect-timeout"@ + "\r\n"@);
    lemma_answer(502, "Bad Gateway"@, "local-connect-failed"@, a, host, b);
    lemma_answer(504, "Gateway Timeout"@, "local-connect-timeout"@, c, host, d);
    assert("HTTP/1.1 "@ + text::decimal(502) + " "@ + "Bad Gateway"@ + "\r\n"@ =~= "HTTP/1.1 "@
        + text::decimal(502) + " Bad Gateway\r\n"@);
    assert("HTTP/1.1 "@ + text::decimal(504) + " "@ + "Gateway Timeout"@ + "\r\n"@ =~= "HTTP/1.1 "@
        + text::decimal(504) + " Gateway Timeout\r\n"@);
}

proof fn lemma_answer(
    status: u16,
    reason: Seq<char>,
    tag: Seq<char>,
    a: Seq<char>,
    host: Seq<char>,
    b: Seq<char>,
)
    ensures
        ({
            let r = response(status, reason, tag, a + host + b);
            &&& ("HTTP/1.1 "@ + text::decimal(status as nat) + " "@ + reason
                + "\r\n"@).is_prefix_of(r)
            &&& text::occurs(r, host)
            &&& text::occurs(r, "\r\nX-Etun-Error: "@ + tag + "\r\n"@)
        }),
{
    let body = a + host + b;
    let r = response(status, reason, tag, body);
    own_answers_are_complete(status, reason, tag, body);
    let mark = "\r\nX-Etun-Error: "@ + tag + "\r\n"@;
    let end = "\r\nX-Etun-Error: "@ + tag + "\r\nConnection: close\r\n\r\n"@ + body;
    let front = r.take(r.len() - end.len());
    assert(r =~= front + end);
    reveal_strlit("\r\n");
    reveal_strlit("\r\nConnection: close\r\n\r\n");
    reveal_strlit("Connection: close\r\n\r\n");
    assert("\r\nConnection: close\r\n\r\n"@ =~= "\r\n"@ + "Connection: close\r\n\r\n"@);
    let back = "Connection: close\r\n\r\n"@ + body;
    assert(r =~= front + mark + back);
    text::occurrences_are_found(front, mark, back);
    let head = r.take(r.len() - body.len()) + a;
    assert(r =~= head + host + b);
    text::occurrences_are_found(head, host, b);
}

} // verus!
