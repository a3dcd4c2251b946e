//! The transport seam: a byte stream over WebSocket messages.
//!
//! The multiplexer wants a contiguous byte stream; a WebSocket carries
//! messages. On read, binary messages are surfaced as bytes, other data frames
//! are skipped, and a close frame or the end of the socket reads as the end of
//! the stream. On write, buffers become binary messages of bounded size.
use vstd::prelude::*;

use crate::proto::limits::MAX_WS_MESSAGE;

verus! {

/// A message off the WebSocket, as far as the byte stream cares.
pub enum WsMessage {
    Binary(Vec<u8>),
    /// A close frame.
    Close,
    /// Ping, pong or text: not part of the byte protocol.
    Other,
}

/// View of a [`WsMessage`].
pub enum WsMessageView {
    Binary(Seq<u8>),
    Close,
    Other,
}

impl View for WsMessage {
    type V = WsMessageView;

    open spec fn view(&self) -> WsMessageView {
        match self {
            WsMessage::Binary(b) => WsMessageView::Binary(b@),
            WsMessage::Close => WsMessageView::Close,
            WsMessage::Other => WsMessageView::Other,
        }
    }
}

/// A binary message over the size limit.
#[derive(Clone, Copy, Debug, PartialEq, Eq, Structural)]
pub struct OversizedMessage {
    pub len: usize,
}

/// What a reader gets.
pub enum ReadStep {
    /// These bytes.
    Data(Vec<u8>),
    /// The end of the stream.
    Eof,
    /// Nothing yet: the next message is needed.
    NeedMessage,
}

/// State of the reading side: the bytes not handed out yet, and whether the
/// peer closed.
pub struct WsByteStream {
    buf: Vec<u8>,
    at: usize,
    closed: bool,
}

/// View of a [`WsByteStream`].
pub struct StreamView {
    pub pending: Seq<u8>,
    pub closed: bool,
}

/// The bytes a run of messages carries, up to the first close.
pub open spec fn carried(msgs: Seq<WsMessageView>) -> Seq<u8>
    decreases msgs.len(),
{
    if msgs.len() == 0 {
        Seq::empty()
    } else {
        match msgs[0] {
            WsMessageView::Binary(b) => b + carried(msgs.drop_first()),
            WsMessageView::Close => Seq::empty(),
            WsMessageView::Other => carried(msgs.drop_first()),
        }
    }
}

impl StreamView {
    /// The state after a message, which comes only while nothing is pending.
    pub open spec fn given(self, m: WsMessageView) -> StreamView {
        match m {
            WsMessageView::Binary(b) => StreamView { pending: b, ..self },
            WsMessageView::Close => StreamView { closed: true, ..self },
            WsMessageView::Other => self,
        }
    }

    /// Everything a reader will see if these messages come in.
    pub open spec fn readable(self, msgs: Seq<WsMessageView>) -> Seq<u8> {
        self.pending + (if self.closed {
            Seq::empty()
        } else {
            carried(msgs)
        })
    }
}

impl View for WsByteStream {
    type V = StreamView;

    closed spec fn view(&self) -> StreamView {
        StreamView { pending: self.buf@.skip(self.at as int), closed: self.closed }
    }
}

impl WsByteStream {
    pub closed spec fn wf(&self) -> bool {
        self.at <= self.buf@.len()
    }

    pub fn new() -> (r: Self)
        ensures
            r.wf(),
            r@ == (StreamView { pending: Seq::empty(), closed: false }),
    {
        let r = WsByteStream { buf: Vec::new(), at: 0, closed: false };
        assert(r@.pending =~= Seq::<u8>::empty());
        r
    }

    /// Hand out up to `room` pending bytes.
    pub fn read(&mut self, room: usize) -> (r: ReadStep)
        requires
            old(self).wf(),
        ensures
            final(self).wf(),
            final(self)@.closed == old(self)@.closed,
            match r {
                ReadStep::Data(d) => {
                    &&& old(self)@.pending.len() > 0
                    &&& d@.len() == (if room < old(self)@.pending.len() {
                        room as nat
                    } else {
                        old(self)@.pending.len()
                    })
                    &&& old(self)@.pending == d@ + final(self)@.pending
                },
                ReadStep::Eof => old(self)@.pending.len() == 0 && old(self)@.closed && final(self)@
                    == old(self)@,
                ReadStep::NeedMessage => old(self)@.pending.len() == 0 && !old(self)@.closed
                    && final(self)@ == old(self)@,
            },
    {
        let left: usize = self.buf.len() - self.at;
        if left == 0 {
            if self.closed {
                return ReadStep::Eof;
            }
            return ReadStep::NeedMessage;
        }
        let n: usize = if room < left {
            room
        } else {
            left
        };
        let ghost before = self@.pending;
        let next: usize = self.at + n;
        let mut out: Vec<u8> = Vec::new();
        let mut i: usize = 0;
        assert(out@ =~= before.take(0));
        while i < n
            invariant
                i <= n,
                next == self.at + n,
                next <= self.buf@.len(),
                before == self.buf@.skip(self.at as int),
                out@ == before.take(i as int),
            decreases n - i,
        {
            out.push(self.buf[self.at + i]);
            i += 1;
            assert(out@ =~= before.take(i as int));
        }
        self.at = next;
        assert(before =~= out@ + self@.pending);
        ReadStep::Data(out)
    }

    /// Take in the next message. An oversized binary message is an error.
    pub fn on_message(&mut self, m: WsMessage) -> (r: Result<(), OversizedMessage>)
        requires
            old(self).wf(),
            old(self)@.pending.len() == 0,
        ensures
            final(self).wf(),
            match r {
                Ok(_) => final(self)@ == old(self)@.given(m@) && !(m@ is Binary
                    && m@->Binary_0.len() > MAX_WS_MESSAGE),
                Err(e) => final(self)@ == old(self)@ && m@ is Binary && m@->Binary_0.len() == e.len
                    && e.len > MAX_WS_MESSAGE,
            },
    {
        match m {
            WsMessage::Binary(b) => {
                if b.len() > MAX_WS_MESSAGE {
                    return Err(OversizedMessage { len: b.len() });
                }
                self.buf = b;
                self.at = 0;
                assert(self@.pending =~= b@);
            },
            WsMessage::Close => {
                self.closed = true;
            },
            WsMessage::Other => {},
        }
        Ok(())
    }

    /// The socket ended.
    pub fn on_end(&mut self)
        requires
            old(self).wf(),
        ensures
            final(self).wf(),
            final(self)@ == (StreamView { closed: true, ..old(self)@ }),
    {
        self.closed = true;
    }
}

/// How many bytes of a buffer the next binary message carries.
pub fn message_len(len: usize) -> (r: usize)
    ensures
        r == (if len < MAX_WS_MESSAGE {
            len
        } else {
            MAX_WS_MESSAGE
        }),
{
    if len < MAX_WS_MESSAGE {
        len
    } else {
        MAX_WS_MESSAGE
    }
}

/// No byte is lost, doubled or reordered: what a reader has got, followed by
/// what it can still get, stays the same when a message is taken in.
pub proof fn bytes_are_conserved(v: StreamView, msgs: Seq<WsMessageView>)
    requires
        v.pending.len() == 0,
        !v.closed,
        msgs.len() > 0,
    ensures
        v.given(msgs[0]).readable(msgs.drop_first()) == v.readable(msgs),
{
    assert(v.given(msgs[0]).readable(msgs.drop_first()) =~= v.readable(msgs));
}

/// What a writer sends, cut into messages, arrives as it was sent.
pub proof fn written_bytes_arrive(buf: Seq<u8>, pieces: Seq<Seq<u8>>)
    requires
        pieces.flatten() == buf,
    ensures
        carried(pieces.map_values(|p: Seq<u8>| WsMessageView::Binary(p))) == buf,
    decreases pieces.len(),
{
    let msgs = pieces.map_values(|p: Seq<u8>| WsMessageView::Binary(p));
    if pieces.len() == 0 {
    } else {
        let rest = pieces.drop_first();
        assert(msgs.drop_first() =~= rest.map_values(|p: Seq<u8>| WsMessageView::Binary(p)));
        written_bytes_arrive(rest.flatten(), rest);
    }
}

/// A close ends the bytes, and what comes behind it does not count; messages
/// without data carry nothing.
pub proof fn close_ends_the_bytes(
    front: Seq<WsMessageView>,
    back: Seq<WsMessageView>,
    data: Seq<u8>,
)
    requires
        forall|i: int| 0 <= i < front.len() ==> !((#[trigger] front[i]) is Close),
    ensures
        carried(front + seq![WsMessageView::Close] + back) == carried(front),
        carried(front + seq![WsMessageView::Other] + back) == carried(front + back),
        carried(front + seq![WsMessageView::Binary(data)]) == carried(front) + data,
    decreases front.len(),
{
    let close = front + seq![WsMessageView::Close] + back;
    let other = front + seq![WsMessageView::Other] + back;
    let binary = front + seq![WsMessageView::Binary(data)];
    if front.len() > 0 {
        let rest = front.drop_first();
        assert(forall|i: int| 0 <= i < rest.len() ==> #[trigger] rest[i] == front[i + 1]);
        close_ends_the_bytes(rest, back, data);
        assert(close.drop_first() =~= rest + seq![WsMessageView::Close] + back);
        assert(other.drop_first() =~= rest + seq![WsMessageView::Other] + back);
        assert((front + back).drop_first() =~= rest + back);
        assert(binary.drop_first() =~= rest + seq![WsMessageView::Binary(data)]);
        assert(carried(binary) =~= carried(front) + data);
    } else {
        assert(other.drop_first() =~= front + back);
        assert(binary.drop_first() =~= front);
        assert(binary[0] == WsMessageView::Binary(data));
        assert(carried(binary) == data + carried(front));
        assert(data + carried(front) =~= carried(front) + data);
    }
}

/// A binary message is what is read next, a close is the end, and any other
/// message changes nothing.
pub proof fn messages_do_as_they_say(v: StreamView, data: Seq<u8>)
    ensures
        v.given(WsMessageView::Binary(data)).pending == data,
        v.given(WsMessageView::Binary(data)).closed == v.closed,
        v.given(WsMessageView::Close).closed,
        v.given(WsMessageView::Close).pending == v.pending,
        v.given(WsMessageView::Other) == v,
        MAX_WS_MESSAGE == 1_048_576,
{
}

} // verus!
