//! Raw-TCP tunnel ports: which are bound, and who serves a connection.
//!
//! A port is bound before it is granted and stays bound for the relay's
//! lifetime. Connections go to whichever session owns the port at the time, so
//! a takeover just repoints the owner.
use vstd::prelude::*;

use crate::proto::frames::{PeerIp, StreamHeader};
use crate::relay::router::{Router, SessionHandle};

verus! {

/// The ports of a relay that are bound, within the range that may be.
pub struct TcpPortManager {
    port_range: [u16; 2],
    bound: Vec<u16>,
}

impl TcpPortManager {
    /// Lowest and highest port that may be reserved.
    pub closed spec fn range(&self) -> (u16, u16) {
        (self.port_range@[0], self.port_range@[1])
    }

    /// The bound ports.
    pub closed spec fn ports(&self) -> Set<u16> {
        Set::new(|p: u16| self.bound@.contains(p))
    }

    pub fn new(port_range: [u16; 2]) -> (r: Self)
        ensures
            r.range() == (port_range@[0], port_range@[1]),
            r.ports() == Set::<u16>::empty(),
    {
        let r = TcpPortManager { port_range, bound: Vec::new() };
        assert(r.ports() =~= Set::<u16>::empty());
        r
    }

    /// Whether `port` may be reserved.
    pub fn in_range(&self, port: u16) -> (r: bool)
        ensures
            r == (self.range().0 <= port <= self.range().1),
    {
        port >= self.port_range[0] && port <= self.port_range[1]
    }

    /// Whether `port` is bound already, so that binding it again is not needed.
    pub fn is_bound(&self, port: u16) -> (r: bool)
        ensures
            r == self.ports().contains(port),
    {
        let mut i: usize = 0;
        while i < self.bound.len()
            invariant
                i <= self.bound@.len(),
                forall|j: int| 0 <= j < i ==> self.bound@[j] != port,
            decreases self.bound@.len() - i,
        {
            if self.bound[i] == port {
                assert(self.bound@.contains(port));
                return true;
            }
            i += 1;
        }
        false
    }

    /// `port` was bound.
    pub fn on_bound(&mut self, port: u16)
        ensures
            final(self).ports() == old(self).ports().insert(port),
            final(self).range() == old(self).range(),
    {
        let ghost before = self.bound@;
        self.bound.push(port);
        proof {
            assert forall|p: u16| #[trigger]
                self.ports().contains(p) == old(self).ports().insert(port).contains(p) by {
                if before.contains(p) {
                    let i = choose|i: int| 0 <= i < before.len() && before[i] == p;
                    assert(self.bound@[i] == p);
                }
                if p == port {
                    assert(self.bound@[before.len() as int] == p);
                }
            }
            assert(self.ports() =~= old(self).ports().insert(port));
        }
    }
}

/// Who serves a connection to `port`, and the preamble its stream begins with;
/// `None` drops the connection, as nobody owns the port.
pub fn serve_conn(router: &Router, port: u16, peer_ip: PeerIp, peer_port: u16) -> (r: Option<
    (SessionHandle, StreamHeader),
>)
    requires
        router.wf(),
    ensures
        match r {
            Some((h, header)) => router@.tcp.dom().contains(port) && h == router@.tcp[port]
                && header == (StreamHeader::Tcp { port, peer_ip, peer_port }),
            None => !router@.tcp.dom().contains(port),
        },
{
    match router.lookup_tcp(port) {
        Some(h) => Some((h, StreamHeader::Tcp { port, peer_ip, peer_port })),
        None => None,
    }
}

} // verus!
