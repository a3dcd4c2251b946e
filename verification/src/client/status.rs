//! The snapshot the daemon publishes for `status`.
use vstd::prelude::*;

use crate::client::supervisor::{ConnState, DaemonStatus};
use crate::proto::frames;

verus! {

/// What the daemon is doing, as it is written to the status file.
#[derive(Clone, Debug)]
pub struct StatusSnapshot {
    /// One of `connecting`, `connected`, `auth_failed`.
    pub state: String,
    pub relay: String,
    pub granted_hostnames: Vec<String>,
    pub granted_ports: Vec<u16>,
    pub reconnects: u32,
    /// Process that wrote the snapshot.
    pub pid: u32,
}

/// The word for a phase.
pub open spec fn state_word(s: ConnState) -> Seq<char> {
    match s {
        ConnState::Connecting => "connecting"@,
        ConnState::Connected => "connected"@,
        ConnState::AuthFailed => "auth_failed"@,
    }
}

impl StatusSnapshot {
    /// The snapshot of a daemon's state.
    pub fn from_daemon(relay: &str, s: &DaemonStatus, pid: u32) -> (r: Self)
        ensures
            r.state@ == state_word(s.state),
            r.relay@ == relay@,
            frames::names(r.granted_hostnames@) == frames::names(s.granted_hostnames@),
            r.granted_ports@ == s.granted_ports@,
            r.reconnects == s.reconnects,
            r.pid == pid,
    {
        let word = match s.state {
            ConnState::Connecting => "connecting",
            ConnState::Connected => "connected",
            ConnState::AuthFailed => "auth_failed",
        };
        StatusSnapshot {
            state: word.to_owned(),
            relay: relay.to_owned(),
            granted_hostnames: frames::dup_names(&s.granted_hostnames),
            granted_ports: frames::dup_ports(&s.granted_ports),
            reconnects: s.reconnects,
            pid,
        }
    }
}

/// The three states of a connection are told apart.
pub proof fn states_are_told_apart(a: ConnState, b: ConnState)
    ensures
        state_word(a) == state_word(b) <==> a == b,
        state_word(ConnState::Connected) == "connected"@,
        state_word(ConnState::Connecting) == "connecting"@,
{
    reveal_strlit("connecting");
    reveal_strlit("connected");
    reveal_strlit("auth_failed");
    assert("connecting"@.len() == 10);
    assert("connected"@.len() == 9);
    assert("auth_failed"@.len() == 11);
}

} // verus!
