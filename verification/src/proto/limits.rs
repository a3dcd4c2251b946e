//! Shared protocol limits and tuning constants.
//!
//! Both halves read these, so they agree by construction. The memory-bounding
//! values are the load-bearing ones: they cap how much a slow peer can make us
//! buffer, whatever the stream count. Durations are whole seconds.
use vstd::prelude::*;

verus! {

/// Max control-frame payload, excluding the 4-byte length.
pub const MAX_CONTROL_FRAME: usize = 65_536;

/// Max data-stream preamble payload.
pub const MAX_STREAM_HEADER: usize = 4_096;

/// Receive window of one multiplexed stream.
pub const STREAM_RECEIVE_WINDOW: usize = 262_144;

/// Max concurrent streams of one session.
pub const MAX_STREAMS_PER_CONNECTION: usize = 128;

/// Receive window of a whole session: every stream may fill its own window.
pub const CONNECTION_RECEIVE_WINDOW: usize = 33_554_432;

/// Largest single WebSocket binary message sent.
pub const MAX_WS_MESSAGE: usize = 1_048_576;

/// Daemon heartbeat interval, in seconds.
pub const HEARTBEAT_INTERVAL: u64 = 25;

/// A session without a control frame for this many seconds is dead.
pub const SESSION_DEAD_AFTER: u64 = 90;

/// Seconds a daemon has to send `Hello` after opening the control stream.
pub const HELLO_TIMEOUT: u64 = 10;

/// Max number of resources (hostnames and ports together) of one claim.
pub const MAX_CLAIM_ENTRIES: usize = 256;

/// Default idle timeout of a visitor splice, in seconds.
pub const PROXY_IDLE_TIMEOUT: u64 = 60;

/// Hardened absolute ceiling on one visitor splice, in seconds.
pub const PROXY_ABSOLUTE_MAX: u64 = 3600;

/// Default cadence of bearer-token re-validation, in seconds.
pub const TOKEN_REVALIDATE_INTERVAL: u64 = 60;

/// TCP keepalive idle time on relay-side sockets, in seconds.
pub const TCP_KEEPALIVE_IDLE: u64 = 60;

/// Interval between TCP keepalive probes, in seconds.
pub const TCP_KEEPALIVE_INTERVAL: u64 = 15;

/// The session window is exactly what all its streams can fill, a daemon gets
/// three heartbeats in before the dead-man fires, and the dead-man outlasts a
/// token re-validation interval.
pub proof fn limits_fit_together()
    ensures
        CONNECTION_RECEIVE_WINDOW == STREAM_RECEIVE_WINDOW * MAX_STREAMS_PER_CONNECTION,
        3 * HEARTBEAT_INTERVAL < SESSION_DEAD_AFTER,
        TOKEN_REVALIDATE_INTERVAL < SESSION_DEAD_AFTER,
        MAX_STREAM_HEADER <= MAX_CONTROL_FRAME <= MAX_WS_MESSAGE,
{
}

} // verus!
