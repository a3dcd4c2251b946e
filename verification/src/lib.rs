//! EtherTunnel: self-hosted reverse tunnels.
//!
//! `proto` is the contract between the two halves, `relay` the server side and
//! `client` the daemon side. Everything here is pure: sockets, files and the
//! clock are handed in by the program around it.
use vstd::prelude::*;

pub mod client;
pub mod order;
pub mod proto;
pub mod relay;
pub mod table;
pub mod text;

verus! {

/// Highest wire-protocol version this build speaks.
///
/// The bootstrap frame set is frozen forever; within a version, enum variants
/// are append-only. Anything else bumps this number and is negotiated in the
/// `Hello`/`Welcome` exchange.
pub const PROTOCOL_VERSION: u16 = 2;

/// Magic bytes that prefix the control stream: ASCII `ETUN`.
pub const CONTROL_MAGIC: [u8; 4] = [69, 84, 85, 78];

} // verus!
