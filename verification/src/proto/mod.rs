//! The wire contract between relay and daemon.
pub mod codec;
pub mod debug;
pub mod frames;
pub mod limits;
pub mod transport;
pub mod wire;
