//! The daemon side.
pub mod commands;
pub mod config;
pub mod control;
pub mod creds;
pub mod doctor;
pub mod login;
pub mod paths;
pub mod proxy;
pub mod service;
pub mod status;
pub mod supervisor;
pub mod tls;
