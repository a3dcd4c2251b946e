//! The relay: routing, ownership, sessions and the rules around them.
pub mod acme;
pub mod admin;
pub mod admin_http;
pub mod auth;
pub mod cap;
pub mod clock;
pub mod config;
pub mod control;
pub mod crypto;
pub mod custody;
pub mod dns_cloudflare;
pub mod doctor;
pub mod entitlement;
pub mod json;
pub mod keygate;
pub mod label;
pub mod ledger;
pub mod listener;
pub mod ownership;
pub mod plan;
pub mod polar;
pub mod proxy;
pub mod ratelimit;
pub mod registry;
pub mod router;
pub mod rows;
pub mod session;
pub mod tcp;
pub mod timestamp;
pub mod tls;
