//! A safe, contract-checked boundary layer around an ad-blocking engine.
//!
//! The crate wraps the `adblock` crate's `Engine` behind an owned handle with
//! an explicit lifecycle, marshals request/response data for network-request
//! matching and cosmetic queries, converts string data to and from the
//! null-terminated byte buffers used by foreign callers, and serves a static
//! catalog of well-known filter lists.

pub mod catalog;
pub mod codec;
pub mod cosmetic;
pub mod engine;
pub mod laws;
pub mod text;
pub mod upstream;
