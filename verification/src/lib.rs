//! A verified core for an instrumenting reverse proxy: rewrite policies for
//! proxied response bodies, a deduplicating accumulator of observed module
//! loads, a mutable snapshot of the client-side loader configuration, and a
//! generator that merges all of these into a bundling build configuration.
//!
//! Transport (sockets, TLS, HTTP framing) is deliberately outside this crate;
//! every function here works on plain values handed in by the host program.

pub mod json;
pub mod text;
pub mod rewrites;
pub mod usage;
pub mod client_config;
pub mod bundle;
pub mod wire;
pub mod proxy;
pub mod handlers;
pub mod preset;
pub mod shared;
