//! Core of a local proxy that answers plain datagram DNS queries through a
//! DNS-over-HTTPS resolver: message codec, response cache, response checking
//! and the per-datagram cycle.

pub mod cache;
pub mod codec;
pub mod forward;
pub mod laws;
pub mod proxy;
