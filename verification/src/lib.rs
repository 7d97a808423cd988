//! A small forward HTTP proxy core: a byte-level request parser, a bounded
//! connection limiter, target resolution, and the per-connection handler
//! state machine. Everything here is verified; the network runtime around
//! it lives outside the library and only performs the actions this core
//! decides on.

pub mod bytes;
pub mod config;
pub mod handler;
pub mod http;
pub mod proxy;
