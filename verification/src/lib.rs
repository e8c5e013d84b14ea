//! Connection management and message framing for a multi-client block-world
//! server: a length-prefixed frame codec, a generation-checked connection
//! registry, the per-connection lifecycle, and the world's coordinate model.

pub mod common;
pub mod net;
pub mod net_server;
pub mod server;
