//! Verified core of a minimal HTTP file server: bounded header acquisition,
//! request routing, response framing, configuration parsing and the
//! bookkeeping of a fixed-size worker pool.

pub mod ascii;
pub mod config;
pub mod connection;
pub mod header;
pub mod mime;
pub mod pool;
pub mod request;
pub mod response;
