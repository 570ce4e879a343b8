//! A small reverse-proxy core: backend selection strategies, in-flight
//! connection accounting, latency windows, strategy switching, and the
//! decisions of the demo backend service.

pub mod backend;
pub mod decision;
pub mod load_balancing;
pub mod metrics;
pub mod plain_http;
pub mod proxy;
pub mod text;
