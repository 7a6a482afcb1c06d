//! Request-serving core of a small Markdown web server: path safety,
//! HTTP framing, byte ranges, connection and pool bookkeeping, and the
//! page cache, each with a contract that Verus proves.

pub mod cache;
pub mod config;
pub mod connection;
pub mod page;
pub mod paths;
pub mod pool;
pub mod range;
pub mod request;
pub mod response;
pub mod routing;
pub mod text;
pub mod theme;
