//! Core of a minimal HTTP/1.1 server: a case-insensitive header map, a wire
//! codec that parses requests from raw bytes and serializes responses, a
//! pattern-based router, an ordered middleware chain with CORS support, and a
//! per-connection engine that drives the read/parse/dispatch cycle.
//!
//! All protocol logic lives here and carries verified contracts; socket I/O
//! and the async runtime live outside the library and call into it with plain
//! values.

pub mod connection;
pub mod context;
pub mod cors;
pub mod headers;
pub mod http;
pub mod middleware;
pub mod pattern;
pub mod request;
pub mod response;
pub mod router;
pub mod text;

pub use headers::Headers;
pub use http::Method;
pub use http::StatusCode;
pub use request::Request;
pub use response::Response;
pub use router::Router;
