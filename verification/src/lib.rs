//! Routing core of a path-prefix reverse proxy.
//!
//! A [`table::RoutingTable`] maps literal path prefixes to upstream base
//! URLs. For each request the dispatcher picks the longest matching prefix,
//! rewrites the request's address, and says what must happen next: forward
//! to the upstream, or answer locally. Network I/O is left to the caller.

pub mod dispatch;
pub mod matcher;
pub mod request;
pub mod response;
pub mod table;
pub mod text;
pub mod uri;
