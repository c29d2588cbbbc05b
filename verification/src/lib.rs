//! Verified core of a local development static-file server.
//!
//! The library holds the decision logic of the server: parsing mount
//! specifications, resolving request paths against a route table,
//! planning which file to serve (with traversal protection and SPA
//! fallback), the response header policy, the debouncing of filesystem
//! change events, and the registry of live-reload sessions.  All I/O —
//! sockets, the filesystem, the OS watch primitive — lives outside, in
//! an unverified shell that feeds this library plain values.

pub mod bytes;
pub mod config;
pub mod headers;
pub mod mime;
pub mod mount;
pub mod reload;
pub mod respond;
pub mod routes;
pub mod watch;
