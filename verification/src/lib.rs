//! Core of a small HTTP/1.1 task server: request parsing, path-constraint
//! matching, routing, handlers, and the FIFO connection queue, all verified.
//! Socket and disk I/O live outside this crate and hand plain values in.

pub mod channel;
pub mod dict;
pub mod laws;
pub mod matcher;
pub mod persistence;
pub mod request;
pub mod response;
pub mod router;
pub mod trusted;
pub mod strutil;
