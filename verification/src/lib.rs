//! The transport and message layer of a language server: packets framed by
//! a `Content-Length` header on a stream of bytes, JSON-RPC messages in
//! them, and an endpoint that hands out each message and sends each request
//! its one reply.
//!
//! - [`text`] and [`header`]: the grammar of one header line.
//! - [`frame`]: the wire format, as what each line and body read means.
//! - [`transport`]: reading and writing packets; the [`transport::Transport`]
//!   trait and its implementation over bytes in memory.
//! - [`json`]: JSON documents.
//! - [`message`] and [`reply`]: the JSON-RPC envelope, read and written.
//! - [`rpc`]: the endpoint.
//! - [`laws`]: what holds of all of these, proved.
pub mod error;
pub mod frame;
pub mod header;
pub mod json;
pub mod laws;
pub mod message;
pub mod reply;
pub mod rpc;
pub mod text;
pub mod transport;
