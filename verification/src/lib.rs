//! A ZMTP (ZeroMQ Transport Protocol) engine: byte-level frame codec,
//! connection greeting, NULL-mechanism handshake, and the socket-type
//! compatibility rules that gate connection establishment.
//!
//! The library is pure: every operation consumes and produces plain byte
//! buffers and typed values. An embedding caller owns the transport and
//! feeds bytes in and out.

pub mod bytes;
pub mod connection;
pub mod frame;
pub mod greeting;
pub mod handshake;
pub mod properties;
pub mod socket;
