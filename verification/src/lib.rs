//! Asynchronous UDP RPCs: the verified core.
//!
//! An RPC rides on a UDP datagram behind a 24-bit protocol header made of
//! 8 bits of flags and a 16-bit big-endian request id:
//!
//! ```text
//!                     1                   2
//! 0 1 2 3 4 5 6 7 8 9 0 1 2 3 4 5 6 7 8 9 0 1 2 3 4
//! +-+-+-+-+-+-+-+-+-+-+-+-+-+-+-+-+-+-+-+-+-+-+-+-+
//! |     Flags     |           Request Id          |
//! +-+-+-+-+-+-+-+-+-+-+-+-+-+-+-+-+-+-+-+-+-+-+-+-+
//! ```
//!
//! A UDP datagram carries at most 65507 data bytes, so with the header an RPC
//! payload is at most 65504 bytes.
//!
//! This crate holds the wire format, the table of requests that await a
//! response, and the decisions the socket makes on each message; the
//! asynchronous socket plumbing drives it from outside.

pub mod message;
pub mod error;
pub mod addr;
pub mod awaiting;
pub mod rpc;
