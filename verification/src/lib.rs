//! A minimal in-memory key-value server core speaking the RESP wire protocol.
//!
//! The crate holds the protocol codec, the snapshot-file decoder, the
//! key-value store, the command dispatcher and the replication control
//! logic, all as functions over plain bytes and strings.  Sockets, files,
//! clocks and threads stay outside: callers read the bytes, pass them in,
//! and write the bytes that come back.

pub mod error;
pub mod text;
pub mod protocol;
pub mod write;
pub mod parser;
pub mod roundtrip;
pub mod storage;
pub mod info;
pub mod replication;
pub mod cmds;
pub mod rdb;
pub mod laws;
pub mod rdb_roundtrip;

use vstd::prelude::*;

verus! {

/// The CR byte of the CRLF line terminator used throughout the protocol.
pub const CR: u8 = 13;

/// The LF byte of the CRLF line terminator used throughout the protocol.
pub const LF: u8 = 10;

/// The `+` prefix byte of a simple-string frame.
pub const PLUS: u8 = 43;

/// The `$` prefix byte of a bulk-string frame.
pub const DOLLAR: u8 = 36;

/// The `*` prefix byte of an array frame.
pub const STAR: u8 = 42;

} // verus!
