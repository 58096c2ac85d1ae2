//! An in-memory key-value store speaking a line-oriented binary
//! request/response protocol, with primary/replica replication,
//! an ordered stream data type, and a snapshot loader.
//!
//! Every function in this crate is verified: the wire codec, the
//! keyspace and stream operations, the command handlers, and the
//! replication state machines. Socket and file I/O live outside,
//! in a thin unverified shell that hands this crate plain bytes.

pub mod codec;
pub mod commands;
pub mod database;
pub mod kv;
pub mod laws;
pub mod network;
pub mod parsing;
pub mod rdb_parser;
pub mod replication;
pub mod resp;
pub mod stream;
pub mod stream_commands;
