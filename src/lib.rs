//! A small RESP2 key-value server core: the wire codec, the snapshot reader,
//! the single-owner store and configuration, and the per-connection and
//! replication protocol decisions.
pub mod text;
pub mod types;
pub mod io;
pub mod assoc;
pub mod store;
pub mod replica;
pub mod config;
pub mod info;
pub mod common_cli_rep;
pub mod client;
pub mod rdb;
pub mod cli;
pub mod server;
