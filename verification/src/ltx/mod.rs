//! LTX replication: capturing a SQLite WAL into LTX files, and restoring a
//! database from them.

pub mod capture;
pub mod checkpoint;
pub mod client;
pub mod db;
pub mod host;
pub mod image;
pub mod pages;
pub mod plan;
pub mod reader;
pub mod replica;
pub mod snapshot;
pub mod upload;
pub mod verify;
pub mod wal;
pub mod window;
