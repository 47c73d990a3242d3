//! Verified core of a cell's durable storage: object-store buckets, the local
//! development store, the SQLite-backed cell storage and LTX replication.

pub mod bucket;
pub mod local_attributes;
pub mod local_listing;
pub mod local_pages;
pub mod local_store;
pub mod ltx;
pub mod numbers;
pub mod storage;
pub mod text;
pub mod text_map;
