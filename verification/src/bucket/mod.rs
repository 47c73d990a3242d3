//! One object-store bucket: its conditional writes, listings and blobs.

pub mod azure;
pub mod backend;
pub mod blobs;
pub mod listing;
pub mod messages;
pub mod open;
pub mod pages;
pub mod probe;
pub mod reads;
