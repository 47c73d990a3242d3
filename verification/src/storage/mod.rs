//! The storage of a resident cell: its SQL surface, its key-value surface, its
//! alarm and its transactions. SQLite itself runs outside; what it answered
//! comes in as plain values.

pub mod alarms;
pub mod authorizer;
pub mod cells;
pub mod d1;
pub mod d1_request;
pub mod d1_result;
pub mod d1_run;
pub mod facets;
pub mod ids;
pub mod ingest;
pub mod journal;
pub mod kv;
pub mod kv_table;
pub mod lifecycle;
pub mod positions;
pub mod sql_cursor;
pub mod sql_exec;
pub mod sql_source;
pub mod statement_cache;
pub mod sync_list;
pub mod transaction;
pub mod values;
