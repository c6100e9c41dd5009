//! Reading-history extraction and year-end aggregation for a fan-fiction
//! archive: entry extraction, frequency tables, the tabular dataset, the
//! pagination state machine and the login handshake decisions.

pub mod text;
pub mod counts;
pub mod record;
pub mod extract;
pub mod aggregate;
pub mod laws;
pub mod controller;
pub mod session;
pub mod report;
