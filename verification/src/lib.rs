//! Verified core of a packet-capture spool service: indexing rotated capture
//! files, translating fetch requests into normalized queries, the packet
//! export algorithm, the streaming-export orchestration, and the retention
//! policy that bounds spool disk usage.

pub mod auth;
pub mod config;
pub mod engine;
pub mod query;
pub mod retain;
pub mod spool;
pub mod strutil;
pub mod worker;
