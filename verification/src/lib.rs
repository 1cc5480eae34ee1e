//! A lightweight message-integration engine: channels couple a source, an
//! ordered processor chain and a set of destinations.  This crate holds the
//! channel runtime's logic — the MLLP wire framer, processors, destination
//! and listener decision logic, deduplication, the channel registry and the
//! per-message pipeline — each function with a verified contract.

pub mod ack;
pub mod bytesutil;
pub mod clock;
pub mod db_dest;
pub mod dedup;
pub mod error;
pub mod file_dest;
pub mod hl7;
pub mod http_dest;
pub mod ids;
pub mod json;
pub mod listeners;
pub mod logs;
pub mod manager;
pub mod mapper;
pub mod message;
pub mod mllp;
pub mod models;
pub mod pipeline;
pub mod registry;
pub mod script;
pub mod status;
pub mod tcp_dest;
pub mod validate;
