//! Ingestion core for fixed-width call-detail-record (CDR) files.
//!
//! The library holds the verified logic of a directory-ingestion pipeline:
//! classifying filesystem change notifications, decoding fixed-width CDR
//! lines, and counting the records of a file. The surrounding process
//! (directory watching, file reading, logging) lives outside the library
//! and hands it plain values.

pub mod cdr;
pub mod events;
pub mod process;
