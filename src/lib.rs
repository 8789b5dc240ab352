//! Read-only engine for the RAM2 binary memory-trace format.
//!
//! The library works on borrowed bytes (typically a read-only memory
//! mapping of a trace file): it validates the fixed header, resolves the
//! command dictionary, serves point and range access to the fixed-width
//! entries, searches entries by clock cycle, and repacks a range of
//! entries into a flat structure-of-arrays buffer for a renderer.
pub mod bytes;
pub mod binary32;
pub mod color;
pub mod config;
pub mod csv;
pub mod dictionary;
pub mod entry;
pub mod extract;
pub mod header;
pub mod loader;
pub mod text;
