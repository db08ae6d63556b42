//! Verified core of a single-level directory lister.
//!
//! The library turns raw per-entry metadata (permission bits, kind, size,
//! modification time) into normalized records, and renders a sequence of
//! records either as a machine-readable structured document or as rows for
//! a bordered table.

pub mod collect;
pub mod digits;
pub mod entry;
pub mod json;
pub mod parse;
pub mod perms;
pub mod report;
pub mod table;
mod text;
