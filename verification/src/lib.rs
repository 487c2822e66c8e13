//! Inspection of ZIP archives and a bounded, deduplicating list of
//! recently opened archive paths.
//!
//! The crate has two independent halves. `inspect` opens an archive held
//! in memory, enumerates its entries, optionally validates a password
//! against the first entry, and reports formatted size totals. `store`
//! keeps a most-recently-used-first queue of file paths, bounded and
//! deduplicated, together with the exact text that mirrors it to a
//! backing file.

pub mod inspect;
pub mod store;
pub mod text;
pub mod zip_ext;
