//! Deterministic integrity checksum over an ordered key range of a table.
//!
//! A table snapshot is a sequence of raw-byte records. The library resolves an
//! optional pair of boundary keys into an inclusive key range, walks the
//! records in order, folds each visited record's key and value bytes into a
//! seeded hash state, and reports the final checksum together with the record
//! count and the first and last keys visited.

pub mod order;
pub mod range;
pub mod accum;
pub mod clock;
pub mod walk;
