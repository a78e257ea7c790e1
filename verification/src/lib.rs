//! A tamper-evident append-only log service.
//!
//! Registered servers append hash-chained entries one at a time and
//! periodically anchor a checkpoint ("batch") that attests, via a single
//! root hash, that a contiguous range of entries existed and has not been
//! altered.  Every operation is a synchronous, atomic state transition:
//! it either commits all of its field updates or fails before mutating
//! anything.

pub mod chain;
pub mod errors;
pub mod hashing;
pub mod laws;
pub mod state;
