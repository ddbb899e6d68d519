//! Verified core of a Japanese reading-assistance lookup engine.
//!
//! The library ingests community dictionary archives, persists their shards
//! into per-dictionary key/value stores, classifies the resulting
//! dictionaries into a registry, and serves compound-aware term lookups
//! enriched with pitch-accent and frequency annotations.

use vstd::prelude::*;

pub mod banks;
pub mod convert;
pub mod errors;
pub mod index;
pub mod ingest;
pub mod json;
pub mod kanji_bank;
pub mod kanji_meta_bank;
pub mod kv;
pub mod lookup;
pub mod progress;
pub mod registry;
pub mod schema;
pub mod tag_bank;
pub mod term_bank;
pub mod term_meta_bank;
pub mod text;
pub mod tokens;
pub mod zip_store;

verus! {

/// The sum of two counters; callers keep it in range.
pub fn add(left: u64, right: u64) -> (r: u64)
    requires
        left + right <= u64::MAX,
    ensures
        r == left + right,
{
    left + right
}

} // verus!
