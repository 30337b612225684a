//! Verified core of an event-log aggregation pipeline.
//!
//! Compressed archives of newline-delimited JSON event records are turned
//! into per-entity aggregate counters. This library holds the verified
//! parts: splitting a byte stream into lines, classifying a line's event
//! kind by a cheap pattern scan, decoding the fields of recognized records,
//! and the aggregation store with its merge operation. The unverified
//! binary around it does the file I/O, the decompression and the thread
//! scheduling, and hands this library plain bytes.

use vstd::prelude::*;

pub mod classify;
pub mod decode;
pub mod laws;
pub mod lines;
pub mod pipeline;
pub mod record;
pub mod scan;
pub mod score;
pub mod store;

pub use classify::EventKind;
pub use classify::classify;
pub use decode::decode;
pub use lines::LineSplitter;
pub use pipeline::process_line;
pub use pipeline::process_lines;
pub use record::DecodedRecord;
pub use record::RecordView;
pub use score::EntityScore;
pub use score::ScoreView;
pub use store::AggregationStore;

verus! {

/// Saturating addition of two counters, as a mathematical function.
pub open spec fn sat_add(a: u64, b: u64) -> u64 {
    if a + b > u64::MAX {
        u64::MAX
    } else {
        (a + b) as u64
    }
}

} // verus!
