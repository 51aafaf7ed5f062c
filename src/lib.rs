//! Streaming conversion of a post dump, one self-closed `row` element per
//! record, into comma-separated text: decimal coercion, a per-kind schema,
//! record decoding, row rendering and the driver's counters.

pub mod decimal;
pub mod schema;
pub mod decode;
pub mod emit;
pub mod pipeline;
