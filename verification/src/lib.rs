//! Typed field accessors over a byte-keyed, ordered storage engine.
//!
//! A backing engine is anything that satisfies the [`store::ByteStore`]
//! contract (plus the atomic and ordered extensions). On top of it the
//! crate offers per-field typed access — read, overwrite, atomic
//! read-modify-write, optimistic compare-and-swap — and ordered,
//! prefix-scoped iteration over map-typed fields.

pub mod codec;
pub mod error;
pub mod field;
pub mod laws;
pub mod map;
pub mod mem;
pub mod order;
pub mod sled_store;
pub mod store;
