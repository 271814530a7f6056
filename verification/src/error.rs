//! Unified error taxonomy.
//!
//! Encode and decode failures and backend failures are reported through
//! one type; a compare-and-swap mismatch is the sole expected, non-fatal
//! outcome and travels as a successful call carrying a negative result.

use vstd::prelude::*;

verus! {

/// An accessor-level failure. `E` is the backing engine's own error type,
/// wrapped unmodified.
#[derive(Debug, PartialEq, Eq)]
pub enum Error<E> {
    /// Encoding a value to bytes failed.
    Serializing,
    /// Decoding the key bytes of a map entry failed.
    DeSerializingKey,
    /// Decoding stored value bytes failed.
    DeSerializingVal,
    /// The backing engine failed; its error is carried unmodified.
    Database(E),
}

/// The negative outcome of a typed compare-and-swap: the stored value did
/// not match the expected one. Carries the decoded actual current value as
/// an optimistic-concurrency signal; it is not a hard error.
#[derive(Debug, PartialEq, Eq)]
pub struct CompareAndSwapError<V> {
    /// The value actually stored at the key when the swap was attempted
    /// (the type's default if the key was absent).
    pub current: V,
}

/// The negative outcome of a byte-level conditional update: the stored
/// bytes did not equal the expected bytes.
#[derive(Debug, PartialEq, Eq)]
pub struct CasMismatch {
    /// The bytes actually stored at the key, or `None` if the key was absent.
    pub current: Option<Vec<u8>>,
}

} // verus!
