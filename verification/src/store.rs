//! The minimal storage-engine contract.
//!
//! A backing engine is modelled as a finite map from key bytes to value
//! bytes. [`ByteStore`] holds the four unconditional primitives; the
//! [`Atomic`] extension adds single-key atomic read-modify-write, and the
//! [`Ordered`] extension adds the "smallest stored key strictly greater
//! than a given key" primitive that ordered iteration is built on.
//! Any engine meeting these contracts is pluggable as a backend.

use vstd::prelude::*;

use crate::error::CasMismatch;
use crate::order::{lex_le, lex_lt};

verus! {

/// The bytes of an optional value, as sequences.
pub open spec fn opt_view(o: Option<Vec<u8>>) -> Option<Seq<u8>> {
    match o {
        Option::None => None,
        Option::Some(b) => Some(b@),
    }
}

/// What a store holds at `k`: the value bytes, or `None` for an absent key.
pub open spec fn stored_at(m: Map<Seq<u8>, Seq<u8>>, k: Seq<u8>) -> Option<Seq<u8>> {
    if m.contains_key(k) {
        Some(m[k])
    } else {
        None
    }
}

/// The store after committing an optional value at `k`: `None` deletes the
/// key, `Some(b)` stores `b`.
pub open spec fn commit_at(m: Map<Seq<u8>, Seq<u8>>, k: Seq<u8>, v: Option<Seq<u8>>) -> Map<
    Seq<u8>,
    Seq<u8>,
> {
    match v {
        Option::None => m.remove(k),
        Option::Some(b) => m.insert(k, b),
    }
}

/// Minimal byte-keyed storage primitives. Each call is atomic on its own;
/// nothing is promised across calls, and there are no cross-key
/// transactions.
pub trait ByteStore: Sized {
    /// The engine's own failure type, reported unmodified.
    type Error;

    /// The current contents: a map from key bytes to value bytes.
    spec fn model(&self) -> Map<Seq<u8>, Seq<u8>>;

    /// The engine's internal well-formedness; constructors establish it
    /// and every operation preserves it.
    spec fn inv(&self) -> bool;

    /// Read the current bytes at `key`.
    fn get(&self, key: &[u8]) -> (r: Result<Option<Vec<u8>>, Self::Error>)
        requires
            self.inv(),
        ensures
            r matches Ok(cur) ==> opt_view(cur) == stored_at(self.model(), key@),
    ;

    /// Delete `key`, returning the prior bytes if the key was present.
    fn remove(&mut self, key: &[u8]) -> (r: Result<Option<Vec<u8>>, Self::Error>)
        requires
            old(self).inv(),
        ensures
            final(self).inv(),
            r matches Ok(prior) ==> opt_view(prior) == stored_at(old(self).model(), key@)
                && final(self).model() == old(self).model().remove(key@),
    ;

    /// Unconditional upsert, returning the prior bytes if the key was
    /// present.
    fn insert(&mut self, key: &[u8], val: &[u8]) -> (r: Result<Option<Vec<u8>>, Self::Error>)
        requires
            old(self).inv(),
        ensures
            final(self).inv(),
            r matches Ok(prior) ==> opt_view(prior) == stored_at(old(self).model(), key@)
                && final(self).model() == old(self).model().insert(key@, val@),
    ;

    /// Replace the bytes at `key` with `new` only if they currently equal
    /// `expected`; an absent key never matches. On a mismatch the store is
    /// left unchanged and the actual current bytes are reported.
    fn conditional_update(&mut self, key: &[u8], new: &[u8], expected: &[u8]) -> (r: Result<
        Result<(), CasMismatch>,
        Self::Error,
    >)
        requires
            old(self).inv(),
        ensures
            final(self).inv(),
            r matches Ok(Ok(())) ==> stored_at(old(self).model(), key@) == Some(expected@)
                && final(self).model() == old(self).model().insert(key@, new@),
            r matches Ok(Err(m)) ==> stored_at(old(self).model(), key@) != Some(expected@)
                && final(self).model() == old(self).model() && opt_view(m.current) == stored_at(
                old(self).model(),
                key@,
            ),
    ;
}

/// Single-key atomic read-modify-write. All no-lost-update guarantees of
/// the typed `update` accessor derive from this primitive.
pub trait Atomic: ByteStore {
    /// Apply `op` to one consistent snapshot of the bytes at `key` (or
    /// their absence) and commit its result atomically with respect to all
    /// other atomic and conditional operations on that key: `None` deletes
    /// the key, `Some(b)` stores `b`. Returns the snapshot `op` was applied
    /// to, so that the caller can reconstruct what `op` decided.
    fn atomic_update<F: Fn(Option<Vec<u8>>) -> Option<Vec<u8>>>(&mut self, key: &[u8], op: F) -> (r:
        Result<Option<Vec<u8>>, Self::Error>)
        requires
            old(self).inv(),
            forall|x: Option<Vec<u8>>| #[trigger] call_requires(op, (x,)),
        ensures
            final(self).inv(),
            r matches Ok(prior) ==> opt_view(prior) == stored_at(old(self).model(), key@) && exists|
                inp: Option<Vec<u8>>,
                out: Option<Vec<u8>>,
            |
                opt_view(inp) == stored_at(old(self).model(), key@) && #[trigger] call_ensures(
                    op,
                    (inp,),
                    out,
                ) && final(self).model() == commit_at(old(self).model(), key@, opt_view(out)),
    ;
}

/// The ordered-scan extension: the only primitive ordered iteration may
/// use.
pub trait Ordered: ByteStore {
    /// The lexicographically smallest stored key strictly greater than
    /// `key`, with its bytes, or `None` if no stored key is greater.
    fn get_gt(&self, key: &[u8]) -> (r: Result<Option<(Vec<u8>, Vec<u8>)>, Self::Error>)
        requires
            self.inv(),
        ensures
            r matches Ok(Some(kv)) ==> self.model().contains_key(kv.0@)
                && kv.1@ == self.model()[kv.0@]
                && lex_lt(key@, kv.0@) && forall|k2: Seq<u8>|
                #[trigger] self.model().contains_key(k2) && lex_lt(key@, k2) ==> lex_le(kv.0@, k2),
            r matches Ok(None) ==> forall|k2: Seq<u8>| #[trigger]
                self.model().contains_key(k2) ==> !lex_lt(key@, k2),
    ;
}

} // verus!
