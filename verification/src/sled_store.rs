//! The `sled` backing engine.
//!
//! [`Sled`] adapts one `sled::Tree` to the backend contract. The tree is
//! an embedded, ordered, byte-keyed store, so every primitive maps to one
//! tree call; each call stands behind a trusted wrapper whose contract
//! states, over the named contents of the tree, what `sled`'s source and
//! documentation show of that call.

use vstd::prelude::*;

use crate::error::CasMismatch;
use crate::order::{lex_le, lex_lt};
use crate::store::{commit_at, opt_view, stored_at, Atomic, ByteStore, Ordered};

verus! {

#[verifier::external_type_specification]
#[verifier::external_body]
pub struct ExTree(sled::Tree);

/// A failure reported by the `sled` engine, carried opaquely.
#[derive(Debug)]
#[verifier::external_body]
pub struct SledFailure {
    err: sled::Error,
}

/// The contents of a `sled::Tree`: the map from key bytes to value bytes
/// it currently holds.
pub uninterp spec fn tree_entries(t: sled::Tree) -> Map<Seq<u8>, Seq<u8>>;

/// Relies on `sled::Tree::get`: the value bytes currently stored at the
/// key, or `None` if the key is absent.
#[verifier::external_body]
fn tree_get(t: &sled::Tree, key: &[u8]) -> (r: Result<Option<Vec<u8>>, SledFailure>)
    ensures
        r matches Ok(cur) ==> opt_view(cur) == stored_at(tree_entries(*t), key@),
{
    match t.get(key) {
        Ok(cur) => Ok(cur.map(|iv| iv.to_vec())),
        Err(e) => Err(SledFailure { err: e }),
    }
}

/// Relies on `sled::Tree::remove`: deletes the key, returning the prior
/// value bytes if the key was present.
#[verifier::external_body]
fn tree_remove(t: &mut sled::Tree, key: &[u8]) -> (r: Result<Option<Vec<u8>>, SledFailure>)
    ensures
        r matches Ok(prior) ==> opt_view(prior) == stored_at(tree_entries(*old(t)), key@)
            && tree_entries(*final(t)) == tree_entries(*old(t)).remove(key@),
{
    match t.remove(key) {
        Ok(prior) => Ok(prior.map(|iv| iv.to_vec())),
        Err(e) => Err(SledFailure { err: e }),
    }
}

/// Relies on `sled::Tree::insert`: unconditional upsert, returning the
/// prior value bytes if the key was present.
#[verifier::external_body]
fn tree_insert(t: &mut sled::Tree, key: &[u8], val: &[u8]) -> (r: Result<
    Option<Vec<u8>>,
    SledFailure,
>)
    ensures
        r matches Ok(prior) ==> opt_view(prior) == stored_at(tree_entries(*old(t)), key@)
            && tree_entries(*final(t)) == tree_entries(*old(t)).insert(key@, val@),
{
    match t.insert(key, val) {
        Ok(prior) => Ok(prior.map(|iv| iv.to_vec())),
        Err(e) => Err(SledFailure { err: e }),
    }
}

/// Relies on `sled::Tree::compare_and_swap` with `Some` for both the
/// expected and the new value: commits only if the current bytes equal
/// the expected bytes, atomically per key, and reports the actual current
/// bytes on a mismatch, leaving the tree unchanged.
#[verifier::external_body]
fn tree_compare_and_swap(t: &mut sled::Tree, key: &[u8], new: &[u8], expected: &[u8]) -> (r: Result<
    Result<(), CasMismatch>,
    SledFailure,
>)
    ensures
        r matches Ok(Ok(())) ==> stored_at(tree_entries(*old(t)), key@) == Some(expected@)
            && tree_entries(*final(t)) == tree_entries(*old(t)).insert(key@, new@),
        r matches Ok(Err(m)) ==> stored_at(tree_entries(*old(t)), key@) != Some(expected@)
            && tree_entries(*final(t)) == tree_entries(*old(t)) && opt_view(m.current) == stored_at(
            tree_entries(*old(t)),
            key@,
        ),
{
    match t.compare_and_swap(key, Some(expected), Some(new)) {
        Ok(Ok(())) => Ok(Ok(())),
        Ok(Err(c)) => Ok(Err(CasMismatch { current: c.current.map(|iv| iv.to_vec()) })),
        Err(e) => Err(SledFailure { err: e }),
    }
}

/// Relies on `sled::Tree::fetch_and_update`: applies the closure to the
/// current value and commits its result with a per-key compare-and-swap,
/// retrying from the fresh value on interference, so the committed result
/// is the closure's answer to the snapshot that is returned.
#[verifier::external_body]
fn tree_fetch_and_update<F: Fn(Option<Vec<u8>>) -> Option<Vec<u8>>>(
    t: &mut sled::Tree,
    key: &[u8],
    op: F,
) -> (r: Result<Option<Vec<u8>>, SledFailure>)
    requires
        forall|x: Option<Vec<u8>>| #[trigger] call_requires(op, (x,)),
    ensures
        r matches Ok(prior) ==> opt_view(prior) == stored_at(tree_entries(*old(t)), key@) && exists|
            inp: Option<Vec<u8>>,
            out: Option<Vec<u8>>,
        |
            opt_view(inp) == stored_at(tree_entries(*old(t)), key@) && #[trigger] call_ensures(
                op,
                (inp,),
                out,
            ) && tree_entries(*final(t)) == commit_at(tree_entries(*old(t)), key@, opt_view(out)),
{
    match t.fetch_and_update(key, |cur: Option<&[u8]>| op(cur.map(|s| s.to_vec()))) {
        Ok(prior) => Ok(prior.map(|iv| iv.to_vec())),
        Err(e) => Err(SledFailure { err: e }),
    }
}

/// Relies on `sled::Tree::get_gt`: the next key and value strictly after
/// the provided key, in byte order, or `None` at the end of the tree.
#[verifier::external_body]
fn tree_get_gt(t: &sled::Tree, key: &[u8]) -> (r: Result<Option<(Vec<u8>, Vec<u8>)>, SledFailure>)
    ensures
        r matches Ok(Some(kv)) ==> tree_entries(*t).contains_key(kv.0@)
            && kv.1@ == tree_entries(*t)[kv.0@]
            && lex_lt(key@, kv.0@) && forall|k2: Seq<u8>|
                #[trigger] tree_entries(*t).contains_key(k2) && lex_lt(key@, k2) ==> lex_le(kv.0@, k2),
        r matches Ok(None) ==> forall|k2: Seq<u8>| #[trigger]
            tree_entries(*t).contains_key(k2) ==> !lex_lt(key@, k2),
{
    match t.get_gt(key) {
        Ok(Some((k, v))) => Ok(Some((k.to_vec(), v.to_vec()))),
        Ok(None) => Ok(None),
        Err(e) => Err(SledFailure { err: e }),
    }
}

/// A backing engine over one open `sled::Tree`.
///
/// The tree must be used through this handle alone while the store is
/// alive: the contracts describe the contents as owned by the handle, so
/// a second handle (or a clone of the tree) mutating the same tree is
/// outside what they promise — matching the engine's own per-key
/// guarantees, which say nothing across handles either.
pub struct Sled {
    tree: sled::Tree,
}

impl Sled {
    /// Wrap an open tree.
    pub fn new(tree: sled::Tree) -> (r: Sled)
        ensures
            r.inv(),
            r.model() == tree_entries(tree),
    {
        Sled { tree }
    }
}

impl ByteStore for Sled {
    type Error = SledFailure;

    closed spec fn model(&self) -> Map<Seq<u8>, Seq<u8>> {
        tree_entries(self.tree)
    }

    closed spec fn inv(&self) -> bool {
        true
    }

    fn get(&self, key: &[u8]) -> Result<Option<Vec<u8>>, SledFailure> {
        tree_get(&self.tree, key)
    }

    fn remove(&mut self, key: &[u8]) -> Result<Option<Vec<u8>>, SledFailure> {
        tree_remove(&mut self.tree, key)
    }

    fn insert(&mut self, key: &[u8], val: &[u8]) -> Result<Option<Vec<u8>>, SledFailure> {
        tree_insert(&mut self.tree, key, val)
    }

    fn conditional_update(&mut self, key: &[u8], new: &[u8], expected: &[u8]) -> Result<
        Result<(), CasMismatch>,
        SledFailure,
    > {
        tree_compare_and_swap(&mut self.tree, key, new, expected)
    }
}

impl Atomic for Sled {
    fn atomic_update<F: Fn(Option<Vec<u8>>) -> Option<Vec<u8>>>(&mut self, key: &[u8], op: F) -> Result<
        Option<Vec<u8>>,
        SledFailure,
    > {
        tree_fetch_and_update(&mut self.tree, key, op)
    }
}

impl Ordered for Sled {
    fn get_gt(&self, key: &[u8]) -> Result<Option<(Vec<u8>, Vec<u8>)>, SledFailure> {
        tree_get_gt(&self.tree, key)
    }
}

} // verus!
