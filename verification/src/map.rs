//! Ordered, prefix-scoped map iteration.
//!
//! A map-typed field is the logical collection of all entries whose keys
//! share one namespace prefix byte; an entry's full key is the prefix
//! byte followed by the encoded logical key. Iteration is forward-only
//! and lazy: a cursor starts at the bare prefix byte (which sorts before
//! every key that continues past it), each step asks the engine for the
//! smallest stored key strictly greater than the cursor, stops before
//! yielding once the leading byte no longer matches — the scan primitive
//! itself has no prefix awareness — and yields entries in byte-
//! lexicographic key order. An undecodable entry yields one error item
//! and the cursor still advances past it, so iteration resumes with the
//! next entry.

use core::marker::PhantomData;
use vstd::prelude::*;
use vstd::slice::slice_subrange;

use crate::codec::Codec;
use crate::error::Error;
use crate::field::Field;
use crate::order::{
    lemma_lex_asymmetric, lemma_lex_byte_lt, lemma_lex_first_byte, lex_le, lex_lt,
};
use crate::store::Ordered;

verus! {

/// Whether key bytes `k` lie in the namespace of prefix byte `p`.
pub open spec fn has_prefix(p: u8, k: Seq<u8>) -> bool {
    k.len() > 0 && k[0] == p
}

/// The full key of a map entry: the namespace prefix byte followed by the
/// encoded logical key.
pub open spec fn entry_key<K: Codec>(p: u8, k: K) -> Seq<u8> {
    seq![p] + k.enc()
}

/// One iteration step from cursor `c` lands on stored key `kk`: `kk` is
/// stored in `m`, lies strictly beyond the cursor, is the smallest stored
/// key beyond it, and still belongs to the namespace of `p`.
pub open spec fn step_to(m: Map<Seq<u8>, Seq<u8>>, c: Seq<u8>, p: u8, kk: Seq<u8>) -> bool {
    &&& m.contains_key(kk)
    &&& lex_lt(c, kk)
    &&& has_prefix(p, kk)
    &&& forall|k2: Seq<u8>| #[trigger] m.contains_key(k2) && lex_lt(c, k2) ==> lex_le(kk, k2)
}

/// No stored key beyond cursor `c` still belongs to the namespace of `p`:
/// the scan is over.
pub open spec fn exhausted(m: Map<Seq<u8>, Seq<u8>>, c: Seq<u8>, p: u8) -> bool {
    forall|k2: Seq<u8>| #[trigger] m.contains_key(k2) && lex_lt(c, k2) ==> !has_prefix(p, k2)
}

/// A map-typed field: the ordered collection of all entries under one
/// namespace prefix byte.
pub struct DbMap<K, V> {
    prefix: u8,
    key_type: PhantomData<K>,
    value_type: PhantomData<V>,
}

/// Ordered, lazy iteration over the entries of one map, as typed
/// key-value pairs.
pub struct Iter<'a, K, V, DS> {
    prev_key_bytes: Vec<u8>,
    ds: &'a DS,
    key_type: PhantomData<K>,
    value_type: PhantomData<V>,
}

/// The value-only projection of [`Iter`]: same cursor, same order, same
/// error semantics.
pub struct Values<'a, K, V, DS>(Iter<'a, K, V, DS>);

/// The key-only projection of [`Iter`]: same cursor, same order, same
/// error semantics.
pub struct Keys<'a, K, V, DS>(Iter<'a, K, V, DS>);

impl<K: Codec, V: Codec> DbMap<K, V> {
    /// The map's namespace prefix byte.
    pub closed spec fn prefix_spec(&self) -> u8 {
        self.prefix
    }

    /// The map over the namespace of `prefix`.
    pub fn new(prefix: u8) -> (r: DbMap<K, V>)
        ensures
            r.prefix_spec() == prefix,
    {
        DbMap { prefix, key_type: PhantomData, value_type: PhantomData }
    }

    /// The typed field handle of one map entry; every field accessor
    /// (get, set, update, compare-and-swap, clear) is available on it.
    pub fn entry(&self, k: &K) -> (r: Field<V>)
        ensures
            r.key_spec() == entry_key::<K>(self.prefix_spec(), *k),
    {
        let mut key: Vec<u8> = Vec::new();
        key.push(self.prefix);
        let mut e = k.encode();
        key.append(&mut e);
        proof {
            assert(key@ =~= seq![self.prefix] + k.enc());
        }
        Field::new(key)
    }

    /// An iterator over the map's entries in byte-lexicographic order of
    /// their full encoded keys.
    pub fn iter<'a, DS: Ordered>(&self, store: &'a DS) -> (r: Iter<'a, K, V, DS>)
        requires
            store.inv(),
        ensures
            r.inv(),
            r.cursor() == seq![self.prefix_spec()],
            r.prefix_spec() == self.prefix_spec(),
            r.store_model() == store.model(),
    {
        let mut c: Vec<u8> = Vec::new();
        c.push(self.prefix);
        Iter { prev_key_bytes: c, ds: store, key_type: PhantomData, value_type: PhantomData }
    }

    /// An iterator over the map's values, in the same order as [`Self::iter`].
    pub fn values<'a, DS: Ordered>(&self, store: &'a DS) -> (r: Values<'a, K, V, DS>)
        requires
            store.inv(),
        ensures
            r.inv(),
            r.cursor() == seq![self.prefix_spec()],
            r.prefix_spec() == self.prefix_spec(),
            r.store_model() == store.model(),
    {
        Values(self.iter(store))
    }

    /// An iterator over the map's logical keys, in the same order as
    /// [`Self::iter`].
    pub fn keys<'a, DS: Ordered>(&self, store: &'a DS) -> (r: Keys<'a, K, V, DS>)
        requires
            store.inv(),
        ensures
            r.inv(),
            r.cursor() == seq![self.prefix_spec()],
            r.prefix_spec() == self.prefix_spec(),
            r.store_model() == store.model(),
    {
        Keys(self.iter(store))
    }
}

impl<'a, K: Codec, V: Codec, DS: Ordered> Iter<'a, K, V, DS> {
    /// The cursor: the last-seen key bytes, or the bare prefix byte
    /// before the first step.
    pub closed spec fn cursor(&self) -> Seq<u8> {
        self.prev_key_bytes@
    }

    /// The namespace prefix byte this iterator is scoped to.
    pub closed spec fn prefix_spec(&self) -> u8 {
        self.prev_key_bytes@[0]
    }

    /// The contents of the store being iterated.
    pub closed spec fn store_model(&self) -> Map<Seq<u8>, Seq<u8>> {
        self.ds.model()
    }

    /// The iterator's well-formedness.
    pub closed spec fn inv(&self) -> bool {
        self.ds.inv() && self.prev_key_bytes@.len() >= 1
    }

    /// One step: the next entry under the prefix in key order, an error
    /// item if its key or value bytes do not decode (the cursor still
    /// advances past it), or `None` once no stored key beyond the cursor
    /// matches the prefix. A backend failure is reported without moving
    /// the cursor.
    pub fn next(&mut self) -> (r: Option<Result<(K, V), Error<DS::Error>>>)
        requires
            old(self).inv(),
        ensures
            final(self).inv(),
            final(self).prefix_spec() == old(self).prefix_spec(),
            final(self).store_model() == old(self).store_model(),
            match r {
                None => final(self).cursor() == old(self).cursor() && exhausted(
                    old(self).store_model(),
                    old(self).cursor(),
                    old(self).prefix_spec(),
                ),
                Some(Ok((k, v))) => step_to(
                    old(self).store_model(),
                    old(self).cursor(),
                    old(self).prefix_spec(),
                    final(self).cursor(),
                ) && K::dec(final(self).cursor().skip(1)) == Some(k) && V::dec(
                    old(self).store_model()[final(self).cursor()],
                ) == Some(v),
                Some(Err(Error::DeSerializingKey)) => step_to(
                    old(self).store_model(),
                    old(self).cursor(),
                    old(self).prefix_spec(),
                    final(self).cursor(),
                ) && K::dec(final(self).cursor().skip(1)) is None,
                Some(Err(Error::DeSerializingVal)) => step_to(
                    old(self).store_model(),
                    old(self).cursor(),
                    old(self).prefix_spec(),
                    final(self).cursor(),
                ) && K::dec(final(self).cursor().skip(1)) is Some && V::dec(
                    old(self).store_model()[final(self).cursor()],
                ) is None,
                Some(Err(Error::Database(_))) => final(self).cursor() == old(self).cursor(),
                Some(Err(Error::Serializing)) => false,
            },
    {
        let ghost m = self.ds.model();
        let ghost c = self.prev_key_bytes@;
        let p = self.prev_key_bytes[0];
        match self.ds.get_gt(self.prev_key_bytes.as_slice()) {
            Err(e) => Some(Err(Error::Database(e))),
            Ok(None) => None,
            Ok(Some((kb, vb))) => {
                proof {
                    // A key beyond a non-empty cursor cannot be empty.
                    assert(kb@.len() > 0);
                }
                if kb[0] != p {
                    proof {
                        lemma_lex_first_byte(c, kb@);
                        assert forall|k2: Seq<u8>|
                            #[trigger] m.contains_key(k2) && lex_lt(c, k2) implies !has_prefix(
                            p,
                            k2,
                        ) by {
                            if has_prefix(p, k2) {
                                lemma_lex_byte_lt(k2, kb@);
                                lemma_lex_asymmetric(k2, kb@);
                            }
                        }
                    }
                    return None;
                }
                self.prev_key_bytes = kb;
                let kslice = slice_subrange(self.prev_key_bytes.as_slice(), 1, self.prev_key_bytes.len());
                proof {
                    assert(kslice@ =~= self.prev_key_bytes@.skip(1));
                }
                match K::decode(kslice) {
                    None => Some(Err(Error::DeSerializingKey)),
                    Some(k) => match V::decode(vb.as_slice()) {
                        None => Some(Err(Error::DeSerializingVal)),
                        Some(v) => Some(Ok((k, v))),
                    },
                }
            },
        }
    }
}

impl<'a, K: Codec, V: Codec, DS: Ordered> Values<'a, K, V, DS> {
    /// The cursor of the shared underlying iteration.
    pub closed spec fn cursor(&self) -> Seq<u8> {
        self.0.cursor()
    }

    /// The namespace prefix byte this iterator is scoped to.
    pub closed spec fn prefix_spec(&self) -> u8 {
        self.0.prefix_spec()
    }

    /// The contents of the store being iterated.
    pub closed spec fn store_model(&self) -> Map<Seq<u8>, Seq<u8>> {
        self.0.store_model()
    }

    /// The iterator's well-formedness.
    pub closed spec fn inv(&self) -> bool {
        self.0.inv()
    }

    /// One step, projected to the entry's value.
    pub fn next(&mut self) -> (r: Option<Result<V, Error<DS::Error>>>)
        requires
            old(self).inv(),
        ensures
            final(self).inv(),
            final(self).prefix_spec() == old(self).prefix_spec(),
            final(self).store_model() == old(self).store_model(),
            match r {
                None => final(self).cursor() == old(self).cursor() && exhausted(
                    old(self).store_model(),
                    old(self).cursor(),
                    old(self).prefix_spec(),
                ),
                Some(Ok(v)) => step_to(
                    old(self).store_model(),
                    old(self).cursor(),
                    old(self).prefix_spec(),
                    final(self).cursor(),
                ) && K::dec(final(self).cursor().skip(1)) is Some && V::dec(
                    old(self).store_model()[final(self).cursor()],
                ) == Some(v),
                Some(Err(Error::DeSerializingKey)) => step_to(
                    old(self).store_model(),
                    old(self).cursor(),
                    old(self).prefix_spec(),
                    final(self).cursor(),
                ) && K::dec(final(self).cursor().skip(1)) is None,
                Some(Err(Error::DeSerializingVal)) => step_to(
                    old(self).store_model(),
                    old(self).cursor(),
                    old(self).prefix_spec(),
                    final(self).cursor(),
                ) && V::dec(old(self).store_model()[final(self).cursor()]) is None,
                Some(Err(Error::Database(_))) => final(self).cursor() == old(self).cursor(),
                Some(Err(Error::Serializing)) => false,
            },
    {
        match self.0.next() {
            None => None,
            Some(Ok((_, v))) => Some(Ok(v)),
            Some(Err(e)) => Some(Err(e)),
        }
    }
}

impl<'a, K: Codec, V: Codec, DS: Ordered> Keys<'a, K, V, DS> {
    /// The cursor of the shared underlying iteration.
    pub closed spec fn cursor(&self) -> Seq<u8> {
        self.0.cursor()
    }

    /// The namespace prefix byte this iterator is scoped to.
    pub closed spec fn prefix_spec(&self) -> u8 {
        self.0.prefix_spec()
    }

    /// The contents of the store being iterated.
    pub closed spec fn store_model(&self) -> Map<Seq<u8>, Seq<u8>> {
        self.0.store_model()
    }

    /// The iterator's well-formedness.
    pub closed spec fn inv(&self) -> bool {
        self.0.inv()
    }

    /// One step, projected to the entry's logical key.
    pub fn next(&mut self) -> (r: Option<Result<K, Error<DS::Error>>>)
        requires
            old(self).inv(),
        ensures
            final(self).inv(),
            final(self).prefix_spec() == old(self).prefix_spec(),
            final(self).store_model() == old(self).store_model(),
            match r {
                None => final(self).cursor() == old(self).cursor() && exhausted(
                    old(self).store_model(),
                    old(self).cursor(),
                    old(self).prefix_spec(),
                ),
                Some(Ok(k)) => step_to(
                    old(self).store_model(),
                    old(self).cursor(),
                    old(self).prefix_spec(),
                    final(self).cursor(),
                ) && K::dec(final(self).cursor().skip(1)) == Some(k) && V::dec(
                    old(self).store_model()[final(self).cursor()],
                ) is Some,
                Some(Err(Error::DeSerializingKey)) => step_to(
                    old(self).store_model(),
                    old(self).cursor(),
                    old(self).prefix_spec(),
                    final(self).cursor(),
                ) && K::dec(final(self).cursor().skip(1)) is None,
                Some(Err(Error::DeSerializingVal)) => step_to(
                    old(self).store_model(),
                    old(self).cursor(),
                    old(self).prefix_spec(),
                    final(self).cursor(),
                ) && V::dec(old(self).store_model()[final(self).cursor()]) is None,
                Some(Err(Error::Database(_))) => final(self).cursor() == old(self).cursor(),
                Some(Err(Error::Serializing)) => false,
            },
    {
        match self.0.next() {
            None => None,
            Some(Ok((k, _))) => Some(Ok(k)),
            Some(Err(e)) => Some(Err(e)),
        }
    }
}

} // verus!
