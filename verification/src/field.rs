//! Typed per-field accessors.
//!
//! A [`Field`] combines one key with one value type and implements the
//! four access families over any backing engine: read (absence reported
//! as the type's default), overwrite, atomic read-modify-write, and
//! optimistic compare-and-swap. A field is created implicitly on first
//! `set` and reset to its default only by an explicit [`Field::clear`].

use core::marker::PhantomData;
use vstd::prelude::*;

use crate::codec::Codec;
use crate::error::{CompareAndSwapError, Error};
use crate::store::{stored_at, Atomic, ByteStore};

verus! {

/// What a field logically holds in store contents `m` at key `k`: the
/// decoded stored value, the type's default when the key is absent, and
/// `None` when the stored bytes are corrupt.
pub open spec fn field_value<V: Codec>(m: Map<Seq<u8>, Seq<u8>>, k: Seq<u8>) -> Option<V> {
    match stored_at(m, k) {
        Option::None => Some(V::default_spec()),
        Option::Some(b) => V::dec(b),
    }
}

/// One typed value at one key of a backing engine.
pub struct Field<V> {
    key: Vec<u8>,
    value_type: PhantomData<V>,
}

impl<V: Codec> Field<V> {
    /// The field's key bytes.
    pub closed spec fn key_spec(&self) -> Seq<u8> {
        self.key@
    }

    /// A field handle for a caller-assigned stable key.
    pub fn new(key: Vec<u8>) -> (r: Field<V>)
        ensures
            r.key_spec() == key@,
    {
        Field { key, value_type: PhantomData }
    }

    /// Read the field: the decoded stored value, or the type's default if
    /// the key was never written. Corrupt stored bytes are reported as a
    /// decode error, never coerced to a default.
    pub fn get<DS: ByteStore>(&self, store: &DS) -> (r: Result<V, Error<DS::Error>>)
        requires
            store.inv(),
        ensures
            match r {
                Ok(v) => field_value::<V>(store.model(), self.key_spec()) == Some(v),
                Err(Error::DeSerializingVal) => field_value::<V>(
                    store.model(),
                    self.key_spec(),
                ) is None,
                Err(Error::Database(_)) => true,
                _ => false,
            },
    {
        match store.get(self.key.as_slice()) {
            Err(e) => Err(Error::Database(e)),
            Ok(None) => Ok(V::default_value()),
            Ok(Some(b)) => match V::decode(b.as_slice()) {
                Some(v) => Ok(v),
                None => Err(Error::DeSerializingVal),
            },
        }
    }

    /// Unconditionally overwrite the field with `v`.
    pub fn set<DS: ByteStore>(&self, store: &mut DS, v: &V) -> (r: Result<(), Error<DS::Error>>)
        requires
            old(store).inv(),
        ensures
            final(store).inv(),
            match r {
                Ok(()) => final(store).model() == old(store).model().insert(
                    self.key_spec(),
                    v.enc(),
                ),
                Err(Error::Database(_)) => true,
                _ => false,
            },
    {
        let bytes = v.encode();
        match store.insert(self.key.as_slice(), bytes.as_slice()) {
            Ok(_) => Ok(()),
            Err(e) => Err(Error::Database(e)),
        }
    }

    /// Explicitly delete the field, resetting it to the type's default.
    pub fn clear<DS: ByteStore>(&self, store: &mut DS) -> (r: Result<(), Error<DS::Error>>)
        requires
            old(store).inv(),
        ensures
            final(store).inv(),
            match r {
                Ok(()) => final(store).model() == old(store).model().remove(self.key_spec()),
                Err(Error::Database(_)) => true,
                _ => false,
            },
    {
        match store.remove(self.key.as_slice()) {
            Ok(_) => Ok(()),
            Err(e) => Err(Error::Database(e)),
        }
    }

    /// Atomic read-modify-write: decode the current value (absence is the
    /// type's default), apply `op`, store the encoded result — all against
    /// one consistent snapshot, so concurrent updates of the same key
    /// cannot lose writes. If the stored bytes do not decode, the bytes
    /// are left unchanged and the error is reported; nothing partial is
    /// ever written. The callback must be copyable because an engine may
    /// re-run it against a fresh snapshot when a concurrent writer
    /// interferes.
    pub fn update<DS: Atomic, F: Fn(V) -> V + Copy>(&self, store: &mut DS, op: F) -> (r: Result<
        (),
        Error<DS::Error>,
    >)
        requires
            old(store).inv(),
            forall|v: V| #[trigger] call_requires(op, (v,)),
        ensures
            final(store).inv(),
            match r {
                Ok(()) => exists|cur: V, w: V|
                    {
                        &&& field_value::<V>(old(store).model(), self.key_spec()) == Some(cur)
                        &&& #[trigger] call_ensures(op, (cur,), w)
                        &&& final(store).model() == old(store).model().insert(
                            self.key_spec(),
                            w.enc(),
                        )
                    },
                Err(Error::DeSerializingVal) => field_value::<V>(
                    old(store).model(),
                    self.key_spec(),
                ) is None && final(store).model() == old(store).model(),
                Err(Error::Database(_)) => true,
                _ => false,
            },
    {
        let ghost m0 = old(store).model();
        let ghost k = self.key@;
        let cl = |prior: Option<Vec<u8>>| -> (out: Option<Vec<u8>>)
            ensures
                match prior {
                    Option::None => exists|w: V|
                        #[trigger] call_ensures(op, (V::default_spec(),), w) && (out matches Some(
                            ob,
                        ) && ob@ == w.enc()),
                    Option::Some(b) => match V::dec(b@) {
                        Option::None => (out matches Some(ob) && ob@ == b@),
                        Option::Some(cur) => exists|w: V|
                            #[trigger] call_ensures(op, (cur,), w) && (out matches Some(ob) && ob@
                                == w.enc()),
                    },
                },
            {
                match prior {
                    None => Some(op(V::default_value()).encode()),
                    Some(b) => match V::decode(b.as_slice()) {
                        None => Some(b),
                        Some(cur) => Some(op(cur).encode()),
                    },
                }
            };
        match store.atomic_update(self.key.as_slice(), cl) {
            Err(e) => Err(Error::Database(e)),
            Ok(prior) => {
                match prior {
                    None => Ok(()),
                    Some(b) => match V::decode(b.as_slice()) {
                        Some(_) => Ok(()),
                        None => {
                            proof {
                                assert(m0.insert(k, b@) =~= m0);
                            }
                            Err(Error::DeSerializingVal)
                        },
                    },
                }
            },
        }
    }

    /// Optimistic compare-and-swap: encode both values and replace the
    /// stored bytes with `new_v`'s encoding only if they currently equal
    /// `old_v`'s encoding. A mismatch is the expected negative outcome and
    /// carries the decoded actual current value (the type's default if the
    /// key is absent); it is never raised as a failure.
    pub fn compare_and_swap<DS: ByteStore>(&self, store: &mut DS, old_v: &V, new_v: &V) -> (r:
        Result<Result<(), CompareAndSwapError<V>>, Error<DS::Error>>)
        requires
            old(store).inv(),
        ensures
            final(store).inv(),
            match r {
                Ok(Ok(())) => stored_at(old(store).model(), self.key_spec()) == Some(old_v.enc())
                    && final(store).model() == old(store).model().insert(
                    self.key_spec(),
                    new_v.enc(),
                ),
                Ok(Err(cas)) => stored_at(old(store).model(), self.key_spec()) != Some(old_v.enc())
                    && final(store).model() == old(store).model() && field_value::<V>(
                    old(store).model(),
                    self.key_spec(),
                ) == Some(cas.current),
                Err(Error::DeSerializingVal) => stored_at(old(store).model(), self.key_spec())
                    != Some(old_v.enc()) && field_value::<V>(
                    old(store).model(),
                    self.key_spec(),
                ) is None && final(store).model() == old(store).model(),
                Err(Error::Database(_)) => true,
                _ => false,
            },
    {
        let eb = old_v.encode();
        let nb = new_v.encode();
        match store.conditional_update(self.key.as_slice(), nb.as_slice(), eb.as_slice()) {
            Err(e) => Err(Error::Database(e)),
            Ok(Ok(())) => Ok(Ok(())),
            Ok(Err(m)) => match m.current {
                None => Ok(Err(CompareAndSwapError { current: V::default_value() })),
                Some(b) => match V::decode(b.as_slice()) {
                    Some(v) => Ok(Err(CompareAndSwapError { current: v })),
                    None => Err(Error::DeSerializingVal),
                },
            },
        }
    }
}

} // verus!
