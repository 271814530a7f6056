//! A verified in-memory engine.
//!
//! [`MemStore`] keeps its entries as an association list with unique keys
//! and satisfies the whole backend contract — the four byte primitives
//! plus the atomic and ordered extensions — with every operation verified
//! against the map model.

use vstd::prelude::*;
use vstd::slice::slice_to_vec;

use crate::error::CasMismatch;
use crate::order::{bytes_eq, lex_le, lex_less, lex_lt, lemma_lex_total, lemma_lex_transitive};
use crate::store::{commit_at, opt_view, stored_at, Atomic, ByteStore, Ordered};

verus! {

/// An in-memory backing engine: an association list with unique keys.
pub struct MemStore {
    entries: Vec<(Vec<u8>, Vec<u8>)>,
}

/// The failure type of [`MemStore`]. The in-memory engine cannot fail, so
/// no value of this type is ever produced.
#[derive(Debug, PartialEq, Eq)]
pub struct MemError {}

spec fn entry_keys_unique(s: Seq<(Vec<u8>, Vec<u8>)>) -> bool {
    forall|i: int, j: int| 0 <= i < j < s.len() ==> s[i].0@ != s[j].0@
}

spec fn index_of_key(s: Seq<(Vec<u8>, Vec<u8>)>, k: Seq<u8>) -> int {
    choose|i: int| 0 <= i < s.len() && s[i].0@ == k
}

spec fn entries_model(s: Seq<(Vec<u8>, Vec<u8>)>) -> Map<Seq<u8>, Seq<u8>> {
    Map::new(
        |k: Seq<u8>| exists|i: int| 0 <= i < s.len() && s[i].0@ == k,
        |k: Seq<u8>| s[index_of_key(s, k)].1@,
    )
}

proof fn lemma_model_at(s: Seq<(Vec<u8>, Vec<u8>)>, i: int)
    requires
        entry_keys_unique(s),
        0 <= i < s.len(),
    ensures
        entries_model(s).contains_key(s[i].0@),
        entries_model(s)[s[i].0@] == s[i].1@,
{
    let k = s[i].0@;
    assert(exists|j: int| 0 <= j < s.len() && s[j].0@ == k);
    let j = index_of_key(s, k);
    assert(0 <= j < s.len() && s[j].0@ == k);
    if j != i {
        assert(s[i].0@ != s[j].0@);
    }
}

proof fn lemma_model_push(s: Seq<(Vec<u8>, Vec<u8>)>, kv: (Vec<u8>, Vec<u8>))
    requires
        entry_keys_unique(s),
        forall|i: int| 0 <= i < s.len() ==> s[i].0@ != kv.0@,
    ensures
        entry_keys_unique(s.push(kv)),
        entries_model(s.push(kv)) == entries_model(s).insert(kv.0@, kv.1@),
{
    let t = s.push(kv);
    assert forall|a: int, b: int| 0 <= a < b < t.len() implies t[a].0@ != t[b].0@ by {
        if b < s.len() {
            assert(t[a] == s[a] && t[b] == s[b]);
        } else {
            assert(t[b] == kv && t[a] == s[a]);
        }
    }
    let lhs = entries_model(t);
    let rhs = entries_model(s).insert(kv.0@, kv.1@);
    assert forall|k: Seq<u8>| lhs.contains_key(k) implies rhs.contains_key(k) && lhs[k] == rhs[k] by {
        let i = choose|i: int| 0 <= i < t.len() && t[i].0@ == k;
        lemma_model_at(t, i);
        if i < s.len() {
            assert(t[i] == s[i]);
            lemma_model_at(s, i);
        } else {
            assert(t[i] == kv);
        }
    }
    assert forall|k: Seq<u8>| rhs.contains_key(k) implies lhs.contains_key(k) by {
        if k == kv.0@ {
            assert(t[s.len() as int] == kv);
            lemma_model_at(t, s.len() as int);
        } else {
            let i = choose|i: int| 0 <= i < s.len() && s[i].0@ == k;
            assert(t[i] == s[i]);
            lemma_model_at(t, i);
        }
    }
    assert(lhs =~= rhs);
}

proof fn lemma_model_remove_idx(s: Seq<(Vec<u8>, Vec<u8>)>, i: int)
    requires
        entry_keys_unique(s),
        0 <= i < s.len(),
    ensures
        entry_keys_unique(s.remove(i)),
        forall|j: int| 0 <= j < s.remove(i).len() ==> (#[trigger] s.remove(i)[j]).0@ != s[i].0@,
        entries_model(s.remove(i)) == entries_model(s).remove(s[i].0@),
{
    let t = s.remove(i);
    s.remove_ensures(i);
    assert forall|a: int, b: int| 0 <= a < b < t.len() implies t[a].0@ != t[b].0@ by {
        let a0: int = if a < i { a } else { a + 1 };
        let b0: int = if b < i { b } else { b + 1 };
        assert(t[a] == s[a0] && t[b] == s[b0]);
    }
    assert forall|j: int| 0 <= j < t.len() implies (#[trigger] t[j]).0@ != s[i].0@ by {
        let j0: int = if j < i { j } else { j + 1 };
        assert(t[j] == s[j0]);
    }
    let lhs = entries_model(t);
    let rhs = entries_model(s).remove(s[i].0@);
    assert forall|k: Seq<u8>| lhs.contains_key(k) implies rhs.contains_key(k) && lhs[k] == rhs[k] by {
        let a = choose|a: int| 0 <= a < t.len() && t[a].0@ == k;
        lemma_model_at(t, a);
        let a0: int = if a < i { a } else { a + 1 };
        assert(t[a] == s[a0]);
        lemma_model_at(s, a0);
    }
    assert forall|k: Seq<u8>| rhs.contains_key(k) implies lhs.contains_key(k) by {
        let a0 = choose|a0: int| 0 <= a0 < s.len() && s[a0].0@ == k;
        if a0 != i {
            let a: int = if a0 < i { a0 } else { a0 - 1 };
            assert(t[a] == s[a0]);
            lemma_model_at(t, a);
        }
    }
    assert(lhs =~= rhs);
}

impl MemStore {
    /// An empty store.
    pub fn new() -> (r: MemStore)
        ensures
            r.inv(),
            r.model() == Map::<Seq<u8>, Seq<u8>>::empty(),
    {
        let r = MemStore { entries: Vec::new() };
        proof {
            assert(r.model() =~= Map::<Seq<u8>, Seq<u8>>::empty());
        }
        r
    }

    fn position_of(&self, key: &[u8]) -> (r: Option<usize>)
        ensures
            match r {
                Some(i) => i < self.entries@.len() && self.entries@[i as int].0@ == key@,
                None => forall|i: int|
                    0 <= i < self.entries@.len() ==> (#[trigger] self.entries@[i]).0@ != key@,
            },
    {
        let mut i: usize = 0;
        while i < self.entries.len()
            invariant
                i <= self.entries@.len(),
                forall|j: int| 0 <= j < i ==> (#[trigger] self.entries@[j]).0@ != key@,
            decreases self.entries@.len() - i,
        {
            if bytes_eq(self.entries[i].0.as_slice(), key) {
                return Some(i);
            }
            i += 1;
        }
        None
    }

    /// Remove the entry at `key` if one exists, returning its value bytes.
    fn take_entry(&mut self, key: &[u8]) -> (r: Option<Vec<u8>>)
        requires
            old(self).inv(),
        ensures
            final(self).inv(),
            opt_view(r) == stored_at(old(self).model(), key@),
            final(self).model() == old(self).model().remove(key@),
            forall|j: int|
                0 <= j < final(self).entries@.len()
                    ==> (#[trigger] final(self).entries@[j]).0@ != key@,
    {
        match self.position_of(key) {
            Some(i) => {
                proof {
                    lemma_model_at(self.entries@, i as int);
                    lemma_model_remove_idx(self.entries@, i as int);
                }
                let e = self.entries.remove(i);
                Some(e.1)
            },
            None => {
                proof {
                    assert(!self.model().contains_key(key@));
                    assert(self.model().remove(key@) =~= self.model());
                }
                None
            },
        }
    }

    /// Store `val` at `key`; the key must not currently be present.
    fn put_fresh(&mut self, key: &[u8], val: &[u8])
        requires
            old(self).inv(),
            forall|j: int|
                0 <= j < old(self).entries@.len()
                    ==> (#[trigger] old(self).entries@[j]).0@ != key@,
        ensures
            final(self).inv(),
            final(self).model() == old(self).model().insert(key@, val@),
    {
        let kv = (slice_to_vec(key), slice_to_vec(val));
        proof {
            lemma_model_push(self.entries@, kv);
        }
        self.entries.push(kv);
    }
}

impl ByteStore for MemStore {
    type Error = MemError;

    closed spec fn model(&self) -> Map<Seq<u8>, Seq<u8>> {
        entries_model(self.entries@)
    }

    closed spec fn inv(&self) -> bool {
        entry_keys_unique(self.entries@)
    }

    fn get(&self, key: &[u8]) -> (r: Result<Option<Vec<u8>>, MemError>) {
        match self.position_of(key) {
            Some(i) => {
                proof {
                    lemma_model_at(self.entries@, i as int);
                }
                Ok(Some(slice_to_vec(self.entries[i].1.as_slice())))
            },
            None => {
                proof {
                    assert(!self.model().contains_key(key@));
                }
                Ok(None)
            },
        }
    }

    fn remove(&mut self, key: &[u8]) -> (r: Result<Option<Vec<u8>>, MemError>) {
        Ok(self.take_entry(key))
    }

    fn insert(&mut self, key: &[u8], val: &[u8]) -> (r: Result<Option<Vec<u8>>, MemError>) {
        let ghost m0 = self.model();
        let prior = self.take_entry(key);
        self.put_fresh(key, val);
        proof {
            assert(m0.remove(key@).insert(key@, val@) =~= m0.insert(key@, val@));
        }
        Ok(prior)
    }

    fn conditional_update(&mut self, key: &[u8], new: &[u8], expected: &[u8]) -> (r: Result<
        Result<(), CasMismatch>,
        MemError,
    >) {
        match self.position_of(key) {
            Some(i) => {
                proof {
                    lemma_model_at(self.entries@, i as int);
                }
                if bytes_eq(self.entries[i].1.as_slice(), expected) {
                    let ghost m0 = self.model();
                    let _ = self.take_entry(key);
                    self.put_fresh(key, new);
                    proof {
                        assert(m0.remove(key@).insert(key@, new@) =~= m0.insert(key@, new@));
                    }
                    Ok(Ok(()))
                } else {
                    let cur = slice_to_vec(self.entries[i].1.as_slice());
                    Ok(Err(CasMismatch { current: Some(cur) }))
                }
            },
            None => {
                proof {
                    assert(!self.model().contains_key(key@));
                }
                Ok(Err(CasMismatch { current: None }))
            },
        }
    }
}

impl Atomic for MemStore {
    fn atomic_update<F: Fn(Option<Vec<u8>>) -> Option<Vec<u8>>>(&mut self, key: &[u8], op: F) -> (r:
        Result<Option<Vec<u8>>, MemError>) {
        let prior: Option<Vec<u8>> = match self.position_of(key) {
            Some(i) => {
                proof {
                    lemma_model_at(self.entries@, i as int);
                }
                Some(slice_to_vec(self.entries[i].1.as_slice()))
            },
            None => {
                proof {
                    assert(!self.model().contains_key(key@));
                }
                None
            },
        };
        let snapshot: Option<Vec<u8>> = match &prior {
            Some(b) => Some(slice_to_vec(b.as_slice())),
            None => None,
        };
        let ghost m0 = self.model();
        let out = op(snapshot);
        match out {
            Some(b) => {
                let _ = self.take_entry(key);
                self.put_fresh(key, b.as_slice());
                proof {
                    assert(m0.remove(key@).insert(key@, b@) =~= m0.insert(key@, b@));
                    assert(final(self).model() == commit_at(m0, key@, opt_view(Some(b))));
                }
            },
            None => {
                let _ = self.take_entry(key);
            },
        }
        Ok(prior)
    }
}

impl Ordered for MemStore {
    fn get_gt(&self, key: &[u8]) -> (r: Result<Option<(Vec<u8>, Vec<u8>)>, MemError>) {
        let n = self.entries.len();
        let mut best: Option<usize> = None;
        let mut i: usize = 0;
        while i < n
            invariant
                self.inv(),
                n == self.entries@.len(),
                0 <= i <= n,
                match best {
                    Some(bi) => bi < i && lex_lt(key@, self.entries@[bi as int].0@) && forall|
                        j: int,
                    |
                        0 <= j < i && lex_lt(key@, (#[trigger] self.entries@[j]).0@) ==> lex_le(
                            self.entries@[bi as int].0@,
                            self.entries@[j].0@,
                        ),
                    None => forall|j: int|
                        0 <= j < i ==> !lex_lt(key@, (#[trigger] self.entries@[j]).0@),
                },
            decreases n - i,
        {
            if lex_less(key, self.entries[i].0.as_slice()) {
                match best {
                    Some(bi) => {
                        if lex_less(self.entries[i].0.as_slice(), self.entries[bi].0.as_slice()) {
                            proof {
                                assert forall|j: int|
                                    0 <= j < i + 1 && lex_lt(
                                        key@,
                                        (#[trigger] self.entries@[j]).0@,
                                    ) implies lex_le(
                                    self.entries@[i as int].0@,
                                    self.entries@[j].0@,
                                ) by {
                                    if j < i && self.entries@[bi as int].0@
                                        != self.entries@[j].0@ {
                                        lemma_lex_transitive(
                                            self.entries@[i as int].0@,
                                            self.entries@[bi as int].0@,
                                            self.entries@[j].0@,
                                        );
                                    }
                                }
                            }
                            best = Some(i);
                        } else {
                            proof {
                                lemma_lex_total(
                                    self.entries@[bi as int].0@,
                                    self.entries@[i as int].0@,
                                );
                            }
                        }
                    },
                    None => {
                        best = Some(i);
                    },
                }
            }
            i += 1;
        }
        match best {
            Some(bi) => {
                proof {
                    lemma_model_at(self.entries@, bi as int);
                    assert forall|k2: Seq<u8>|
                        #[trigger] self.model().contains_key(k2) && lex_lt(key@, k2) implies lex_le(
                        self.entries@[bi as int].0@,
                        k2,
                    ) by {
                        let j = choose|j: int|
                            0 <= j < self.entries@.len() && self.entries@[j].0@ == k2;
                        assert(lex_lt(key@, self.entries@[j].0@));
                    }
                }
                let k = slice_to_vec(self.entries[bi].0.as_slice());
                let v = slice_to_vec(self.entries[bi].1.as_slice());
                Ok(Some((k, v)))
            },
            None => {
                proof {
                    assert forall|k2: Seq<u8>| #[trigger]
                        self.model().contains_key(k2) implies !lex_lt(key@, k2) by {
                        let j = choose|j: int|
                            0 <= j < self.entries@.len() && self.entries@[j].0@ == k2;
                        assert(self.entries@[j].0@ == k2);
                    }
                }
                Ok(None)
            },
        }
    }
}

} // verus!
