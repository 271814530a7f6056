//! The library's laws, stated and proved over the spec-level models.
//!
//! Each law is a public proof function; its doc comment states the law
//! in words. The accessor and iterator contracts in [`crate::field`] and
//! [`crate::map`] are stated over the same spec functions, so these laws
//! carry over to every verified caller of those functions.

use vstd::prelude::*;
use vstd::set_lib::lemma_len_subset;

use crate::codec::{lemma_enc_injective, Codec};
use crate::field::field_value;
use crate::map::{exhausted, has_prefix, step_to};
use crate::order::{
    lemma_lex_asymmetric, lemma_lex_first_byte, lemma_lex_irreflexive, lemma_lex_total,
    lemma_lex_transitive, lex_le, lex_lt,
};
use crate::store::stored_at;

verus! {

/// A never-written field reads as the type's logical default.
pub proof fn law_default_on_absence<V: Codec>(m: Map<Seq<u8>, Seq<u8>>, k: Seq<u8>)
    requires
        !m.contains_key(k),
    ensures
        field_value::<V>(m, k) == Some(V::default_spec()),
{
}

/// After storing `v`'s encoding at a key, the field reads back exactly
/// `v`.
pub proof fn law_set_then_get<V: Codec>(m: Map<Seq<u8>, Seq<u8>>, k: Seq<u8>, v: V)
    ensures
        field_value::<V>(m.insert(k, v.enc()), k) == Some(v),
{
    V::round_trip(v);
}

/// Compare-and-swap's byte-equality test is logically correct: on a
/// well-formed stored field holding `w`, comparing against `a`'s encoding
/// succeeds exactly when the stored value equals `a`.
pub proof fn law_compare_and_swap_decides<V: Codec>(
    m: Map<Seq<u8>, Seq<u8>>,
    k: Seq<u8>,
    a: V,
    w: V,
)
    requires
        stored_at(m, k) == Some(w.enc()),
    ensures
        (stored_at(m, k) == Some(a.enc())) <==> (a == w),
{
    if stored_at(m, k) == Some(a.enc()) {
        lemma_enc_injective(a, w);
    }
}

/// The store after one atomic increment of the counter field at `k`;
/// a store whose bytes there do not decode is left unchanged.
pub open spec fn counter_bumped(m: Map<Seq<u8>, Seq<u8>>, k: Seq<u8>) -> Map<Seq<u8>, Seq<u8>> {
    match field_value::<u64>(m, k) {
        Option::Some(v) => m.insert(k, (((v + 1) as u64)).enc()),
        Option::None => m,
    }
}

/// The store after `n` atomic increments of the counter field at `k`.
pub open spec fn counter_bumped_n(m: Map<Seq<u8>, Seq<u8>>, k: Seq<u8>, n: nat) -> Map<
    Seq<u8>,
    Seq<u8>,
>
    decreases n,
{
    if n == 0 {
        m
    } else {
        counter_bumped(counter_bumped_n(m, k, (n - 1) as nat), k)
    }
}

/// No lost updates: `n` atomic increments of a counter holding `v0`
/// leave it at exactly `v0 + n`. Each increment is one atomic
/// read-modify-write step, the committed shape of `update`'s contract.
pub proof fn law_no_lost_updates(m: Map<Seq<u8>, Seq<u8>>, k: Seq<u8>, v0: u64, n: nat)
    requires
        field_value::<u64>(m, k) == Some(v0),
        v0 + n <= u64::MAX,
    ensures
        field_value::<u64>(counter_bumped_n(m, k, n), k) == Some(((v0 + n) as u64)),
    decreases n,
{
    if n > 0 {
        law_no_lost_updates(m, k, v0, (n - 1) as nat);
        let prev = ((v0 + n - 1) as u64);
        let next = ((v0 + n) as u64);
        u64::round_trip(next);
        assert(counter_bumped(counter_bumped_n(m, k, (n - 1) as nat), k) == counter_bumped_n(
            m,
            k,
            n,
        ));
    }
}

/// `kk` is the smallest stored key strictly greater than `c`: exactly
/// what one ordered-scan step returns.
pub open spec fn is_min_above(m: Map<Seq<u8>, Seq<u8>>, c: Seq<u8>, kk: Seq<u8>) -> bool {
    &&& m.contains_key(kk)
    &&& lex_lt(c, kk)
    &&& forall|k2: Seq<u8>| #[trigger] m.contains_key(k2) && lex_lt(c, k2) ==> lex_le(kk, k2)
}

/// Every finite store with some key beyond `c` has a smallest such key.
pub proof fn lemma_min_above_exists(m: Map<Seq<u8>, Seq<u8>>, c: Seq<u8>, witness: Seq<u8>)
    requires
        m.dom().finite(),
        m.contains_key(witness),
        lex_lt(c, witness),
    ensures
        exists|kk: Seq<u8>| is_min_above(m, c, kk),
    decreases m.dom().len(),
{
    let rest = m.remove(witness);
    assert(rest.dom() =~= m.dom().remove(witness));
    if exists|k2: Seq<u8>| rest.contains_key(k2) && lex_lt(c, k2) {
        let w2 = choose|k2: Seq<u8>| rest.contains_key(k2) && lex_lt(c, k2);
        lemma_min_above_exists(rest, c, w2);
        let kk = choose|kk: Seq<u8>| is_min_above(rest, c, kk);
        lemma_lex_total(kk, witness);
        if lex_lt(witness, kk) {
            assert forall|k2: Seq<u8>|
                #[trigger] m.contains_key(k2) && lex_lt(c, k2) implies lex_le(witness, k2) by {
                if k2 != witness {
                    assert(rest.contains_key(k2));
                    assert(lex_le(kk, k2));
                    if kk != k2 {
                        lemma_lex_transitive(witness, kk, k2);
                    }
                }
            }
            assert(is_min_above(m, c, witness));
        } else {
            assert forall|k2: Seq<u8>|
                #[trigger] m.contains_key(k2) && lex_lt(c, k2) implies lex_le(kk, k2) by {
                if k2 != witness {
                    assert(rest.contains_key(k2));
                }
            }
            assert(is_min_above(m, c, kk));
        }
    } else {
        assert forall|k2: Seq<u8>|
            #[trigger] m.contains_key(k2) && lex_lt(c, k2) implies lex_le(witness, k2) by {
            if k2 != witness {
                assert(rest.contains_key(k2));
            }
        }
        assert(is_min_above(m, c, witness));
    }
}

/// The smallest key beyond a cursor is unique.
pub proof fn lemma_min_above_unique(m: Map<Seq<u8>, Seq<u8>>, c: Seq<u8>, a: Seq<u8>, b: Seq<u8>)
    requires
        is_min_above(m, c, a),
        is_min_above(m, c, b),
    ensures
        a == b,
{
    assert(lex_le(a, b));
    assert(lex_le(b, a));
    if a != b {
        lemma_lex_asymmetric(a, b);
    }
}

/// The stored keys strictly beyond cursor `c`.
pub open spec fn keys_above(m: Map<Seq<u8>, Seq<u8>>, c: Seq<u8>) -> Set<Seq<u8>> {
    m.dom().filter(|k: Seq<u8>| lex_lt(c, k))
}

proof fn lemma_keys_above_shrinks(m: Map<Seq<u8>, Seq<u8>>, c: Seq<u8>, kk: Seq<u8>)
    requires
        m.dom().finite(),
        is_min_above(m, c, kk),
    ensures
        keys_above(m, kk).len() < keys_above(m, c).len(),
{
    let above_c = keys_above(m, c);
    let above_k = keys_above(m, kk);
    m.dom().lemma_len_filter(|k: Seq<u8>| lex_lt(c, k));
    m.dom().lemma_len_filter(|k: Seq<u8>| lex_lt(kk, k));
    assert forall|x: Seq<u8>| above_k.contains(x) implies above_c.remove(kk).contains(x) by {
        lemma_lex_transitive(c, kk, x);
        if x == kk {
            lemma_lex_irreflexive(kk);
        }
    }
    assert(above_k.subset_of(above_c.remove(kk)));
    lemma_len_subset(above_k, above_c.remove(kk));
    assert(above_c.contains(kk));
}

/// The keys a full scan from cursor `c` yields for prefix `p`, in order:
/// repeatedly the smallest stored key beyond the cursor, until none is
/// left or the next one leaves the namespace.
pub open spec fn scan_keys(m: Map<Seq<u8>, Seq<u8>>, c: Seq<u8>, p: u8) -> Seq<Seq<u8>>
    decreases keys_above(m, c).len(),
        when m.dom().finite()
        via scan_keys_decreases
{
    if exists|kk: Seq<u8>| is_min_above(m, c, kk) {
        let kk = choose|kk: Seq<u8>| is_min_above(m, c, kk);
        if has_prefix(p, kk) {
            seq![kk] + scan_keys(m, kk, p)
        } else {
            Seq::empty()
        }
    } else {
        Seq::empty()
    }
}

#[via_fn]
proof fn scan_keys_decreases(m: Map<Seq<u8>, Seq<u8>>, c: Seq<u8>, p: u8) {
    if exists|kk: Seq<u8>| is_min_above(m, c, kk) {
        let kk = choose|kk: Seq<u8>| is_min_above(m, c, kk);
        if has_prefix(p, kk) {
            lemma_keys_above_shrinks(m, c, kk);
        }
    }
}

/// Every key a scan yields is stored, lies beyond the scan's starting
/// cursor, and carries the scan's prefix.
pub proof fn lemma_scan_elements(m: Map<Seq<u8>, Seq<u8>>, c: Seq<u8>, p: u8)
    requires
        m.dom().finite(),
    ensures
        forall|i: int|
            0 <= i < scan_keys(m, c, p).len() ==> m.contains_key(
                #[trigger] scan_keys(m, c, p)[i],
            ),
        forall|i: int|
            0 <= i < scan_keys(m, c, p).len() ==> lex_lt(c, #[trigger] scan_keys(m, c, p)[i]),
        forall|i: int|
            0 <= i < scan_keys(m, c, p).len() ==> has_prefix(
                p,
                #[trigger] scan_keys(m, c, p)[i],
            ),
    decreases keys_above(m, c).len(),
{
    if exists|kk: Seq<u8>| is_min_above(m, c, kk) {
        let kk = choose|kk: Seq<u8>| is_min_above(m, c, kk);
        if has_prefix(p, kk) {
            lemma_keys_above_shrinks(m, c, kk);
            lemma_scan_elements(m, kk, p);
            let s = scan_keys(m, c, p);
            let rest = scan_keys(m, kk, p);
            assert forall|i: int| 0 <= i < s.len() implies m.contains_key(s[i]) && lex_lt(
                c,
                s[i],
            ) && has_prefix(p, s[i]) by {
                if i > 0 {
                    assert(s[i] == rest[i - 1]);
                    lemma_lex_transitive(c, kk, rest[i - 1]);
                }
            }
        }
    }
}

/// Map ordering: a scan yields keys in strictly ascending
/// byte-lexicographic order, wherever the entries came from and in
/// whatever order they were inserted.
pub proof fn law_map_iteration_ordered(
    m: Map<Seq<u8>, Seq<u8>>,
    c: Seq<u8>,
    p: u8,
    i: int,
    j: int,
)
    requires
        m.dom().finite(),
        0 <= i < j < scan_keys(m, c, p).len(),
    ensures
        lex_lt(scan_keys(m, c, p)[i], scan_keys(m, c, p)[j]),
    decreases keys_above(m, c).len(),
{
    let s = scan_keys(m, c, p);
    let kk = choose|kk: Seq<u8>| is_min_above(m, c, kk);
    lemma_keys_above_shrinks(m, c, kk);
    let rest = scan_keys(m, kk, p);
    if i == 0 {
        lemma_scan_elements(m, kk, p);
        assert(s[j] == rest[j - 1]);
    } else {
        law_map_iteration_ordered(m, kk, p, i - 1, j - 1);
        assert(s[i] == rest[i - 1]);
        assert(s[j] == rest[j - 1]);
    }
}

/// A scan misses nothing: every stored key beyond the cursor that
/// carries the prefix is yielded. Together with
/// [`law_map_iteration_ordered`] this pins the scan down to exactly the
/// namespace's entries in encoding order.
pub proof fn lemma_scan_complete(m: Map<Seq<u8>, Seq<u8>>, c: Seq<u8>, p: u8, k: Seq<u8>)
    requires
        m.dom().finite(),
        has_prefix(p, c),
        m.contains_key(k),
        lex_lt(c, k),
        has_prefix(p, k),
    ensures
        scan_keys(m, c, p).contains(k),
    decreases keys_above(m, c).len(),
{
    lemma_min_above_exists(m, c, k);
    let kk = choose|kk: Seq<u8>| is_min_above(m, c, kk);
    lemma_lex_first_byte(c, kk);
    if kk == k {
        assert(scan_keys(m, c, p)[0] == k);
    } else {
        assert(lex_lt(kk, k));
        lemma_lex_first_byte(kk, k);
        assert(has_prefix(p, kk));
        lemma_keys_above_shrinks(m, c, kk);
        lemma_scan_complete(m, kk, p, k);
        let rest = scan_keys(m, kk, p);
        let i = choose|i: int| 0 <= i < rest.len() && rest[i] == k;
        assert(scan_keys(m, c, p)[i + 1] == k);
    }
}

/// Prefix isolation: an entry stored under a different namespace prefix
/// never appears in this map's scan.
pub proof fn law_prefix_isolation(m: Map<Seq<u8>, Seq<u8>>, c: Seq<u8>, p: u8, k: Seq<u8>)
    requires
        m.dom().finite(),
        !has_prefix(p, k),
    ensures
        !scan_keys(m, c, p).contains(k),
{
    if scan_keys(m, c, p).contains(k) {
        let i = choose|i: int| 0 <= i < scan_keys(m, c, p).len() && scan_keys(m, c, p)[i] == k;
        lemma_scan_elements(m, c, p);
    }
}

/// One iterator step is the head of the ideal scan: what `next` lands on
/// is `scan_keys`' first element, and the rest of the scan continues from
/// it. In particular an undecodable entry consumes exactly its own
/// position and iteration resumes with the next entry.
pub proof fn law_step_is_scan_head(m: Map<Seq<u8>, Seq<u8>>, c: Seq<u8>, p: u8, kk: Seq<u8>)
    requires
        m.dom().finite(),
        step_to(m, c, p, kk),
    ensures
        scan_keys(m, c, p) == seq![kk] + scan_keys(m, kk, p),
{
    assert(is_min_above(m, c, kk));
    let kk2 = choose|x: Seq<u8>| is_min_above(m, c, x);
    lemma_min_above_unique(m, c, kk, kk2);
}

/// When an iterator reports exhaustion, the ideal scan is indeed over.
pub proof fn law_exhausted_scan_empty(m: Map<Seq<u8>, Seq<u8>>, c: Seq<u8>, p: u8)
    requires
        m.dom().finite(),
        exhausted(m, c, p),
    ensures
        scan_keys(m, c, p).len() == 0,
{
    if exists|kk: Seq<u8>| is_min_above(m, c, kk) {
        let kk = choose|kk: Seq<u8>| is_min_above(m, c, kk);
        assert(!has_prefix(p, kk));
    }
}

} // verus!
