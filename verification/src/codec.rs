//! Typed values and their deterministic binary encoding.
//!
//! A [`Codec`] type has a fixed, deterministic encoding to bytes with the
//! round-trip guarantee `dec(enc(v)) == Some(v)`, strong enough that two
//! encodings of equal values are byte-identical — which is what makes the
//! byte-equality check of compare-and-swap logically correct. Each type
//! also names its logical default, the value an accessor reports for a
//! never-written field.
//!
//! The supported types delegate the byte work to `bincode`'s fixint
//! little-endian default configuration, behind trusted wrappers whose
//! contracts pin the exact byte layout.

use vstd::bytes::{lemma_auto_spec_u64_to_from_le_bytes, spec_u64_from_le_bytes, spec_u64_to_le_bytes};
use vstd::prelude::*;

verus! {

/// A value type with a deterministic binary encoding, a decoder, and a
/// logical default for absent fields.
pub trait Codec: Sized {
    /// The encoded bytes of a value.
    spec fn enc(&self) -> Seq<u8>;

    /// What decoding yields on any byte sequence: `None` marks bytes no
    /// value of this type decodes from.
    spec fn dec(bytes: Seq<u8>) -> Option<Self>;

    /// The logical default reported for an absent key.
    spec fn default_spec() -> Self;

    /// Encode a value; the encoding of the supported types cannot fail.
    fn encode(&self) -> (r: Vec<u8>)
        ensures
            r@ == self.enc(),
    ;

    /// Decode bytes, `None` on malformed input.
    fn decode(bytes: &[u8]) -> (r: Option<Self>)
        ensures
            r == Self::dec(bytes@),
    ;

    /// The logical default, as a value.
    fn default_value() -> (r: Self)
        ensures
            r == Self::default_spec(),
    ;

    /// Round-trip: decoding an encoding yields the value it came from.
    proof fn round_trip(v: Self)
        ensures
            Self::dec(v.enc()) == Some(v),
    ;
}

/// Two values with the same encoding are the same value; encodings are
/// deterministic by construction, so byte equality decides value equality.
pub proof fn lemma_enc_injective<V: Codec>(v: V, w: V)
    requires
        v.enc() == w.enc(),
    ensures
        v == w,
{
    V::round_trip(v);
    V::round_trip(w);
}

/// Relies on `bincode::serialize`, whose default configuration is fixint
/// little-endian: a `u64` is written as exactly its eight little-endian
/// bytes. Writing into a vector cannot fail.
#[verifier::external_body]
fn bincode_encode_u64(v: &u64) -> (r: Vec<u8>)
    ensures
        r@ == spec_u64_to_le_bytes(*v),
{
    match bincode::serialize(v) {
        Ok(b) => b,
        Err(_) => Vec::new(),
    }
}

/// Relies on `bincode::deserialize`, whose default configuration is fixint
/// little-endian and allows trailing bytes: a `u64` is read from the first
/// eight bytes, and fewer than eight bytes are a failure.
#[verifier::external_body]
fn bincode_decode_u64(bytes: &[u8]) -> (r: Option<u64>)
    ensures
        bytes@.len() >= 8 ==> r == Some(spec_u64_from_le_bytes(bytes@.subrange(0, 8))),
        bytes@.len() < 8 ==> r is None,
{
    bincode::deserialize(bytes).ok()
}

impl Codec for u64 {
    open spec fn enc(&self) -> Seq<u8> {
        spec_u64_to_le_bytes(*self)
    }

    open spec fn dec(bytes: Seq<u8>) -> Option<u64> {
        if bytes.len() >= 8 {
            Some(spec_u64_from_le_bytes(bytes.subrange(0, 8)))
        } else {
            None
        }
    }

    open spec fn default_spec() -> u64 {
        0
    }

    fn encode(&self) -> (r: Vec<u8>) {
        proof {
            lemma_auto_spec_u64_to_from_le_bytes();
        }
        bincode_encode_u64(self)
    }

    fn decode(bytes: &[u8]) -> (r: Option<u64>) {
        bincode_decode_u64(bytes)
    }

    fn default_value() -> (r: u64) {
        0
    }

    proof fn round_trip(v: u64) {
        lemma_auto_spec_u64_to_from_le_bytes();
        assert(spec_u64_to_le_bytes(v).subrange(0, 8) =~= spec_u64_to_le_bytes(v));
    }
}

/// The encoded bytes of an optional `u64`: a tag byte (0 for none, 1 for
/// some) followed by the payload's encoding.
pub open spec fn opt_u64_enc(v: Option<u64>) -> Seq<u8> {
    match v {
        Option::None => seq![0u8],
        Option::Some(x) => seq![1u8] + spec_u64_to_le_bytes(x),
    }
}

/// What decoding an optional `u64` yields on any byte sequence.
pub open spec fn opt_u64_dec(bytes: Seq<u8>) -> Option<Option<u64>> {
    if bytes.len() == 0 {
        None
    } else if bytes[0] == 0 {
        Some(None)
    } else if bytes[0] == 1 && bytes.len() >= 9 {
        Some(Some(spec_u64_from_le_bytes(bytes.subrange(1, 9))))
    } else {
        None
    }
}

/// Relies on `bincode::serialize`: an `Option` is a tag byte (0 for
/// `None`, 1 for `Some`) followed by the payload, here the eight
/// little-endian bytes of the `u64`. Writing into a vector cannot fail.
#[verifier::external_body]
fn bincode_encode_opt_u64(v: &Option<u64>) -> (r: Vec<u8>)
    ensures
        r@ == opt_u64_enc(*v),
{
    match bincode::serialize(v) {
        Ok(b) => b,
        Err(_) => Vec::new(),
    }
}

/// Relies on `bincode::deserialize`: the tag byte selects `None` (0) or
/// `Some` (1, payload follows); an empty input, a short payload or any
/// other tag is a failure, and trailing bytes are allowed.
#[verifier::external_body]
fn bincode_decode_opt_u64(bytes: &[u8]) -> (r: Option<Option<u64>>)
    ensures
        r == opt_u64_dec(bytes@),
{
    bincode::deserialize(bytes).ok()
}

impl Codec for Option<u64> {
    open spec fn enc(&self) -> Seq<u8> {
        opt_u64_enc(*self)
    }

    open spec fn dec(bytes: Seq<u8>) -> Option<Option<u64>> {
        opt_u64_dec(bytes)
    }

    open spec fn default_spec() -> Option<u64> {
        None
    }

    fn encode(&self) -> (r: Vec<u8>) {
        bincode_encode_opt_u64(self)
    }

    fn decode(bytes: &[u8]) -> (r: Option<Option<u64>>) {
        bincode_decode_opt_u64(bytes)
    }

    fn default_value() -> (r: Option<u64>) {
        None
    }

    proof fn round_trip(v: Option<u64>) {
        lemma_auto_spec_u64_to_from_le_bytes();
        match v {
            Option::None => {
                assert(opt_u64_enc(v)[0] == 0);
            },
            Option::Some(x) => {
                let e = opt_u64_enc(v);
                assert(e[0] == 1);
                assert(e.len() == 9);
                assert(e.subrange(1, 9) =~= spec_u64_to_le_bytes(x));
            },
        }
    }
}

} // verus!
