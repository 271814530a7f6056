//! Round-trip and byte-layout tests for the supported value codecs.

use dbstruct::codec::Codec;

#[test]
fn u64_round_trip_zero() {
    let v: u64 = 0;
    let bytes = v.encode();
    assert_eq!(bytes, vec![0u8; 8]);
    assert_eq!(u64::decode(&bytes), Some(0));
}

#[test]
fn u64_round_trip_small() {
    let v: u64 = 1;
    let bytes = v.encode();
    assert_eq!(bytes, vec![1, 0, 0, 0, 0, 0, 0, 0]);
    assert_eq!(u64::decode(&bytes), Some(1));
}

#[test]
fn u64_round_trip_large() {
    let values = [7u64, 300, 65_536, u64::MAX - 1, u64::MAX];
    for v in values {
        assert_eq!(u64::decode(&v.encode()), Some(v));
    }
}

#[test]
fn u64_little_endian_layout() {
    let v: u64 = 0x0102_0304_0506_0708;
    assert_eq!(v.encode(), vec![8, 7, 6, 5, 4, 3, 2, 1]);
}

#[test]
fn u64_decode_short_input_fails() {
    assert_eq!(u64::decode(&[]), None);
    assert_eq!(u64::decode(&[1, 2, 3]), None);
    assert_eq!(u64::decode(&[1, 2, 3, 4, 5, 6, 7]), None);
}

#[test]
fn opt_u64_round_trip_none() {
    let v: Option<u64> = None;
    let bytes = v.encode();
    assert_eq!(bytes, vec![0]);
    assert_eq!(<Option<u64>>::decode(&bytes), Some(None));
}

#[test]
fn opt_u64_round_trip_some() {
    let v: Option<u64> = Some(9);
    let bytes = v.encode();
    assert_eq!(bytes, vec![1, 9, 0, 0, 0, 0, 0, 0, 0]);
    assert_eq!(<Option<u64>>::decode(&bytes), Some(Some(9)));
}

#[test]
fn opt_u64_decode_bad_tag_fails() {
    assert_eq!(<Option<u64>>::decode(&[]), None);
    assert_eq!(<Option<u64>>::decode(&[2, 0, 0, 0, 0, 0, 0, 0, 0]), None);
    assert_eq!(<Option<u64>>::decode(&[1, 0, 0]), None);
}

#[test]
fn defaults_are_the_logical_defaults() {
    assert_eq!(u64::default_value(), 0);
    assert_eq!(<Option<u64>>::default_value(), None);
}
