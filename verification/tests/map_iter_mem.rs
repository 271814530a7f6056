//! Ordered, prefix-scoped map iteration over the verified in-memory
//! engine.

use dbstruct::error::Error;
use dbstruct::map::DbMap;
use dbstruct::mem::MemStore;
use dbstruct::store::ByteStore;

#[test]
fn iter_yields_key_byte_order_regardless_of_insertion_order() {
    let mut store = MemStore::new();
    let map: DbMap<u64, u64> = DbMap::new(1);
    // Little-endian encodings sort 1 < 2 < 3 byte-lexicographically.
    map.entry(&3).set(&mut store, &30).unwrap();
    map.entry(&1).set(&mut store, &10).unwrap();
    map.entry(&2).set(&mut store, &20).unwrap();
    let mut it = map.iter(&store);
    assert_eq!(it.next().unwrap().unwrap(), (1, 10));
    assert_eq!(it.next().unwrap().unwrap(), (2, 20));
    assert_eq!(it.next().unwrap().unwrap(), (3, 30));
    assert!(it.next().is_none());
}

#[test]
fn iter_order_is_encoding_order_not_numeric_order() {
    let mut store = MemStore::new();
    let map: DbMap<u64, u64> = DbMap::new(1);
    map.entry(&1).set(&mut store, &10).unwrap();
    map.entry(&256).set(&mut store, &2560).unwrap();
    // enc(256) = [0, 1, 0, ...] sorts before enc(1) = [1, 0, 0, ...].
    let mut it = map.iter(&store);
    assert_eq!(it.next().unwrap().unwrap(), (256, 2560));
    assert_eq!(it.next().unwrap().unwrap(), (1, 10));
    assert!(it.next().is_none());
}

#[test]
fn prefix_isolation_between_maps() {
    let mut store = MemStore::new();
    let chairs: DbMap<u64, u64> = DbMap::new(1);
    let tables: DbMap<u64, u64> = DbMap::new(2);
    chairs.entry(&1).set(&mut store, &11).unwrap();
    tables.entry(&2).set(&mut store, &22).unwrap();
    tables.entry(&3).set(&mut store, &33).unwrap();

    let mut it = chairs.iter(&store);
    assert_eq!(it.next().unwrap().unwrap(), (1, 11));
    assert!(it.next().is_none());

    let mut it = tables.iter(&store);
    assert_eq!(it.next().unwrap().unwrap(), (2, 22));
    assert_eq!(it.next().unwrap().unwrap(), (3, 33));
    assert!(it.next().is_none());
}

#[test]
fn empty_map_iterates_nothing() {
    let store = MemStore::new();
    let map: DbMap<u64, u64> = DbMap::new(1);
    let mut it = map.iter(&store);
    assert!(it.next().is_none());
}

#[test]
fn one_corrupt_value_yields_one_error_then_resumes() {
    let mut store = MemStore::new();
    let map: DbMap<u64, u64> = DbMap::new(1);
    map.entry(&1).set(&mut store, &10).unwrap();
    map.entry(&2).set(&mut store, &20).unwrap();
    map.entry(&3).set(&mut store, &30).unwrap();
    // Overwrite the middle entry's value bytes with garbage, at its full
    // key: the prefix byte followed by the encoded key.
    let full_key = [vec![1u8], 2u64.to_le_bytes().to_vec()].concat();
    store.insert(&full_key, &[7]).unwrap();

    let mut it = map.iter(&store);
    assert_eq!(it.next().unwrap().unwrap(), (1, 10));
    assert!(matches!(it.next().unwrap(), Err(Error::DeSerializingVal)));
    assert_eq!(it.next().unwrap().unwrap(), (3, 30));
    assert!(it.next().is_none());
}

#[test]
fn one_corrupt_key_yields_one_error_then_resumes() {
    let mut store = MemStore::new();
    let map: DbMap<u64, u64> = DbMap::new(1);
    map.entry(&1).set(&mut store, &10).unwrap();
    // A raw key under the prefix whose remainder is too short to decode;
    // [1, 5, 5] sorts after [1, 1, 0, ..., 0] at its second byte.
    store.insert(&[1, 5, 5], &10u64.to_le_bytes()).unwrap();

    let mut it = map.iter(&store);
    assert_eq!(it.next().unwrap().unwrap(), (1, 10));
    assert!(matches!(it.next().unwrap(), Err(Error::DeSerializingKey)));
    assert!(it.next().is_none());
}

#[test]
fn keys_projection() {
    let mut store = MemStore::new();
    let map: DbMap<u64, u64> = DbMap::new(1);
    map.entry(&2).set(&mut store, &20).unwrap();
    map.entry(&1).set(&mut store, &10).unwrap();
    let mut it = map.keys(&store);
    assert_eq!(it.next().unwrap().unwrap(), 1);
    assert_eq!(it.next().unwrap().unwrap(), 2);
    assert!(it.next().is_none());
}

#[test]
fn values_projection() {
    let mut store = MemStore::new();
    let map: DbMap<u64, u64> = DbMap::new(1);
    map.entry(&2).set(&mut store, &20).unwrap();
    map.entry(&1).set(&mut store, &10).unwrap();
    let mut it = map.values(&store);
    assert_eq!(it.next().unwrap().unwrap(), 10);
    assert_eq!(it.next().unwrap().unwrap(), 20);
    assert!(it.next().is_none());
}

#[test]
fn map_entries_support_the_field_accessors() {
    let mut store = MemStore::new();
    let map: DbMap<u64, Option<u64>> = DbMap::new(9);
    assert_eq!(map.entry(&1).get(&store).unwrap(), None);
    map.entry(&1).set(&mut store, &Some(5)).unwrap();
    assert_eq!(map.entry(&1).get(&store).unwrap(), Some(5));
    map.entry(&1).clear(&mut store).unwrap();
    assert_eq!(map.entry(&1).get(&store).unwrap(), None);
}
