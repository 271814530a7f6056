//! The same accessor and iteration semantics over the `sled` engine.

use dbstruct::error::{CompareAndSwapError, Error};
use dbstruct::field::Field;
use dbstruct::map::DbMap;
use dbstruct::sled_store::Sled;
use dbstruct::store::ByteStore;

fn fresh_store() -> Sled {
    let db = sled::Config::new().temporary(true).open().expect("open temporary sled db");
    let tree = db.open_tree("test").expect("open tree");
    Sled::new(tree)
}

#[test]
fn sled_default_on_absence() {
    let store = fresh_store();
    let field: Field<Option<u64>> = Field::new(b"position".to_vec());
    assert_eq!(field.get(&store).unwrap(), None);
}

#[test]
fn sled_set_then_get() {
    let mut store = fresh_store();
    let field: Field<Option<u64>> = Field::new(b"position".to_vec());
    field.set(&mut store, &Some(42)).unwrap();
    assert_eq!(field.get(&store).unwrap(), Some(42));
}

#[test]
fn sled_updates_accumulate() {
    let mut store = fresh_store();
    let field: Field<u64> = Field::new(b"count".to_vec());
    let n = 50;
    for _ in 0..n {
        field.update(&mut store, |v: u64| v + 1).unwrap();
    }
    assert_eq!(field.get(&store).unwrap(), n);
}

#[test]
fn sled_compare_and_swap() {
    let mut store = fresh_store();
    let field: Field<u64> = Field::new(b"count".to_vec());
    field.set(&mut store, &7).unwrap();
    assert_eq!(field.compare_and_swap(&mut store, &7, &8).unwrap(), Ok(()));
    assert_eq!(field.get(&store).unwrap(), 8);
    assert_eq!(
        field.compare_and_swap(&mut store, &7, &9).unwrap(),
        Err(CompareAndSwapError { current: 8 })
    );
    assert_eq!(field.get(&store).unwrap(), 8);
}

#[test]
fn sled_primitives_report_prior_values() {
    let mut store = fresh_store();
    assert_eq!(store.insert(b"k", &[1]).unwrap(), None);
    assert_eq!(store.insert(b"k", &[2]).unwrap(), Some(vec![1]));
    assert_eq!(store.get(b"k").unwrap(), Some(vec![2]));
    assert_eq!(store.remove(b"k").unwrap(), Some(vec![2]));
    assert_eq!(store.get(b"k").unwrap(), None);
}

#[test]
fn sled_map_iterates_in_key_byte_order() {
    let mut store = fresh_store();
    let map: DbMap<u64, u64> = DbMap::new(1);
    let other: DbMap<u64, u64> = DbMap::new(2);
    map.entry(&3).set(&mut store, &30).unwrap();
    map.entry(&1).set(&mut store, &10).unwrap();
    map.entry(&2).set(&mut store, &20).unwrap();
    other.entry(&9).set(&mut store, &90).unwrap();

    let mut it = map.iter(&store);
    assert_eq!(it.next().unwrap().unwrap(), (1, 10));
    assert_eq!(it.next().unwrap().unwrap(), (2, 20));
    assert_eq!(it.next().unwrap().unwrap(), (3, 30));
    assert!(it.next().is_none());

    let mut it = other.iter(&store);
    assert_eq!(it.next().unwrap().unwrap(), (9, 90));
    assert!(it.next().is_none());
}

#[test]
fn sled_corrupt_entry_yields_one_error_then_resumes() {
    let mut store = fresh_store();
    let map: DbMap<u64, u64> = DbMap::new(1);
    map.entry(&1).set(&mut store, &10).unwrap();
    map.entry(&2).set(&mut store, &20).unwrap();
    map.entry(&3).set(&mut store, &30).unwrap();
    let full_key = [vec![1u8], 2u64.to_le_bytes().to_vec()].concat();
    store.insert(&full_key, &[7]).unwrap();

    let mut it = map.iter(&store);
    assert_eq!(it.next().unwrap().unwrap(), (1, 10));
    assert!(matches!(it.next().unwrap(), Err(Error::DeSerializingVal)));
    assert_eq!(it.next().unwrap().unwrap(), (3, 30));
    assert!(it.next().is_none());
}
