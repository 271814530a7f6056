//! Field accessor semantics over the verified in-memory engine.

use dbstruct::error::{CompareAndSwapError, Error};
use dbstruct::field::Field;
use dbstruct::mem::MemStore;
use dbstruct::store::ByteStore;

#[test]
fn default_on_absence_optional() {
    let store = MemStore::new();
    let field: Field<Option<u64>> = Field::new(b"position".to_vec());
    assert_eq!(field.get(&store).unwrap(), None);
}

#[test]
fn default_on_absence_counter() {
    let store = MemStore::new();
    let field: Field<u64> = Field::new(b"count".to_vec());
    assert_eq!(field.get(&store).unwrap(), 0);
}

#[test]
fn set_then_get() {
    let mut store = MemStore::new();
    let field: Field<Option<u64>> = Field::new(b"position".to_vec());
    field.set(&mut store, &Some(42)).unwrap();
    assert_eq!(field.get(&store).unwrap(), Some(42));
    field.set(&mut store, &None).unwrap();
    assert_eq!(field.get(&store).unwrap(), None);
}

#[test]
fn clear_resets_to_default() {
    let mut store = MemStore::new();
    let field: Field<u64> = Field::new(b"count".to_vec());
    field.set(&mut store, &17).unwrap();
    field.clear(&mut store).unwrap();
    assert_eq!(field.get(&store).unwrap(), 0);
}

#[test]
fn repeated_updates_accumulate() {
    let mut store = MemStore::new();
    let field: Field<u64> = Field::new(b"count".to_vec());
    field.set(&mut store, &5).unwrap();
    let n = 100;
    for _ in 0..n {
        field.update(&mut store, |v: u64| v + 1).unwrap();
    }
    assert_eq!(field.get(&store).unwrap(), 5 + n);
}

#[test]
fn update_starts_from_default_when_absent() {
    let mut store = MemStore::new();
    let field: Field<u64> = Field::new(b"count".to_vec());
    field.update(&mut store, |v: u64| v + 3).unwrap();
    assert_eq!(field.get(&store).unwrap(), 3);
}

#[test]
fn update_on_corrupt_bytes_reports_and_keeps_bytes() {
    let mut store = MemStore::new();
    let field: Field<u64> = Field::new(b"count".to_vec());
    store.insert(b"count", &[1, 2, 3]).unwrap();
    let r = field.update(&mut store, |v: u64| v + 1);
    assert!(matches!(r, Err(Error::DeSerializingVal)));
    assert_eq!(store.get(b"count").unwrap(), Some(vec![1, 2, 3]));
}

#[test]
fn compare_and_swap_success_then_get() {
    let mut store = MemStore::new();
    let field: Field<u64> = Field::new(b"count".to_vec());
    field.set(&mut store, &7).unwrap();
    let r = field.compare_and_swap(&mut store, &7, &8).unwrap();
    assert_eq!(r, Ok(()));
    assert_eq!(field.get(&store).unwrap(), 8);
}

#[test]
fn compare_and_swap_mismatch_reports_actual() {
    let mut store = MemStore::new();
    let field: Field<u64> = Field::new(b"count".to_vec());
    field.set(&mut store, &7).unwrap();
    let r = field.compare_and_swap(&mut store, &9, &8).unwrap();
    assert_eq!(r, Err(CompareAndSwapError { current: 7 }));
    assert_eq!(field.get(&store).unwrap(), 7);
}

#[test]
fn compare_and_swap_on_absent_key_mismatches() {
    let mut store = MemStore::new();
    let field: Field<u64> = Field::new(b"count".to_vec());
    let r = field.compare_and_swap(&mut store, &0, &1).unwrap();
    assert_eq!(r, Err(CompareAndSwapError { current: 0 }));
    assert_eq!(field.get(&store).unwrap(), 0);
}

#[test]
fn get_on_corrupt_bytes_is_an_error_not_a_default() {
    let mut store = MemStore::new();
    let field: Field<u64> = Field::new(b"count".to_vec());
    store.insert(b"count", &[9]).unwrap();
    assert!(matches!(field.get(&store), Err(Error::DeSerializingVal)));
}

#[test]
fn byte_store_primitives_report_prior_values() {
    let mut store = MemStore::new();
    assert_eq!(store.insert(b"k", &[1, 0, 0, 0, 0, 0, 0, 0]).unwrap(), None);
    assert_eq!(
        store.insert(b"k", &[2, 0, 0, 0, 0, 0, 0, 0]).unwrap(),
        Some(vec![1, 0, 0, 0, 0, 0, 0, 0])
    );
    assert_eq!(store.get(b"k").unwrap(), Some(vec![2, 0, 0, 0, 0, 0, 0, 0]));
    assert_eq!(store.remove(b"k").unwrap(), Some(vec![2, 0, 0, 0, 0, 0, 0, 0]));
    assert_eq!(store.get(b"k").unwrap(), None);
    assert_eq!(store.remove(b"k").unwrap(), None);
}
