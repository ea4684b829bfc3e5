use rafka_core::log::StoreError;
use rafka_core::retention::RetentionPolicy;
use rafka_core::store::LogStore;

#[test]
fn new_store_owns_no_partition() {
    let store = LogStore::new();
    assert!(!store.has_partition("orders", 0));
    assert_eq!(store.end_offset("orders", 0), Err(StoreError::UnknownPartition));
    assert_eq!(store.start_offset("orders", 0), Err(StoreError::UnknownPartition));
    assert_eq!(store.current_size_bytes("orders", 0), Err(StoreError::UnknownPartition));
    assert_eq!(store.read_range("orders", 0, 0, 1).err(), Some(StoreError::UnknownPartition));
}

#[test]
fn ensure_partition_is_idempotent() {
    let mut store = LogStore::new();
    assert!(store.ensure_partition("orders", 2));
    assert!(!store.ensure_partition("orders", 2));
    assert!(store.has_partition("orders", 2));
    assert!(!store.has_partition("orders", 1));
    assert!(!store.has_partition("payments", 2));
    store.append("orders", 2, vec![1], vec![2], 0).unwrap();
    assert!(!store.ensure_partition("orders", 2));
    assert_eq!(store.end_offset("orders", 2), Ok(1));
}

#[test]
fn operations_on_an_unknown_partition_are_refused() {
    let mut store = LogStore::new();
    store.ensure_partition("orders", 0);
    assert_eq!(store.append("orders", 1, vec![], vec![1], 0), Err(StoreError::UnknownPartition));
    assert_eq!(store.append("order", 0, vec![], vec![1], 0), Err(StoreError::UnknownPartition));
    assert_eq!(store.evict_before("payments", 0, 5), Err(StoreError::UnknownPartition));
    assert_eq!(store.end_offset("orders", 0), Ok(0));
}

#[test]
fn partitions_are_independent() {
    let mut store = LogStore::new();
    store.ensure_partition("orders", 0);
    store.ensure_partition("orders", 1);
    store.ensure_partition("payments", 0);
    assert_eq!(store.append("orders", 0, vec![1], vec![1, 1], 0), Ok(0));
    assert_eq!(store.append("orders", 0, vec![1], vec![2, 2], 0), Ok(1));
    assert_eq!(store.append("orders", 1, vec![1], vec![3], 0), Ok(0));
    assert_eq!(store.append("payments", 0, vec![], vec![4], 0), Ok(0));
    assert_eq!(store.current_size_bytes("orders", 0), Ok(6));
    assert_eq!(store.current_size_bytes("orders", 1), Ok(2));
    assert_eq!(store.current_size_bytes("payments", 0), Ok(1));

    assert_eq!(store.evict_before("orders", 0, 1), Ok(3));
    assert_eq!(store.start_offset("orders", 0), Ok(1));
    assert_eq!(store.start_offset("orders", 1), Ok(0));
    assert_eq!(store.start_offset("payments", 0), Ok(0));
    let read = store.read_range("orders", 0, 1, 10).unwrap();
    assert_eq!(read.len(), 1);
    assert_eq!(read[0].payload, vec![2, 2]);
    assert_eq!(
        store.read_range("orders", 0, 0, 10).err(),
        Some(StoreError::BelowRetainedHorizon { horizon: 1 })
    );
}

#[test]
fn sweep_applies_the_policy_to_every_partition() {
    let mut store = LogStore::new();
    store.ensure_partition("orders", 0);
    store.ensure_partition("payments", 0);
    store.ensure_partition("idle", 0);
    for t in [0u64, 100, 200, 300] {
        store.append("orders", 0, vec![], vec![0; 10], t).unwrap();
    }
    for t in [250u64, 300] {
        store.append("payments", 0, vec![], vec![0; 10], t).unwrap();
    }
    store.sweep(&RetentionPolicy::new(150, 15), 310);
    assert_eq!(store.start_offset("orders", 0), Ok(3));
    assert_eq!(store.current_size_bytes("orders", 0), Ok(10));
    assert_eq!(store.start_offset("payments", 0), Ok(1));
    assert_eq!(store.current_size_bytes("payments", 0), Ok(10));
    assert_eq!(store.start_offset("idle", 0), Ok(0));
    assert_eq!(store.end_offset("orders", 0), Ok(4));
}
