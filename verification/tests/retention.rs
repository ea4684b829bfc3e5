use rafka_core::log::{PartitionLog, StoreError};
use rafka_core::retention::RetentionPolicy;

#[test]
fn policy_constructors_set_the_bounds() {
    assert_eq!(RetentionPolicy::new(5, 6), RetentionPolicy { max_age: 5, max_bytes: 6 });
    assert_eq!(RetentionPolicy::by_age(5), RetentionPolicy { max_age: 5, max_bytes: u64::MAX });
    assert_eq!(RetentionPolicy::by_bytes(6), RetentionPolicy { max_age: u64::MAX, max_bytes: 6 });
}

#[test]
fn expiry_is_strictly_older_than_max_age() {
    let policy = RetentionPolicy::by_age(1000);
    assert!(!policy.is_expired(5000, 5500));
    assert!(!policy.is_expired(5000, 6000));
    assert!(policy.is_expired(5000, 6001));
    assert!(!policy.is_expired(5000, 10));
}

#[test]
fn retention_by_age() {
    let policy = RetentionPolicy::by_age(1000);
    let t0 = 10_000u64;
    let mut log = PartitionLog::new();
    let offset = log.append(b"k".to_vec(), b"v".to_vec(), t0).unwrap();

    assert_eq!(policy.sweep(&mut log, t0 + 500), 0);
    let read = log.read_range(offset, 1).unwrap();
    assert_eq!(read.len(), 1);
    assert_eq!(read[0].payload, b"v".to_vec());

    assert_eq!(policy.sweep(&mut log, t0 + 1500), 2);
    assert_eq!(
        log.read_range(offset, 1).err(),
        Some(StoreError::BelowRetainedHorizon { horizon: offset + 1 })
    );
    assert_eq!(
        log.read_range(0, 1).err(),
        Some(StoreError::BelowRetainedHorizon { horizon: offset + 1 })
    );
}

#[test]
fn retention_by_bytes() {
    let policy = RetentionPolicy::by_bytes(100);
    let mut log = PartitionLog::new();
    for i in 0..5u8 {
        log.append(vec![i; 10], vec![i; 20], 0).unwrap();
    }
    assert_eq!(log.current_size_bytes(), 150);
    assert_eq!(policy.eviction_boundary(&log, 0), 2);
    assert_eq!(policy.sweep(&mut log, 0), 60);
    assert_eq!(log.current_size_bytes(), 90);
    assert!(log.current_size_bytes() <= 100);
    assert_eq!(log.start_offset(), 2);
    assert!(log.read_range(1, 1).is_err());
    assert_eq!(log.read_range(2, 10).unwrap().len(), 3);
}

#[test]
fn byte_rule_stops_exactly_at_the_ceiling() {
    let policy = RetentionPolicy::by_bytes(60);
    let mut log = PartitionLog::new();
    for i in 0..4u8 {
        log.append(vec![], vec![i; 30], 0).unwrap();
    }
    assert_eq!(policy.sweep(&mut log, 0), 60);
    assert_eq!(log.current_size_bytes(), 60);
    assert_eq!(log.start_offset(), 2);
}

#[test]
fn age_rule_runs_before_byte_rule() {
    let policy = RetentionPolicy::new(100, 25);
    let mut log = PartitionLog::new();
    log.append(vec![], vec![0; 10], 0).unwrap();
    log.append(vec![], vec![0; 10], 50).unwrap();
    log.append(vec![], vec![0; 10], 190).unwrap();
    log.append(vec![], vec![0; 10], 200).unwrap();
    log.append(vec![], vec![0; 10], 210).unwrap();
    // At 200 the first two have expired; of the three left, 30 bytes, one more goes.
    assert_eq!(policy.eviction_boundary(&log, 200), 3);
    assert_eq!(policy.sweep(&mut log, 200), 30);
    assert_eq!(log.start_offset(), 3);
    assert_eq!(log.current_size_bytes(), 20);
}

#[test]
fn sweep_with_nothing_eligible_is_a_no_op() {
    let policy = RetentionPolicy::new(1000, 1000);
    let mut log = PartitionLog::new();
    assert_eq!(policy.sweep(&mut log, 5), 0);
    log.append(b"k".to_vec(), b"v".to_vec(), 100).unwrap();
    log.append(b"k".to_vec(), b"w".to_vec(), 200).unwrap();
    assert_eq!(policy.sweep(&mut log, 900), 0);
    assert_eq!(log.start_offset(), 0);
    assert_eq!(log.len(), 2);
    assert_eq!(log.current_size_bytes(), 4);
}

#[test]
fn age_rule_stops_at_the_first_message_that_has_not_expired() {
    let policy = RetentionPolicy::by_age(100);
    let mut log = PartitionLog::new();
    log.append(vec![], vec![1], 0).unwrap();
    log.append(vec![], vec![2], 500).unwrap();
    log.append(vec![], vec![3], 10).unwrap();
    assert_eq!(policy.eviction_boundary(&log, 550), 1);
    policy.sweep(&mut log, 550);
    assert_eq!(log.start_offset(), 1);
    assert_eq!(log.len(), 2);
}

#[test]
fn sweep_can_empty_the_log_and_appends_continue_after_it() {
    let policy = RetentionPolicy::by_bytes(0);
    let mut log = PartitionLog::new();
    log.append(vec![1], vec![2], 0).unwrap();
    log.append(vec![1], vec![2], 0).unwrap();
    assert_eq!(policy.sweep(&mut log, 0), 4);
    assert!(log.is_empty());
    assert_eq!(log.start_offset(), 2);
    assert_eq!(log.append(vec![1], vec![2], 0), Ok(2));
}
