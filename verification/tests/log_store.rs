use rafka_core::log::{PartitionLog, StoreError};

fn bytes(text: &str) -> Vec<u8> {
    text.as_bytes().to_vec()
}

#[test]
fn new_log_is_empty_at_offset_zero() {
    let log = PartitionLog::new();
    assert_eq!(log.start_offset(), 0);
    assert_eq!(log.end_offset(), 0);
    assert_eq!(log.len(), 0);
    assert!(log.is_empty());
    assert_eq!(log.current_size_bytes(), 0);
}

#[test]
fn append_assigns_consecutive_offsets() {
    let mut log = PartitionLog::new();
    assert_eq!(log.append(bytes("k"), bytes("a"), 10), Ok(0));
    assert_eq!(log.append(bytes("k"), bytes("b"), 11), Ok(1));
    assert_eq!(log.append(bytes(""), bytes("c"), 12), Ok(2));
    assert_eq!(log.end_offset(), 3);
    assert_eq!(log.len(), 3);
    assert!(!log.is_empty());
}

#[test]
fn append_accounts_key_and_payload_bytes() {
    let mut log = PartitionLog::new();
    log.append(bytes("key"), bytes("payload"), 1).unwrap();
    assert_eq!(log.current_size_bytes(), 10);
    assert_eq!(log.get(0).unwrap().size_bytes(), Some(10));
    log.append(bytes(""), bytes("xy"), 2).unwrap();
    assert_eq!(log.current_size_bytes(), 12);
    assert_eq!(log.get(1).unwrap().size_bytes(), Some(2));
}

#[test]
fn get_holds_what_was_appended() {
    let mut log = PartitionLog::new();
    log.append(bytes("k1"), bytes("P1"), 77).unwrap();
    let message = log.get(0).unwrap();
    assert_eq!(message.offset, 0);
    assert_eq!(message.key, bytes("k1"));
    assert_eq!(message.payload, bytes("P1"));
    assert_eq!(message.timestamp, 77);
}

#[test]
fn read_range_returns_resident_messages_in_order() {
    let mut log = PartitionLog::new();
    for i in 0..5u8 {
        log.append(vec![i], vec![i, i], i as u64).unwrap();
    }
    let read = log.read_range(1, 3).unwrap();
    assert_eq!(read.len(), 3);
    assert_eq!(read[0].offset, 1);
    assert_eq!(read[1].offset, 2);
    assert_eq!(read[2].offset, 3);
    assert_eq!(read[2].payload, vec![3, 3]);
    let tail = log.read_range(3, 100).unwrap();
    assert_eq!(tail.len(), 2);
    assert_eq!(tail[1].offset, 4);
    assert_eq!(log.read_range(0, 0).unwrap().len(), 0);
}

#[test]
fn read_range_past_the_end_is_empty_not_an_error() {
    let mut log = PartitionLog::new();
    log.append(bytes("k"), bytes("v"), 1).unwrap();
    assert_eq!(log.read_range(1, 10).unwrap().len(), 0);
    assert_eq!(log.read_range(900, 10).unwrap().len(), 0);
}

#[test]
fn read_range_below_horizon_is_refused() {
    let mut log = PartitionLog::new();
    for i in 0..4u8 {
        log.append(vec![], vec![i], 0).unwrap();
    }
    log.evict_before(2);
    match log.read_range(1, 10) {
        Err(error) => assert_eq!(error, StoreError::BelowRetainedHorizon { horizon: 2 }),
        Ok(_) => panic!("offset 1 was evicted"),
    }
    assert_eq!(log.read_range(2, 10).unwrap().len(), 2);
}

#[test]
fn evict_before_removes_whole_messages_and_reports_bytes() {
    let mut log = PartitionLog::new();
    log.append(bytes("aa"), bytes("bbb"), 0).unwrap();
    log.append(bytes("c"), bytes("d"), 0).unwrap();
    log.append(bytes(""), bytes("eeee"), 0).unwrap();
    assert_eq!(log.evict_before(2), 7);
    assert_eq!(log.start_offset(), 2);
    assert_eq!(log.end_offset(), 3);
    assert_eq!(log.current_size_bytes(), 4);
    assert_eq!(log.get(2).unwrap().offset, 2);
}

#[test]
fn evict_before_never_moves_back_nor_past_the_end() {
    let mut log = PartitionLog::new();
    for i in 0..3u8 {
        log.append(vec![], vec![i], 0).unwrap();
    }
    assert_eq!(log.evict_before(1), 1);
    assert_eq!(log.evict_before(0), 0);
    assert_eq!(log.start_offset(), 1);
    assert_eq!(log.evict_before(50), 2);
    assert_eq!(log.start_offset(), 3);
    assert_eq!(log.end_offset(), 3);
    assert!(log.is_empty());
    assert_eq!(log.current_size_bytes(), 0);
}

#[test]
fn offsets_stay_gap_free_across_evictions_and_appends() {
    let mut log = PartitionLog::new();
    for i in 0..6u8 {
        log.append(vec![], vec![i], 0).unwrap();
    }
    log.evict_before(4);
    assert_eq!(log.append(vec![], vec![9], 0), Ok(6));
    log.evict_before(5);
    assert_eq!(log.append(vec![], vec![9], 0), Ok(7));
    let all = log.read_range(log.start_offset(), usize::MAX).unwrap();
    assert_eq!(all.len() as u64, log.end_offset() - log.start_offset());
    for (i, message) in all.iter().enumerate() {
        assert_eq!(message.offset, log.start_offset() + i as u64);
    }
}

#[test]
fn get_tells_gone_from_not_there_yet() {
    let mut log = PartitionLog::new();
    for i in 0..4u8 {
        log.append(vec![], vec![i], 0).unwrap();
    }
    log.evict_before(2);
    assert_eq!(log.get(1).err(), Some(StoreError::BelowRetainedHorizon { horizon: 2 }));
    assert_eq!(log.get(0).err(), Some(StoreError::BelowRetainedHorizon { horizon: 2 }));
    assert_eq!(log.get(2).unwrap().payload, vec![2]);
    assert_eq!(log.get(3).unwrap().payload, vec![3]);
    assert_eq!(log.get(4).err(), Some(StoreError::NotYetAppended { end: 4 }));
    assert_eq!(log.get(u64::MAX).err(), Some(StoreError::NotYetAppended { end: 4 }));
}

#[test]
fn no_gap_invariant() {
    let mut log = PartitionLog::new();
    let mut next = 0u64;
    for round in 0..6u64 {
        for _ in 0..(round + 2) {
            assert_eq!(log.append(vec![1], vec![2, 3], round), Ok(next));
            next += 1;
        }
        log.evict_before(round * 3);
        assert_eq!(log.end_offset(), next);
        assert_eq!(log.len() as u64, log.end_offset() - log.start_offset());
        for offset in log.start_offset()..log.end_offset() {
            assert_eq!(log.get(offset).unwrap().offset, offset);
        }
        if log.start_offset() > 0 {
            assert!(log.get(log.start_offset() - 1).is_err());
        }
        assert!(log.get(log.end_offset()).is_err());
    }
}
