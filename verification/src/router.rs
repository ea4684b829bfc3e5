//! The partition router: a pure function from a message key to the index of
//! the partition responsible for it.

use vstd::prelude::*;

verus! {

/// Initial state of the 64-bit FNV-1a hash.
pub const FNV_OFFSET_BASIS: u64 = 0xcbf2_9ce4_8422_2325;

/// Multiplier of the 64-bit FNV-1a hash.
pub const FNV_PRIME: u64 = 0x0000_0100_0000_01b3;

/// Partition that receives every message published without a key.
pub const DEFAULT_PARTITION: u32 = 0;

/// One round of FNV-1a: fold the byte into the state, then multiply modulo 2^64.
pub open spec fn hash_step(state: u64, byte: u8) -> u64 {
    (state ^ (byte as u64)).wrapping_mul(FNV_PRIME)
}

/// The 64-bit FNV-1a hash of a key, folding its bytes from first to last.
pub open spec fn key_hash(key: Seq<u8>) -> u64
    decreases key.len(),
{
    if key.len() == 0 {
        FNV_OFFSET_BASIS
    } else {
        hash_step(key_hash(key.drop_last()), key.last())
    }
}

/// The partition a key belongs to among `total_partitions` partitions.
///
/// A non-empty key goes to its hash modulo the partition count; the empty key
/// goes to [`DEFAULT_PARTITION`].
pub open spec fn partition_of(key: Seq<u8>, total_partitions: u32) -> u32 {
    if key.len() == 0 {
        DEFAULT_PARTITION
    } else {
        (key_hash(key) % (total_partitions as u64)) as u32
    }
}

/// Computes the FNV-1a hash of `key`.
pub fn hash_key(key: &[u8]) -> (hash: u64)
    ensures
        hash == key_hash(key@),
{
    let mut state: u64 = FNV_OFFSET_BASIS;
    let mut i: usize = 0;
    while i < key.len()
        invariant
            i <= key.len(),
            state == key_hash(key@.subrange(0, i as int)),
        decreases key.len() - i,
    {
        let ghost prefix = key@.subrange(0, i as int + 1);
        assert(prefix.drop_last() == key@.subrange(0, i as int));
        assert(prefix.last() == key@[i as int]);
        state = (state ^ (key[i] as u64)).wrapping_mul(FNV_PRIME);
        i = i + 1;
    }
    assert(key@.subrange(0, key.len() as int) == key@);
    state
}

/// Routes a message to a partition of its topic.
///
/// The topic takes no part in the choice: every topic is sharded the same
/// way, so equal keys meet in the partition of the same index whatever the
/// topic. The result is a function of `key` and `total_partitions` alone, which
/// is what keeps the messages of one key in one partition, and so in order.
pub fn route(topic: &str, key: &[u8], total_partitions: u32) -> (partition: u32)
    requires
        total_partitions > 0,
    ensures
        partition == partition_of(key@, total_partitions),
        partition < total_partitions,
{
    if key.len() == 0 {
        DEFAULT_PARTITION
    } else {
        let hash = hash_key(key);
        (hash % (total_partitions as u64)) as u32
    }
}

} // verus!
