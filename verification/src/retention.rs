//! The retention policy and the sweep that enforces it on a partition log.
//!
//! A sweep only ever removes a prefix of the log, so that no gap can appear.
//! It first removes the leading messages that have outlived `max_age`, then
//! goes on removing the oldest message while more than `max_bytes` are
//! retained.

use crate::log::{
    lemma_total_size_split, lemma_total_size_take_next, total_size, LogView, PartitionLog,
};
use crate::message::MessageView;
use vstd::prelude::*;

verus! {

/// Bounds on what a partition retains: an age in milliseconds and a byte
/// ceiling. Either bound is switched off by setting it to `u64::MAX`.
#[derive(Clone, Copy, Debug, PartialEq, Eq, Structural)]
pub struct RetentionPolicy {
    pub max_age: u64,
    pub max_bytes: u64,
}

/// Whether a message has outlived `max_age` at time `now`. A message stamped
/// later than `now` has not.
pub open spec fn expired(message: MessageView, now: nat, max_age: nat) -> bool {
    now - message.timestamp > max_age
}

/// `cut` is the number of leading messages the age rule removes: they have
/// all expired, and the message after them, if any, has not.
pub open spec fn is_age_cut(messages: Seq<MessageView>, now: nat, max_age: nat, cut: int) -> bool {
    &&& 0 <= cut <= messages.len()
    &&& forall|i: int| 0 <= i < cut ==> expired(#[trigger] messages[i], now, max_age)
    &&& cut < messages.len() ==> !expired(messages[cut], now, max_age)
}

/// `cut` is the number of leading messages removed once the byte rule has
/// run after `from` of them were already removed: what is kept fits in
/// `max_bytes`, and keeping any one message more would not.
pub open spec fn is_byte_cut(messages: Seq<MessageView>, max_bytes: nat, from: int, cut: int) -> bool {
    &&& 0 <= from <= cut <= messages.len()
    &&& total_size(messages.skip(cut)) <= max_bytes
    &&& forall|k: int| from <= k < cut ==> total_size(#[trigger] messages.skip(k)) > max_bytes
}

/// The number of leading messages the age rule removes.
pub open spec fn age_cut(messages: Seq<MessageView>, now: nat, max_age: nat) -> int {
    choose|cut: int| is_age_cut(messages, now, max_age, cut)
}

/// The number of leading messages removed after the byte rule, starting from
/// `from` removed ones.
pub open spec fn byte_cut(messages: Seq<MessageView>, max_bytes: nat, from: int) -> int {
    choose|cut: int| is_byte_cut(messages, max_bytes, from, cut)
}

/// The number of leading messages a sweep removes: the age rule first, then
/// the byte rule.
pub open spec fn retention_cut(messages: Seq<MessageView>, policy: RetentionPolicy, now: nat) -> int {
    byte_cut(messages, policy.max_bytes as nat, age_cut(messages, now, policy.max_age as nat))
}

/// Timestamps never decrease from one message to the next.
pub open spec fn timestamps_ordered(messages: Seq<MessageView>) -> bool {
    forall|i: int, j: int|
        0 <= i <= j < messages.len() ==> (#[trigger] messages[i]).timestamp <= (
        #[trigger] messages[j]).timestamp
}

impl LogView {
    /// The offset below which a sweep evicts.
    pub open spec fn eviction_boundary(self, policy: RetentionPolicy, now: nat) -> nat {
        (self.start + retention_cut(self.messages, policy, now)) as nat
    }

    /// The log after a sweep.
    pub open spec fn sweep(self, policy: RetentionPolicy, now: nat) -> LogView {
        self.evict_before(self.eviction_boundary(policy, now))
    }
}

/// The age rule admits exactly one cut.
pub proof fn lemma_age_cut_unique(messages: Seq<MessageView>, now: nat, max_age: nat, cut: int)
    requires
        is_age_cut(messages, now, max_age, cut),
    ensures
        age_cut(messages, now, max_age) == cut,
{
    let chosen = age_cut(messages, now, max_age);
    assert(is_age_cut(messages, now, max_age, chosen));
    if chosen < cut {
        assert(expired(messages[chosen], now, max_age));
    } else if cut < chosen {
        assert(expired(messages[cut], now, max_age));
    }
}

/// The byte rule admits exactly one cut.
pub proof fn lemma_byte_cut_unique(messages: Seq<MessageView>, max_bytes: nat, from: int, cut: int)
    requires
        is_byte_cut(messages, max_bytes, from, cut),
    ensures
        byte_cut(messages, max_bytes, from) == cut,
{
    let chosen = byte_cut(messages, max_bytes, from);
    assert(is_byte_cut(messages, max_bytes, from, chosen));
    if chosen < cut {
        assert(total_size(messages.skip(chosen)) > max_bytes);
    } else if cut < chosen {
        assert(total_size(messages.skip(cut)) > max_bytes);
    }
}

/// Both rules always have a cut, so `age_cut`, `byte_cut` and `retention_cut`
/// denote the cuts the rules describe.
pub proof fn lemma_cuts_exist(messages: Seq<MessageView>, policy: RetentionPolicy, now: nat)
    ensures
        is_age_cut(messages, now, policy.max_age as nat, age_cut(messages, now, policy.max_age as nat)),
        is_byte_cut(
            messages,
            policy.max_bytes as nat,
            age_cut(messages, now, policy.max_age as nat),
            retention_cut(messages, policy, now),
        ),
{
    let by_age = lemma_age_cut_exists(messages, now, policy.max_age as nat, 0);
    lemma_age_cut_unique(messages, now, policy.max_age as nat, by_age);
    let by_bytes = lemma_byte_cut_exists(messages, policy.max_bytes as nat, by_age, by_age);
    lemma_byte_cut_unique(messages, policy.max_bytes as nat, by_age, by_bytes);
}

proof fn lemma_age_cut_exists(messages: Seq<MessageView>, now: nat, max_age: nat, scanned: int) -> (cut:
    int)
    requires
        0 <= scanned <= messages.len(),
        forall|i: int| 0 <= i < scanned ==> expired(#[trigger] messages[i], now, max_age),
    ensures
        is_age_cut(messages, now, max_age, cut),
    decreases messages.len() - scanned,
{
    if scanned < messages.len() && expired(messages[scanned], now, max_age) {
        lemma_age_cut_exists(messages, now, max_age, scanned + 1)
    } else {
        scanned
    }
}

proof fn lemma_byte_cut_exists(messages: Seq<MessageView>, max_bytes: nat, from: int, scanned: int) -> (cut:
    int)
    requires
        0 <= from <= scanned <= messages.len(),
        forall|k: int| from <= k < scanned ==> total_size(#[trigger] messages.skip(k)) > max_bytes,
    ensures
        is_byte_cut(messages, max_bytes, from, cut),
    decreases messages.len() - scanned,
{
    if total_size(messages.skip(scanned)) > max_bytes {
        if scanned == messages.len() {
            assert(messages.skip(scanned).len() == 0);
        }
        lemma_byte_cut_exists(messages, max_bytes, from, scanned + 1)
    } else {
        scanned
    }
}

/// After a sweep the partition retains at most `max_bytes` bytes, and what it
/// retains is the part of the log from the eviction boundary on: the oldest
/// messages are the ones that went.
pub proof fn lemma_sweep_within_bytes(log: LogView, policy: RetentionPolicy, now: nat)
    ensures
        log.sweep(policy, now).size_bytes() <= policy.max_bytes,
        log.start <= log.sweep(policy, now).start <= log.end(),
        log.sweep(policy, now).end() == log.end(),
        log.sweep(policy, now).messages == log.messages.skip(
            log.sweep(policy, now).start - log.start,
        ),
{
    lemma_cuts_exist(log.messages, policy, now);
}

/// After a sweep the oldest retained message, if there is one, has not
/// expired; and where timestamps never decrease, no retained message has.
pub proof fn lemma_sweep_drops_expired(log: LogView, policy: RetentionPolicy, now: nat)
    ensures
        log.sweep(policy, now).messages.len() > 0 && (timestamps_ordered(log.messages)
            || retention_cut(log.messages, policy, now) == age_cut(
            log.messages,
            now,
            policy.max_age as nat,
        )) ==> !expired(log.sweep(policy, now).messages[0], now, policy.max_age as nat),
        timestamps_ordered(log.messages) ==> forall|i: int|
            0 <= i < log.sweep(policy, now).messages.len() ==> !expired(
                #[trigger] log.sweep(policy, now).messages[i],
                now,
                policy.max_age as nat,
            ),
{
    lemma_cuts_exist(log.messages, policy, now);
    let by_age = age_cut(log.messages, now, policy.max_age as nat);
    let cut = retention_cut(log.messages, policy, now);
    let kept = log.sweep(policy, now).messages;
    assert(kept == log.messages.skip(cut));
    if timestamps_ordered(log.messages) {
        assert forall|i: int| 0 <= i < kept.len() implies !expired(
            #[trigger] kept[i],
            now,
            policy.max_age as nat,
        ) by {
            assert(kept[i] == log.messages[cut + i]);
            assert(log.messages[by_age].timestamp <= log.messages[cut + i].timestamp);
        }
    }
}

/// A sweep keeps every message that has not expired, has no unexpired
/// message before it out of timestamp order, and fits in `max_bytes`
/// together with all that follow it: such a message stays readable.
pub proof fn lemma_sweep_keeps_fresh(log: LogView, policy: RetentionPolicy, now: nat, index: int)
    requires
        0 <= index < log.messages.len(),
        !expired(log.messages[index], now, policy.max_age as nat),
        total_size(log.messages.skip(index)) <= policy.max_bytes,
    ensures
        retention_cut(log.messages, policy, now) <= index,
        log.contiguous() ==> log.sweep(policy, now).resident(log.messages[index].offset),
{
    lemma_cuts_exist(log.messages, policy, now);
    let by_age = age_cut(log.messages, now, policy.max_age as nat);
    let cut = retention_cut(log.messages, policy, now);
    if index < by_age {
        assert(expired(log.messages[index], now, policy.max_age as nat));
    }
    if index < cut {
        assert(total_size(log.messages.skip(index)) > policy.max_bytes);
    }
}

/// A sweep that finds nothing to evict changes nothing: when the oldest
/// message has not expired and the log fits in `max_bytes`, the log after
/// the sweep is the log before it.
pub proof fn lemma_sweep_noop(log: LogView, policy: RetentionPolicy, now: nat)
    requires
        log.messages.len() == 0 || !expired(log.messages[0], now, policy.max_age as nat),
        log.size_bytes() <= policy.max_bytes,
    ensures
        log.sweep(policy, now) == log,
{
    assert(log.messages.skip(0) == log.messages);
    assert(is_age_cut(log.messages, now, policy.max_age as nat, 0));
    lemma_age_cut_unique(log.messages, now, policy.max_age as nat, 0);
    assert(is_byte_cut(log.messages, policy.max_bytes as nat, 0, 0));
    lemma_byte_cut_unique(log.messages, policy.max_bytes as nat, 0, 0);
}

impl RetentionPolicy {
    /// A policy with both bounds.
    pub fn new(max_age: u64, max_bytes: u64) -> (policy: RetentionPolicy)
        ensures
            policy == (RetentionPolicy { max_age, max_bytes }),
    {
        RetentionPolicy { max_age, max_bytes }
    }

    /// A policy that bounds the age only.
    pub fn by_age(max_age: u64) -> (policy: RetentionPolicy)
        ensures
            policy == (RetentionPolicy { max_age, max_bytes: u64::MAX }),
    {
        RetentionPolicy { max_age, max_bytes: u64::MAX }
    }

    /// A policy that bounds the byte count only.
    pub fn by_bytes(max_bytes: u64) -> (policy: RetentionPolicy)
        ensures
            policy == (RetentionPolicy { max_age: u64::MAX, max_bytes }),
    {
        RetentionPolicy { max_age: u64::MAX, max_bytes }
    }

    /// Whether a message stamped `timestamp` has outlived `max_age` at `now`.
    pub fn is_expired(&self, timestamp: u64, now: u64) -> (gone: bool)
        ensures
            gone == (now - timestamp > self.max_age),
    {
        now > timestamp && now - timestamp > self.max_age
    }

    /// Computes the offset below which a sweep at time `now` evicts.
    pub fn eviction_boundary(&self, log: &PartitionLog, now: u64) -> (boundary: u64)
        requires
            log.wf(),
        ensures
            boundary == log@.eviction_boundary(*self, now as nat),
            log@.start <= boundary <= log@.end(),
    {
        let ghost messages = log@.messages;
        let count = log.len();
        let mut cut: usize = 0;
        let mut evicted_bytes: u64 = 0;
        while cut < count && self.is_expired(log.entry(cut).timestamp, now)
            invariant
                log.wf(),
                messages == log@.messages,
                count == messages.len(),
                cut <= count,
                evicted_bytes == total_size(messages.take(cut as int)),
                forall|i: int|
                    0 <= i < cut ==> expired(#[trigger] messages[i], now as nat, self.max_age as nat),
            decreases count - cut,
        {
            proof {
                lemma_total_size_take_next(messages, cut as int);
            }
            evicted_bytes = evicted_bytes + log.entry_size(cut);
            cut = cut + 1;
        }
        let ghost by_age = cut as int;
        proof {
            lemma_age_cut_unique(messages, now as nat, self.max_age as nat, by_age);
            lemma_total_size_split(messages, by_age);
        }
        let mut retained: u64 = log.current_size_bytes() - evicted_bytes;
        while retained > self.max_bytes
            invariant
                log.wf(),
                messages == log@.messages,
                count == messages.len(),
                by_age <= cut <= count,
                retained == total_size(messages.skip(cut as int)),
                forall|k: int|
                    by_age <= k < cut ==> total_size(#[trigger] messages.skip(k)) > self.max_bytes,
            decreases count - cut,
        {
            if cut == count {
                assert(messages.skip(cut as int).len() == 0);
            }
            proof {
                lemma_total_size_take_next(messages, cut as int);
            }
            retained = retained - log.entry_size(cut);
            cut = cut + 1;
        }
        proof {
            lemma_byte_cut_unique(messages, self.max_bytes as nat, by_age, cut as int);
        }
        log.start_offset() + cut as u64
    }

    /// Sweeps a partition: evicts below the eviction boundary and returns the
    /// number of bytes freed. Sweeping a log with nothing to evict changes
    /// nothing and frees nothing.
    pub fn sweep(&self, log: &mut PartitionLog, now: u64) -> (freed: u64)
        requires
            old(log).wf(),
        ensures
            final(log).wf(),
            final(log)@ == old(log)@.sweep(*self, now as nat),
            freed == old(log)@.size_bytes() - final(log)@.size_bytes(),
            final(log)@.size_bytes() <= self.max_bytes,
    {
        proof {
            lemma_sweep_within_bytes(log@, *self, now as nat);
        }
        let boundary = self.eviction_boundary(log, now);
        log.evict_before(boundary)
    }
}

} // verus!
