//! The record stored in a partition log.

use vstd::prelude::*;

verus! {

/// Mathematical model of a [`Message`].
pub struct MessageView {
    pub offset: nat,
    pub key: Seq<u8>,
    pub payload: Seq<u8>,
    pub timestamp: nat,
}

impl MessageView {
    /// Bytes a message accounts for in its partition: key plus payload.
    pub open spec fn size(self) -> nat {
        self.key.len() + self.payload.len()
    }
}

/// An immutable record of a partition.
///
/// `offset` is assigned at append time and is unique within the partition,
/// `key` is used only for routing, and `timestamp` is the wall-clock time of
/// the append in milliseconds.
#[derive(Debug)]
pub struct Message {
    pub offset: u64,
    pub key: Vec<u8>,
    pub payload: Vec<u8>,
    pub timestamp: u64,
}

impl View for Message {
    type V = MessageView;

    open spec fn view(&self) -> MessageView {
        MessageView {
            offset: self.offset as nat,
            key: self.key@,
            payload: self.payload@,
            timestamp: self.timestamp as nat,
        }
    }
}

/// Copies a byte string.
pub fn copy_bytes(src: &Vec<u8>) -> (dst: Vec<u8>)
    ensures
        dst@ == src@,
{
    let mut dst: Vec<u8> = Vec::with_capacity(src.len());
    let mut i: usize = 0;
    while i < src.len()
        invariant
            i <= src.len(),
            dst@ == src@.subrange(0, i as int),
        decreases src.len() - i,
    {
        dst.push(src[i]);
        i = i + 1;
        assert(dst@ == src@.subrange(0, i as int));
    }
    assert(src@.subrange(0, src.len() as int) == src@);
    dst
}

impl Message {
    /// Bytes this message accounts for, or `None` when the sum of the key and
    /// payload lengths does not fit in a `u64`.
    pub fn size_bytes(&self) -> (size: Option<u64>)
        ensures
            match size {
                Some(n) => n == self@.size(),
                None => self@.size() > u64::MAX,
            },
    {
        (self.key.len() as u64).checked_add(self.payload.len() as u64)
    }

    /// An independent copy with the same contents.
    pub fn duplicate(&self) -> (copy: Message)
        ensures
            copy@ == self@,
    {
        Message {
            offset: self.offset,
            key: copy_bytes(&self.key),
            payload: copy_bytes(&self.payload),
            timestamp: self.timestamp,
        }
    }
}

} // verus!
