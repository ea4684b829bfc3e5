//! Framing of the byte stream of a connection.
//!
//! Everything sent in either direction is a frame: one tag byte, the length
//! of the body as a little-endian `u32`, and the body. Inside a body, a byte
//! string of variable length is a field: its length as a little-endian `u32`
//! followed by its bytes.

use vstd::bytes::{
    lemma_auto_spec_u32_to_from_le_bytes, lemma_auto_spec_u64_to_from_le_bytes,
    spec_u32_from_le_bytes, spec_u32_to_le_bytes, spec_u64_from_le_bytes, spec_u64_to_le_bytes,
    u32_from_le_bytes, u32_to_le_bytes, u64_from_le_bytes, u64_to_le_bytes,
};
use vstd::prelude::*;
use vstd::slice::{slice_subrange, slice_to_vec};

verus! {

/// Bytes in front of the body of a frame: the tag and the body length.
pub const HEADER_LEN: usize = 5;

/// The longest body a frame may announce. A longer one is a framing
/// violation: the stream is taken to be out of step.
pub const MAX_BODY_LEN: usize = 0x0100_0000;

/// The bytes of a frame.
pub open spec fn frame(tag: u8, body: Seq<u8>) -> Seq<u8> {
    seq![tag] + spec_u32_to_le_bytes(body.len() as u32) + body
}

/// The bytes of a field.
pub open spec fn field(bytes: Seq<u8>) -> Seq<u8> {
    spec_u32_to_le_bytes(bytes.len() as u32) + bytes
}

/// What the front of a byte stream holds.
pub enum FrameView {
    /// Not a whole frame yet: more bytes are needed.
    Incomplete,
    /// A header that announces a body longer than [`MAX_BODY_LEN`].
    Violation,
    /// A whole frame, which takes up the first `consumed` bytes.
    Complete { tag: u8, body: Seq<u8>, consumed: nat },
}

/// What the front of a byte stream holds.
#[derive(Debug, PartialEq, Eq)]
pub enum Frame {
    /// Not a whole frame yet: more bytes are needed.
    Incomplete,
    /// A header that announces a body longer than [`MAX_BODY_LEN`].
    Violation,
    /// A whole frame, which takes up the first `consumed` bytes.
    Complete { tag: u8, body: Vec<u8>, consumed: usize },
}

impl View for Frame {
    type V = FrameView;

    open spec fn view(&self) -> FrameView {
        match self {
            Frame::Incomplete => FrameView::Incomplete,
            Frame::Violation => FrameView::Violation,
            Frame::Complete { tag, body, consumed } => FrameView::Complete {
                tag: *tag,
                body: body@,
                consumed: *consumed as nat,
            },
        }
    }
}

/// The body length that the header at the front of a stream announces.
pub open spec fn announced_len(stream: Seq<u8>) -> nat {
    spec_u32_from_le_bytes(stream.subrange(1, HEADER_LEN as int)) as nat
}

/// What the front of a byte stream holds.
pub open spec fn parse_frame(stream: Seq<u8>) -> FrameView {
    if stream.len() < HEADER_LEN {
        FrameView::Incomplete
    } else if announced_len(stream) > MAX_BODY_LEN {
        FrameView::Violation
    } else if stream.len() < HEADER_LEN + announced_len(stream) {
        FrameView::Incomplete
    } else {
        FrameView::Complete {
            tag: stream[0],
            body: stream.subrange(HEADER_LEN as int, HEADER_LEN + announced_len(stream)),
            consumed: (HEADER_LEN + announced_len(stream)) as nat,
        }
    }
}

/// The field at the front of some bytes and the bytes after it, if the bytes
/// start with a whole field.
pub open spec fn split_field(bytes: Seq<u8>) -> Option<(Seq<u8>, Seq<u8>)> {
    if bytes.len() < 4 {
        None
    } else {
        let len = spec_u32_from_le_bytes(bytes.subrange(0, 4)) as int;
        if bytes.len() < 4 + len {
            None
        } else {
            Some((bytes.subrange(4, 4 + len), bytes.subrange(4 + len, bytes.len() as int)))
        }
    }
}

/// The little-endian `u64` at the front of some bytes and the bytes after
/// it, if there are eight bytes.
pub open spec fn split_u64(bytes: Seq<u8>) -> Option<(u64, Seq<u8>)> {
    if bytes.len() < 8 {
        None
    } else {
        Some((spec_u64_from_le_bytes(bytes.subrange(0, 8)), bytes.subrange(8, bytes.len() as int)))
    }
}

/// A frame followed by anything is read back as that frame.
pub proof fn lemma_frame_round_trip(tag: u8, body: Seq<u8>, rest: Seq<u8>)
    requires
        body.len() <= MAX_BODY_LEN,
    ensures
        frame(tag, body).len() == HEADER_LEN + body.len(),
        parse_frame(frame(tag, body) + rest) == (FrameView::Complete {
            tag,
            body,
            consumed: (HEADER_LEN + body.len()) as nat,
        }),
{
    lemma_auto_spec_u32_to_from_le_bytes();
    let stream = frame(tag, body) + rest;
    assert(stream.subrange(1, HEADER_LEN as int) == spec_u32_to_le_bytes(body.len() as u32));
    assert(stream.subrange(HEADER_LEN as int, HEADER_LEN + body.len()) == body);
}

/// A frame cut short is never mistaken for a frame: every proper prefix of a
/// frame is incomplete.
pub proof fn lemma_frame_prefix_incomplete(tag: u8, body: Seq<u8>, len: int)
    requires
        body.len() <= MAX_BODY_LEN,
        0 <= len < HEADER_LEN + body.len(),
    ensures
        parse_frame(frame(tag, body).take(len)) == FrameView::Incomplete,
{
    lemma_auto_spec_u32_to_from_le_bytes();
    let prefix = frame(tag, body).take(len);
    if len >= HEADER_LEN {
        assert(prefix.subrange(1, HEADER_LEN as int) == spec_u32_to_le_bytes(body.len() as u32));
    }
}

/// A field followed by anything is split into the field's bytes and what
/// follows.
pub proof fn lemma_field_round_trip(bytes: Seq<u8>, rest: Seq<u8>)
    requires
        bytes.len() <= u32::MAX,
    ensures
        field(bytes).len() == 4 + bytes.len(),
        split_field(field(bytes) + rest) == Some((bytes, rest)),
{
    lemma_auto_spec_u32_to_from_le_bytes();
    let all = field(bytes) + rest;
    assert(all.subrange(0, 4) == spec_u32_to_le_bytes(bytes.len() as u32));
    assert(all.subrange(4, 4 + bytes.len() as int) == bytes);
    assert(all.subrange(4 + bytes.len() as int, all.len() as int) == rest);
}

/// A `u64` followed by anything is split into the number and what follows.
pub proof fn lemma_u64_round_trip(value: u64, rest: Seq<u8>)
    ensures
        spec_u64_to_le_bytes(value).len() == 8,
        split_u64(spec_u64_to_le_bytes(value) + rest) == Some((value, rest)),
{
    lemma_auto_spec_u64_to_from_le_bytes();
    let all = spec_u64_to_le_bytes(value) + rest;
    assert(all.subrange(0, 8) == spec_u64_to_le_bytes(value));
    assert(all.subrange(8, all.len() as int) == rest);
}

/// Appends bytes to a buffer.
pub fn put_bytes(out: &mut Vec<u8>, bytes: &[u8])
    ensures
        final(out)@ == old(out)@ + bytes@,
{
    let mut i: usize = 0;
    while i < bytes.len()
        invariant
            i <= bytes.len(),
            out@ == old(out)@ + bytes@.subrange(0, i as int),
        decreases bytes.len() - i,
    {
        out.push(bytes[i]);
        i = i + 1;
        assert(out@ == old(out)@ + bytes@.subrange(0, i as int));
    }
    assert(bytes@.subrange(0, bytes.len() as int) == bytes@);
}

/// Appends a `u64`, little-endian, to a buffer.
pub fn put_u64(out: &mut Vec<u8>, value: u64)
    ensures
        final(out)@ == old(out)@ + spec_u64_to_le_bytes(value),
{
    let mut encoded = u64_to_le_bytes(value);
    out.append(&mut encoded);
}

/// Appends a field to a buffer.
pub fn put_field(out: &mut Vec<u8>, bytes: &[u8])
    requires
        bytes@.len() <= u32::MAX,
    ensures
        final(out)@ == old(out)@ + field(bytes@),
{
    let mut len = u32_to_le_bytes(bytes.len() as u32);
    out.append(&mut len);
    put_bytes(out, bytes);
    assert(out@ == old(out)@ + field(bytes@));
}

/// Takes the `u64` at the front of some bytes.
pub fn take_u64(bytes: &[u8]) -> (taken: Option<(u64, &[u8])>)
    ensures
        match taken {
            Some((value, rest)) => split_u64(bytes@) == Some((value, rest@)),
            None => split_u64(bytes@) is None,
        },
{
    if bytes.len() < 8 {
        return None;
    }
    let value = u64_from_le_bytes(slice_subrange(bytes, 0, 8));
    Some((value, slice_subrange(bytes, 8, bytes.len())))
}

/// Takes the field at the front of some bytes.
pub fn take_field(bytes: &[u8]) -> (taken: Option<(&[u8], &[u8])>)
    ensures
        match taken {
            Some((inner, rest)) => split_field(bytes@) == Some((inner@, rest@)),
            None => split_field(bytes@) is None,
        },
{
    if bytes.len() < 4 {
        return None;
    }
    let len = u32_from_le_bytes(slice_subrange(bytes, 0, 4)) as usize;
    if bytes.len() - 4 < len {
        return None;
    }
    Some((slice_subrange(bytes, 4, 4 + len), slice_subrange(bytes, 4 + len, bytes.len())))
}

/// Wraps a body into a frame, or gives `None` when the body is longer than
/// [`MAX_BODY_LEN`].
pub fn write_frame(tag: u8, body: &[u8]) -> (bytes: Option<Vec<u8>>)
    ensures
        match bytes {
            Some(framed) => body@.len() <= MAX_BODY_LEN && framed@ == frame(tag, body@),
            None => body@.len() > MAX_BODY_LEN,
        },
{
    if body.len() > MAX_BODY_LEN {
        return None;
    }
    let mut framed: Vec<u8> = Vec::new();
    framed.push(tag);
    let mut len = u32_to_le_bytes(body.len() as u32);
    framed.append(&mut len);
    put_bytes(&mut framed, body);
    assert(framed@ == frame(tag, body@));
    Some(framed)
}

/// Looks for a frame at the front of what has been received so far.
pub fn read_frame(stream: &[u8]) -> (found: Frame)
    ensures
        found@ == parse_frame(stream@),
{
    if stream.len() < HEADER_LEN {
        return Frame::Incomplete;
    }
    let announced = u32_from_le_bytes(slice_subrange(stream, 1, HEADER_LEN)) as usize;
    if announced > MAX_BODY_LEN {
        return Frame::Violation;
    }
    if stream.len() - HEADER_LEN < announced {
        return Frame::Incomplete;
    }
    let body = slice_to_vec(slice_subrange(stream, HEADER_LEN, HEADER_LEN + announced));
    Frame::Complete { tag: stream[0], body, consumed: HEADER_LEN + announced }
}

} // verus!
