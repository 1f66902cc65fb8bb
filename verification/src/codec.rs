//! Framing of messages on a byte stream: each message starts with the
//! marker and its total length on two octets.
use vstd::prelude::*;
use bytes::{Buf, BytesMut};
use crate::error::BgpError;
use crate::types::{
    marker_seq, message_type_from_code, validate_message_length, BgpValidationError, MessageType,
    MARKER, MIN_MESSAGE_LENGTH,
};
use crate::wire::{
    be_bytes, be_value, lemma_be_bytes_len, lemma_be_roundtrip_small, push_all, push_u16, read_u16,
};

verus! {

#[verifier::external_type_specification]
#[verifier::external_body]
pub struct ExBytesMut(BytesMut);

/// The bytes a buffer holds.
pub uninterp spec fn buffer_bytes(b: BytesMut) -> Seq<u8>;

/// The number of bytes in `b` (`BytesMut::len`).
#[verifier::external_body]
fn buffer_len(b: &BytesMut) -> (r: usize)
    ensures
        r == buffer_bytes(*b).len(),
{
    b.len()
}

/// A copy of the first `n` bytes of `b` (slicing through `Deref`).
#[verifier::external_body]
fn buffer_prefix(b: &BytesMut, n: usize) -> (r: Vec<u8>)
    requires
        n <= buffer_bytes(*b).len(),
    ensures
        r@ == buffer_bytes(*b).take(n as int),
{
    b[0..n].to_vec()
}

/// Drops the first `n` bytes of `b` (`Buf::advance`, which panics past the
/// end).
#[verifier::external_body]
fn buffer_advance(b: &mut BytesMut, n: usize)
    requires
        n <= buffer_bytes(*old(b)).len(),
    ensures
        buffer_bytes(*final(b)) == buffer_bytes(*old(b)).skip(n as int),
{
    b.advance(n)
}

/// Makes room for `n` more bytes in `b` (`BytesMut::reserve`, which panics
/// where the capacity would overflow); the bytes held do not change.
#[verifier::external_body]
fn buffer_reserve(b: &mut BytesMut, n: usize)
    requires
        buffer_bytes(*old(b)).len() + n <= usize::MAX,
    ensures
        buffer_bytes(*final(b)) == buffer_bytes(*old(b)),
{
    b.reserve(n)
}

/// Appends `s` to `b` (`BytesMut::extend_from_slice`).
#[verifier::external_body]
fn buffer_extend(b: &mut BytesMut, s: &[u8])
    requires
        buffer_bytes(*old(b)).len() + s@.len() <= usize::MAX,
    ensures
        buffer_bytes(*final(b)) == buffer_bytes(*old(b)) + s@,
{
    b.extend_from_slice(s)
}

/// What the framing does with the bytes received so far.
pub enum FrameDecision {
    /// Wait for more bytes.
    Wait,
    /// Refuse the stream with this error.
    Refuse(BgpValidationError),
    /// Take a message of this many bytes off the front.
    Take(nat),
}

/// The framing decision on the bytes `s` received so far: wait while a
/// header is incomplete; refuse a wrong marker, a length out of bounds,
/// or (once the whole message is there) an unknown type; else take the
/// message.
pub open spec fn frame_decision(s: Seq<u8>) -> FrameDecision {
    if s.len() < 19 {
        FrameDecision::Wait
    } else if s.take(16) != marker_seq() {
        FrameDecision::Refuse(BgpValidationError::InvalidMarker)
    } else {
        let length = be_value(s.subrange(16, 18));
        if length < 19 {
            FrameDecision::Refuse(
                BgpValidationError::MessageTooShort { actual: length as usize, minimum: 19 },
            )
        } else if length > 4096 {
            FrameDecision::Refuse(
                BgpValidationError::MessageTooLong { actual: length as usize, maximum: 4096 },
            )
        } else if s.len() < length {
            FrameDecision::Wait
        } else if message_type_from_code(s[18]) is None {
            FrameDecision::Refuse(BgpValidationError::InvalidMessageType(s[18]))
        } else {
            FrameDecision::Take(length)
        }
    }
}

/// The frame of `data` (a type octet and a body): the marker, the total
/// length on two octets, then `data`.
pub open spec fn frame_wire(data: Seq<u8>) -> Seq<u8> {
    marker_seq() + be_bytes((data.len() + 18) as nat, 2) + data
}

/// Splits a byte stream into messages and frames outgoing ones.
pub struct BGPMessageCodec;

impl BGPMessageCodec {
    /// Takes the next message off the front of `src` (see
    /// [`frame_decision`]): `Ok(None)` while more bytes are needed, the
    /// framed message once it is complete; `src` is left unchanged unless a
    /// message is taken.
    pub fn decode(&mut self, src: &mut BytesMut) -> (r: Result<Option<Vec<u8>>, BgpError>)
        ensures
            match frame_decision(buffer_bytes(*old(src))) {
                FrameDecision::Wait => r matches Ok(None) && buffer_bytes(*final(src))
                    == buffer_bytes(*old(src)),
                FrameDecision::Refuse(e) => (r matches Err(BgpError::Validation(e2)) && e2 == e)
                    && buffer_bytes(*final(src)) == buffer_bytes(*old(src)),
                FrameDecision::Take(n) => (r matches Ok(Some(f)) && f@ == buffer_bytes(
                    *old(src),
                ).take(n as int)) && buffer_bytes(*final(src)) == buffer_bytes(*old(src)).skip(
                    n as int,
                ),
            },
    {
        let len = buffer_len(src);
        if len < MIN_MESSAGE_LENGTH {
            return Ok(None);
        }
        let head = buffer_prefix(src, 19);
        let ghost s = buffer_bytes(*src);
        let mut i: usize = 0;
        while i < 16
            invariant
                i <= 16,
                s.len() >= 19,
                s == buffer_bytes(*old(src)),
                buffer_bytes(*src) == buffer_bytes(*old(src)),
                head@ == s.take(19),
                forall|k: int| 0 <= k < i ==> head@[k] == 0xffu8,
            decreases 16 - i,
        {
            if head[i] != 0xff {
                proof {
                    assert(s.take(16)[i as int] != marker_seq()[i as int]);
                }
                return Err(BgpError::Validation(BgpValidationError::InvalidMarker));
            }
            i = i + 1;
        }
        assert(s.take(16) =~= marker_seq());
        let length = read_u16(head.as_slice(), 16) as usize;
        assert(head@.subrange(16, 18) =~= s.subrange(16, 18));
        match validate_message_length(length) {
            Ok(()) => {},
            Err(e) => return Err(BgpError::Validation(e)),
        }
        if len < length {
            return Ok(None);
        }
        if MessageType::from_u8(head[18]).is_none() {
            return Err(BgpError::Validation(BgpValidationError::InvalidMessageType(head[18])));
        }
        let data = buffer_prefix(src, length);
        buffer_advance(src, length);
        Ok(Some(data))
    }

    /// Frames `data` (a type octet and a body) onto the end of `buf`: the
    /// marker, the total length, then `data`. A total length out of bounds
    /// is refused and `buf` is left as it was.
    pub fn encode(&mut self, data: Vec<u8>, buf: &mut BytesMut) -> (r: Result<(), BgpError>)
        requires
            buffer_bytes(*old(buf)).len() + data@.len() + 18 <= usize::MAX,
        ensures
            19 <= data@.len() + 18 <= 4096 ==> r is Ok && buffer_bytes(*final(buf))
                == buffer_bytes(*old(buf)) + frame_wire(data@),
            data@.len() + 18 < 19 ==> (r matches Err(
                BgpError::Validation(BgpValidationError::MessageTooShort { actual, minimum }),
            ) && actual == data@.len() + 18 && minimum == 19) && buffer_bytes(*final(buf))
                == buffer_bytes(*old(buf)),
            data@.len() + 18 > 4096 ==> (r matches Err(
                BgpError::Validation(BgpValidationError::MessageTooLong { actual, maximum }),
            ) && actual == data@.len() + 18 && maximum == 4096) && buffer_bytes(*final(buf))
                == buffer_bytes(*old(buf)),
    {
        let total_length = data.len() + 18;
        match validate_message_length(total_length) {
            Ok(()) => {},
            Err(e) => return Err(BgpError::Validation(e)),
        }
        buffer_reserve(buf, total_length);
        let mut frame: Vec<u8> = Vec::new();
        push_all(&mut frame, &MARKER);
        push_u16(&mut frame, total_length as u16);
        push_all(&mut frame, data.as_slice());
        proof {
            assert(MARKER@ =~= marker_seq());
            assert(frame@ =~= frame_wire(data@));
            lemma_be_bytes_len((data@.len() + 18) as nat, 2);
        }
        buffer_extend(buf, frame.as_slice());
        Ok(())
    }
}

/// A framed message is taken back whole: framing `data` whose first octet
/// is a known message type and whose frame fits the length limits, then
/// deciding on the frame followed by any further bytes, takes exactly the
/// frame.
pub proof fn lemma_frame_roundtrip(data: Seq<u8>, rest: Seq<u8>)
    requires
        1 <= data.len(),
        data.len() + 18 <= 4096,
        message_type_from_code(data[0]) is Some,
    ensures
        frame_decision(frame_wire(data) + rest) == FrameDecision::Take((data.len() + 18) as nat),
        (frame_wire(data) + rest).take((data.len() + 18) as int) == frame_wire(data),
{
    let n = (data.len() + 18) as nat;
    let s = frame_wire(data) + rest;
    lemma_be_bytes_len(n, 2);
    assert(crate::wire::pow256(2) == 65536) by {
        reveal_with_fuel(crate::wire::pow256, 3);
    }
    lemma_be_roundtrip_small(n, 2);
    assert(s.take(16) =~= marker_seq());
    assert(s.subrange(16, 18) =~= be_bytes(n, 2));
    assert(s[18] == data[0]);
    assert(s.take(n as int) =~= frame_wire(data));
}

} // verus!
