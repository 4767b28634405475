//! The outer transport framing: `[frame_len: u16 BE][inner message]`, each
//! record answered by the two-byte acknowledgment `OK`.

use vstd::prelude::*;
use crate::bytes::{u16_be, be_u16, u16_from_be, push_all, copy_range, lemma_u16_be_round_trip};
use crate::message::{ChatMessage, MessageView, encode_spec, decode_spec, length_for, content_seq, lemma_decode_encode};

verus! {

/// Largest inner record accepted for control, chat and direct messages.
pub const MAX_MESSAGE_SIZE: usize = 8192;

/// Largest inner record that the 16-bit outer length can describe.
pub const MAX_FRAME_SIZE: usize = 65535;

/// Size of the pieces in which a record body is written.
pub const CHUNK_SIZE: usize = 8192;

#[derive(Debug, Clone, Copy, PartialEq, Eq, Structural)]
pub enum FrameError {
    /// The record does not fit, or exceeds the reader's cap.
    TooLarge,
    /// The bytes end before the record does.
    Truncated,
    /// The peer answered something other than `OK`.
    BadAck,
}

/// Why reading a record from a stream stopped.
#[derive(Debug, Clone, Copy, PartialEq, Eq, Structural)]
pub enum TcpMessageHandlerError {
    /// The stream failed, or the record broke the framing rules.
    IoError,
    /// The peer closed the stream.
    Disconnect,
}

impl FrameError {
    /// How a framing failure ends a read: always as a stream error.
    pub fn as_read_error(self) -> (r: TcpMessageHandlerError)
        ensures
            r == TcpMessageHandlerError::IoError,
    {
        TcpMessageHandlerError::IoError
    }
}

/// The full wire record for a message: outer length, then the inner encoding.
pub open spec fn frame_spec(m: MessageView) -> Seq<u8> {
    u16_be(encode_spec(m).len() as u16) + encode_spec(m)
}

/// The acknowledgment bytes `OK`.
pub open spec fn ack_spec() -> Seq<u8> {
    seq![79u8, 75u8]
}

/// The outer length read from a record header, if the reader's cap admits it.
pub open spec fn body_len_spec(b0: u8, b1: u8, cap: usize) -> Result<usize, FrameError> {
    if be_u16(b0, b1) as int > cap as int {
        Err(FrameError::TooLarge)
    } else {
        Ok(be_u16(b0, b1) as usize)
    }
}

/// What a reader with cap `cap` takes from the front of `w`.
pub open spec fn unframe_spec(w: Seq<u8>, cap: usize) -> Result<MessageView, FrameError> {
    if w.len() < 2 {
        Err(FrameError::Truncated)
    } else if be_u16(w[0], w[1]) as int > cap as int {
        Err(FrameError::TooLarge)
    } else if w.len() < 2 + be_u16(w[0], w[1]) {
        Err(FrameError::Truncated)
    } else {
        Ok(decode_spec(w.subrange(2, 2 + be_u16(w[0], w[1]))))
    }
}

/// The wire record for `m`; fails when the inner encoding exceeds the 16-bit
/// outer length.
pub fn frame_message(m: &ChatMessage) -> (r: Result<Vec<u8>, FrameError>)
    ensures
        r is Ok <==> encode_spec(m@).len() <= MAX_FRAME_SIZE,
        r matches Ok(b) ==> b@ == frame_spec(m@),
        r matches Err(e) ==> e == FrameError::TooLarge,
{
    let body = m.encode();
    if body.len() > MAX_FRAME_SIZE {
        return Err(FrameError::TooLarge);
    }
    let n = body.len() as u16;
    let mut out: Vec<u8> = Vec::new();
    out.push((n >> 8u16) as u8);
    out.push(n as u8);
    push_all(&mut out, body.as_slice());
    assert(out@ =~= frame_spec(m@));
    Ok(out)
}

/// Reads the outer length from a record header, rejecting one over `cap`
/// before anything is allocated for it.
pub fn read_body_len(b0: u8, b1: u8, cap: usize) -> (r: Result<usize, FrameError>)
    ensures
        r == body_len_spec(b0, b1, cap),
{
    let n = u16_from_be(b0, b1) as usize;
    if n > cap {
        Err(FrameError::TooLarge)
    } else {
        Ok(n)
    }
}

/// Reads one record from the front of `wire`.
pub fn unframe(wire: &[u8], cap: usize) -> (r: Result<ChatMessage, FrameError>)
    ensures
        r is Ok <==> unframe_spec(wire@, cap) is Ok,
        r matches Ok(m) ==> unframe_spec(wire@, cap) == Ok::<MessageView, FrameError>(m@),
        r matches Err(e) ==> unframe_spec(wire@, cap) == Err::<MessageView, FrameError>(e),
{
    if wire.len() < 2 {
        return Err(FrameError::Truncated);
    }
    let n = read_body_len(wire[0], wire[1], cap)?;
    if wire.len() - 2 < n {
        return Err(FrameError::Truncated);
    }
    let body = copy_range(wire, 2, 2 + n);
    Ok(ChatMessage::decode(body.as_slice()))
}

/// The acknowledgment a reader writes after each record.
pub fn ack_bytes() -> (r: Vec<u8>)
    ensures
        r@ == ack_spec(),
{
    let mut r: Vec<u8> = Vec::new();
    r.push(79u8);
    r.push(75u8);
    assert(r@ =~= ack_spec());
    r
}

/// Checks the two bytes a writer reads back after a record.
pub fn check_ack(b: &[u8]) -> (r: Result<(), FrameError>)
    ensures
        r is Ok <==> b@ == ack_spec(),
        r matches Err(e) ==> e == FrameError::BadAck,
{
    if b.len() == 2 && b[0] == 79u8 && b[1] == 75u8 {
        assert(b@ =~= ack_spec());
        Ok(())
    } else {
        Err(FrameError::BadAck)
    }
}

/// How many bytes the next write of a body takes, `done` bytes being written.
pub fn next_chunk_len(total: usize, done: usize) -> (r: usize)
    requires
        done <= total,
    ensures
        r == if total - done < CHUNK_SIZE { total - done } else { CHUNK_SIZE as int },
{
    let rest = total - done;
    if rest < CHUNK_SIZE {
        rest
    } else {
        CHUNK_SIZE
    }
}

/// A message written as a record and read back by a reader whose cap admits
/// it is the message itself; the record is the inner encoding of
/// `4 + 1 + |content|` bytes behind a two-byte outer length. (Present but empty
/// content reads back as absent, and an `Unknown` kind with a named tag reads
/// back as the named kind: both are left out.)
pub proof fn lemma_unframe_frame(m: MessageView, cap: usize)
    requires
        m.0 == length_for(m.2),
        m.1.is_canonical(),
        m.2 matches Some(c) ==> c.len() > 0,
        encode_spec(m).len() <= cap,
        cap <= MAX_FRAME_SIZE,
    ensures
        unframe_spec(frame_spec(m), cap) == Ok::<MessageView, FrameError>(m),
        frame_spec(m).len() == 2 + 4 + 1 + content_seq(m.2).len(),
        be_u16(frame_spec(m)[0], frame_spec(m)[1]) == 4 + 1 + content_seq(m.2).len(),
{
    let e = encode_spec(m);
    let f = frame_spec(m);
    lemma_decode_encode(m);
    lemma_u16_be_round_trip(e.len() as u16);
    assert(f[0] == u16_be(e.len() as u16)[0] && f[1] == u16_be(e.len() as u16)[1]);
    assert(f.subrange(2, 2 + e.len() as int) =~= e);
}

} // verus!
