//! Messages of the peer-to-peer stream protocol and their wire framing:
//! each message travels as a 4-byte big-endian length followed by its
//! encoded bytes.
use vstd::prelude::*;
use crate::events::StreamId;

verus! {

/// Name under which peers negotiate the stream protocol.
pub const STREAM_PROTOCOL: &'static str = "/avi/stream/1.0.0";

/// Largest frame body a peer accepts (10 MiB).
pub const MAX_FRAME_LEN: usize = 10485760;

/// A stream protocol message.
#[derive(Debug, Clone, PartialEq, Eq)]
pub enum StreamMessage {
    RequestStream { stream_id: u64, reason: String },
    AcceptStream { stream_id: u64 },
    RejectStream { stream_id: u64, reason: String },
    StreamData { stream_id: u64, data: Vec<u8> },
    CloseStream { stream_id: u64 },
}

pub open spec fn message_stream(m: StreamMessage) -> u64 {
    match m {
        StreamMessage::RequestStream { stream_id, .. } => stream_id,
        StreamMessage::AcceptStream { stream_id } => stream_id,
        StreamMessage::RejectStream { stream_id, .. } => stream_id,
        StreamMessage::StreamData { stream_id, .. } => stream_id,
        StreamMessage::CloseStream { stream_id } => stream_id,
    }
}

impl StreamMessage {
    /// The stream the message is about.
    pub fn stream_id(&self) -> (r: StreamId)
        ensures
            r.0 == message_stream(*self),
    {
        match self {
            StreamMessage::RequestStream { stream_id, .. } => StreamId(*stream_id),
            StreamMessage::AcceptStream { stream_id } => StreamId(*stream_id),
            StreamMessage::RejectStream { stream_id, .. } => StreamId(*stream_id),
            StreamMessage::StreamData { stream_id, .. } => StreamId(*stream_id),
            StreamMessage::CloseStream { stream_id } => StreamId(*stream_id),
        }
    }
}

/// The value of four bytes read as a big-endian number.
pub open spec fn be_value(b: Seq<u8>) -> nat {
    b[0] as nat * 16777216 + b[1] as nat * 65536 + b[2] as nat * 256 + b[3] as nat
}

/// The length written in front of a body of `len` bytes: the length modulo
/// 2^32, big-endian.
pub fn length_prefix(len: usize) -> (r: [u8; 4])
    ensures
        be_value(r@) == len as nat % 4294967296,
{
    let v: u64 = (len as u64) % 4294967296;
    let b0: u8 = (v / 16777216) as u8;
    let b1: u8 = ((v / 65536) % 256) as u8;
    let b2: u8 = ((v / 256) % 256) as u8;
    let b3: u8 = (v % 256) as u8;
    let r = [b0, b1, b2, b3];
    assert(be_value(r@) == v) by (nonlinear_arith)
        requires
            v < 4294967296,
            b0 == v / 16777216,
            b1 == (v / 65536) % 256,
            b2 == (v / 256) % 256,
            b3 == v % 256,
            r@[0] == b0, r@[1] == b1, r@[2] == b2, r@[3] == b3,
    {}
    r
}

/// The body length announced by a frame's prefix, or `None` when it exceeds
/// the limit ("Message too large").
pub fn frame_length(prefix: [u8; 4]) -> (r: Option<usize>)
    ensures
        be_value(prefix@) <= MAX_FRAME_LEN ==> r == Some(be_value(prefix@) as usize),
        be_value(prefix@) > MAX_FRAME_LEN ==> r is None,
{
    let v: u64 = (prefix[0] as u64) * 16777216 + (prefix[1] as u64) * 65536 + (prefix[2] as u64) * 256 + (prefix[3] as u64);
    if v > 10485760 {
        None
    } else {
        Some(v as usize)
    }
}

/// A whole frame: the length prefix followed by the body.
pub fn frame(body: &Vec<u8>) -> (r: Vec<u8>)
    ensures
        r@.len() == body@.len() + 4,
        be_value(r@.take(4)) == body@.len() % 4294967296,
        r@.skip(4) == body@,
{
    let prefix = length_prefix(body.len());
    let mut out: Vec<u8> = Vec::new();
    out.push(prefix[0]);
    out.push(prefix[1]);
    out.push(prefix[2]);
    out.push(prefix[3]);
    let mut i: usize = 0;
    while i < body.len()
        invariant
            i <= body.len(),
            out@.len() == i + 4,
            out@.take(4) == prefix@,
            out@.skip(4) == body@.take(i as int),
        decreases body.len() - i,
    {
        proof {
            assert(out@.push(body@[i as int]).take(4) =~= out@.take(4));
            assert(out@.push(body@[i as int]).skip(4) =~= out@.skip(4).push(body@[i as int]));
            assert(body@.take(i + 1) =~= body@.take(i as int).push(body@[i as int]));
        }
        out.push(body[i]);
        i += 1;
    }
    proof {
        assert(body@.take(body.len() as int) =~= body@);
    }
    out
}

/// A body length that fits the limit survives the trip through the prefix.
pub proof fn lemma_length_round_trip(len: usize, prefix: [u8; 4])
    requires
        len <= MAX_FRAME_LEN,
        be_value(prefix@) == len as nat % 4294967296,
    ensures
        be_value(prefix@) == len,
{
}

} // verus!
