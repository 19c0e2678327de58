//! Peer and stream identifiers, and the events a node reports.
use vstd::prelude::*;
use crate::error::StreamCloseReason;
use crate::json::JsonValue;

verus! {

/// A peer's identity in its base58 text form.
#[derive(Debug, Hash, PartialEq, Eq)]
pub struct PeerId(pub String);

impl Clone for PeerId {
    fn clone(&self) -> (r: Self)
        ensures
            r == *self,
    {
        PeerId(self.0.clone())
    }
}

impl PeerId {
    pub fn new(id: &str) -> (r: Self)
        ensures
            r.0@ == id@,
    {
        PeerId(id.to_owned())
    }

    pub fn as_str(&self) -> (r: &str)
        ensures
            r@ == self.0@,
    {
        self.0.as_str()
    }

    /// The identity as owned text (what `Display` prints).
    pub fn to_string(&self) -> (r: String)
        ensures
            r@ == self.0@,
    {
        self.0.clone()
    }
}

/// A stream's number, unique on the node that opened it.
#[derive(Clone, Copy, Debug, Hash, PartialEq, Eq, Structural)]
pub struct StreamId(pub u64);

/// What the node reports to the application.
#[derive(Debug, Clone)]
pub enum AviEvent {
    Started { local_peer_id: PeerId, listen_addresses: Vec<String> },
    PeerDiscovered { peer_id: PeerId },
    PeerConnected { peer_id: PeerId, address: String },
    PeerDisconnected { peer_id: PeerId },
    Message { from: PeerId, topic: String, data: Vec<u8> },
    StreamRequested { from: PeerId, stream_id: StreamId, reason: String },
    StreamAccepted { peer_id: PeerId, stream_id: StreamId },
    StreamRejected { peer_id: PeerId, stream_id: StreamId, reason: String },
    StreamData { from: PeerId, stream_id: StreamId, data: Vec<u8> },
    StreamClosed { peer_id: PeerId, stream_id: StreamId, reason: StreamCloseReason },
    ContextUpdated { peer_id: PeerId, context: JsonValue },
}

} // verus!
