//! Errors of the mesh node and the reasons a stream ends.
use vstd::prelude::*;
use crate::events::{PeerId, StreamId};

verus! {

/// What can go wrong when talking to the mesh.
#[derive(Debug, Clone)]
pub enum AviP2pError {
    NotStarted,
    PeerNotFound(PeerId),
    StreamNotFound(StreamId),
    InvalidTopic(String),
    NetworkError(String),
    AlreadySubscribed(String),
    NotSubscribed(String),
    ChannelClosed,
    Io(String),
    Serialization(String),
    InvalidPath(String),
}

/// Why a stream ended.
#[derive(Debug, Clone)]
pub enum StreamCloseReason {
    LocalClose,
    RemoteClose,
    Error(String),
}

} // verus!
