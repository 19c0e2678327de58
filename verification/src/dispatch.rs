//! Bookkeeping of the stream dispatcher: which stream purposes ("reasons")
//! have a handler factory, and which streams are live with which peer.
use vstd::prelude::*;
use crate::events::{PeerId, StreamId};
use std::collections::HashMap;
use crate::keyed::{entry_map, find_key};
use crate::text::{decimal, join2, u64_decimal};

verus! {

/// "No handler registered for reason: " followed by the reason.
pub open spec fn no_factory_text(reason: Seq<char>) -> Seq<char> {
    "No handler registered for reason: "@ + reason
}

/// "No handler found for stream " followed by the stream number.
pub open spec fn no_handler_text(id: u64) -> Seq<char> {
    "No handler found for stream "@ + decimal(id as nat)
}

pub fn no_factory_message(reason: &str) -> (r: String)
    ensures
        r@ == no_factory_text(reason@),
{
    join2("No handler registered for reason: ", reason)
}

pub fn no_handler_message(id: StreamId) -> (r: String)
    ensures
        r@ == no_handler_text(id.0),
{
    let n = u64_decimal(id.0);
    join2("No handler found for stream ", n.as_str())
}

/// A live stream: the reason it was opened for and the peer at the other end.
#[derive(Debug, Clone)]
pub struct ActiveStream {
    pub reason: String,
    pub peer: PeerId,
}

/// Registered reasons and live streams.
pub struct StreamRegistry {
    reasons: Vec<(String, ())>,
    active: HashMap<u64, ActiveStream>,
}

impl StreamRegistry {
    pub closed spec fn reasons(&self) -> Set<Seq<char>> {
        entry_map(self.reasons@).dom()
    }

    pub closed spec fn active(&self) -> Map<u64, ActiveStream> {
        self.active@
    }

    pub fn new() -> (r: Self)
        ensures
            r.reasons() == Set::<Seq<char>>::empty(),
            r.active() == Map::<u64, ActiveStream>::empty(),
    {
        let r = StreamRegistry { reasons: Vec::new(), active: HashMap::new() };
        proof {
            assert(entry_map(r.reasons@).dom() =~= Set::<Seq<char>>::empty());
        }
        r
    }

    /// Records that streams opened for `reason` have a handler factory.
    pub fn register_handler(&mut self, reason: String)
        ensures
            final(self).reasons() == old(self).reasons().insert(reason@),
            final(self).active() == old(self).active(),
    {
        let ghost k = reason@;
        crate::keyed::put(&mut self.reasons, reason, ());
        proof { assert(entry_map(self.reasons@).dom() =~= entry_map(old(self).reasons@).dom().insert(k)); }
    }

    /// Whether a stream for `reason` can be handled (requested or accepted).
    pub fn handles(&self, reason: &str) -> (r: bool)
        ensures
            r == self.reasons().contains(reason@),
    {
        find_key(&self.reasons, reason).is_some()
    }

    /// Decision on an incoming stream request: `Ok` to accept it when a
    /// factory is registered for its reason, otherwise the refusal message.
    pub fn decide_incoming(&self, reason: &str) -> (r: Result<(), String>)
        ensures
            self.reasons().contains(reason@) ==> r is Ok,
            !self.reasons().contains(reason@) ==> (r matches Err(m) && m@ == no_factory_text(reason@)),
    {
        if self.handles(reason) {
            Ok(())
        } else {
            Err(no_factory_message(reason))
        }
    }

    /// Records a live stream (accepted inbound, or requested outbound).
    pub fn record_active(&mut self, stream_id: StreamId, reason: String, peer: PeerId)
        ensures
            final(self).active() == old(self).active().insert(stream_id.0, ActiveStream { reason, peer }),
            final(self).reasons() == old(self).reasons(),
    {
        self.active.insert(stream_id.0, ActiveStream { reason, peer });
    }

    /// The peer confirmed a stream we requested: its peer is recorded again.
    /// Unknown streams give the "no handler" message.
    pub fn on_accepted(&mut self, peer: PeerId, stream_id: StreamId) -> (r: Result<(), String>)
        ensures
            final(self).reasons() == old(self).reasons(),
            old(self).active().dom().contains(stream_id.0) ==> r is Ok
                && final(self).active() == old(self).active().insert(stream_id.0,
                    ActiveStream { peer, ..old(self).active()[stream_id.0] }),
            !old(self).active().dom().contains(stream_id.0) ==> (r matches Err(m) && m@ == no_handler_text(stream_id.0))
                && final(self).active() == old(self).active(),
    {
        let reason = match self.active.get(&stream_id.0) {
            Some(a) => a.reason.clone(),
            None => return Err(no_handler_message(stream_id)),
        };
        proof { assert(reason@ == old(self).active()[stream_id.0].reason@); }
        let updated = ActiveStream { reason, peer };
        self.active.insert(stream_id.0, updated);
        Ok(())
    }

    /// The live stream's record, for data that arrived on it.
    pub fn on_data(&self, stream_id: StreamId) -> (r: Result<ActiveStream, String>)
        ensures
            self.active().dom().contains(stream_id.0) ==> (r matches Ok(a)
                && a.reason@ == self.active()[stream_id.0].reason@ && a.peer == self.active()[stream_id.0].peer),
            !self.active().dom().contains(stream_id.0) ==> (r matches Err(m) && m@ == no_handler_text(stream_id.0)),
    {
        match self.active.get(&stream_id.0) {
            Some(a) => Ok(ActiveStream { reason: a.reason.clone(), peer: a.peer.clone() }),
            None => Err(no_handler_message(stream_id)),
        }
    }

    /// A stream ended (rejected or closed): its record is removed and
    /// returned.
    pub fn on_finished(&mut self, stream_id: StreamId) -> (r: Result<ActiveStream, String>)
        ensures
            final(self).reasons() == old(self).reasons(),
            final(self).active() == old(self).active().remove(stream_id.0),
            old(self).active().dom().contains(stream_id.0) ==> r == Ok::<ActiveStream, String>(old(self).active()[stream_id.0]),
            !old(self).active().dom().contains(stream_id.0) ==> (r matches Err(m) && m@ == no_handler_text(stream_id.0)),
    {
        match self.active.remove(&stream_id.0) {
            Some(a) => Ok(a),
            None => Err(no_handler_message(stream_id)),
        }
    }
}

} // verus!
