//! The node runtime's bookkeeping and decisions: streams, topics, peers and
//! the context store. The network loop performs what these functions decide
//! and reports back what the network did.
use vstd::prelude::*;
use std::cmp::Ordering;
use crate::clock::{clock_order, count, bumped};
use crate::context::{AviContext, ContextModel};
use crate::error::{AviP2pError, StreamCloseReason};
use crate::events::{AviEvent, PeerId, StreamId};
use crate::json::{JsonValue, JsonModel, merged};
use crate::keyed::{entry_map, find_key, remove_named};
use crate::messages::StreamMessage;
use std::collections::HashMap;
use vstd::std_specs::iter::IteratorSpec;

verus! {

/// Topic on which nodes broadcast their contexts.
pub const CONTEXT_TOPIC: &'static str = "avi-context-updates";

/// The number after `id`, wrapping past `u64::MAX` to zero.
pub open spec fn successor(id: u64) -> u64 {
    if id == u64::MAX { 0 } else { (id + 1) as u64 }
}

/// The stream-number counter shared by every node of a process: stream
/// numbers come from one sequence, so no two nodes hand out the same one.
/// The process holds one and lends it to each `request_stream`.
pub struct StreamIdCounter {
    next: u64,
}

impl StreamIdCounter {
    /// The number the counter hands out next.
    pub closed spec fn next(&self) -> u64 {
        self.next
    }

    /// A counter that starts at 1.
    pub fn new() -> (r: Self)
        ensures
            r.next() == 1,
    {
        StreamIdCounter { next: 1 }
    }
}

/// Hands out the counter's next stream number and moves it on, wrapping
/// past `u64::MAX`.
pub fn generate_stream_id(counter: &mut StreamIdCounter) -> (r: StreamId)
    ensures
        r.0 == old(counter).next(),
        final(counter).next() == successor(r.0),
{
    let id = counter.next;
    counter.next = id.wrapping_add(1);
    StreamId(id)
}

/// The numbers `k` calls hand out, starting from `start`.
pub open spec fn handed_out(start: u64, k: nat) -> Seq<u64> {
    Seq::new(k, |i: int| ((start + i) % 0x1_0000_0000_0000_0000) as u64)
}

/// Successive calls on one counter hand out `handed_out(start, k)`, and
/// within a full turn of the counter (2^64 calls) no number comes twice.
pub proof fn lemma_stream_ids_distinct(start: u64, k: nat)
    requires
        k <= 0x1_0000_0000_0000_0000,
    ensures
        k > 0 ==> handed_out(start, k)[0] == start,
        forall|i: int| 0 <= i < k - 1 ==> #[trigger] handed_out(start, k)[i + 1] == successor(handed_out(start, k)[i]),
        forall|i: int, j: int| 0 <= i < j < k ==> #[trigger] handed_out(start, k)[i] != #[trigger] handed_out(start, k)[j],
{
    let m: int = 0x1_0000_0000_0000_0000;
    assert forall|i: int| 0 <= i < k - 1 implies #[trigger] handed_out(start, k)[i + 1] == successor(handed_out(start, k)[i]) by {
        let a: int = start + i;
        assert(a % m == m - 1 ==> (a + 1) % m == 0) by (nonlinear_arith)
            requires 0 <= a, m > 0;
        assert(a % m != m - 1 ==> (a + 1) % m == a % m + 1) by (nonlinear_arith)
            requires 0 <= a, m > 0;
    }
    assert forall|i: int, j: int| 0 <= i < j < k implies #[trigger] handed_out(start, k)[i] != #[trigger] handed_out(start, k)[j] by {
        let m: int = 0x1_0000_0000_0000_0000;
        let a: int = start + i;
        let b: int = start + j;
        assert(0 < b - a < m);
        assert(a % m != b % m) by (nonlinear_arith)
            requires 0 < b - a < m, 0 <= a, m > 0;
    }
}

/// Any run of calls on one counter: `ids` are the numbers successive
/// `generate_stream_id` calls returned (each call returns the counter's
/// `next()`, and the next call sees `successor` of it), starting from
/// `start` (1 for a fresh counter). Within a full turn of the counter they
/// are exactly `handed_out(start, ids.len())`, no number comes twice, and
/// as long as the counter does not pass `u64::MAX` each is larger than every
/// one before it.
pub proof fn lemma_successive_stream_ids(start: u64, ids: Seq<u64>)
    requires
        ids.len() <= 0x1_0000_0000_0000_0000,
        ids.len() > 0 ==> ids[0] == start,
        forall|i: int| 0 <= i < ids.len() - 1 ==> #[trigger] ids[i + 1] == successor(ids[i]),
    ensures
        ids == handed_out(start, ids.len()),
        forall|i: int, j: int| 0 <= i < j < ids.len() ==> #[trigger] ids[i] != #[trigger] ids[j],
        start + ids.len() <= 0x1_0000_0000_0000_0000 ==> forall|i: int, j: int|
            0 <= i < j < ids.len() ==> #[trigger] ids[i] < #[trigger] ids[j],
    decreases ids.len(),
{
    let k = ids.len();
    lemma_stream_ids_distinct(start, k);
    if k > 1 {
        let init = ids.drop_last();
        assert forall|i: int| 0 <= i < init.len() - 1 implies #[trigger] init[i + 1] == successor(init[i]) by {
            assert(init[i + 1] == ids[i + 1]);
            assert(init[i] == ids[i]);
        }
        lemma_successive_stream_ids(start, init);
        lemma_stream_ids_distinct(start, (k - 1) as nat);
        let last: int = k - 2;
        assert(ids[last + 1] == successor(ids[last]));
        assert(handed_out(start, k)[last + 1] == successor(handed_out(start, k)[last]));
        assert(ids[k - 2] == init[k - 2]);
        assert(handed_out(start, k)[k - 2] == handed_out(start, (k - 1) as nat)[k - 2]);
        assert(ids =~= handed_out(start, k)) by {
            assert forall|i: int| 0 <= i < k implies ids[i] == handed_out(start, k)[i] by {
                if i < k - 1 {
                    assert(ids[i] == init[i]);
                    assert(handed_out(start, k)[i] == handed_out(start, (k - 1) as nat)[i]);
                }
            }
        }
    } else if k == 1 {
        assert(ids =~= handed_out(start, k));
    } else {
        assert(ids =~= handed_out(start, k));
    }
    if start + k <= 0x1_0000_0000_0000_0000 {
        assert forall|i: int, j: int| 0 <= i < j < k implies #[trigger] ids[i] < #[trigger] ids[j] by {
            let m: int = 0x1_0000_0000_0000_0000;
            assert((start + i) % m == start + i) by (nonlinear_arith)
                requires 0 <= start + i < m;
            assert((start + j) % m == start + j) by (nonlinear_arith)
                requires 0 <= start + j < m;
            assert(ids[i] == handed_out(start, k)[i]);
            assert(ids[j] == handed_out(start, k)[j]);
        }
    }
}

/// The peer (its identity in base58) that the multiaddr text `s` names in
/// its first `/p2p/` component; `None` when `s` does not parse as a
/// multiaddr or names no peer.
pub uninterp spec fn multiaddr_peer(s: Seq<char>) -> Option<Seq<char>>;

/// The peer a bootstrap address names.
///
/// Trusted: parses `addr` with `str::parse::<libp2p::Multiaddr>` and takes
/// the first `Protocol::P2p` component of `Multiaddr::iter`, rendered with
/// `PeerId::to_base58`; claims only that the outcome depends on the text
/// alone.
#[verifier::external_body]
fn bootstrap_peer_of(addr: &str) -> (r: Option<String>)
    ensures
        r is None <==> multiaddr_peer(addr@) is None,
        r matches Some(p) ==> multiaddr_peer(addr@) == Some(p@),
{
    match addr.parse::<libp2p::Multiaddr>() {
        Ok(ma) => ma.iter().find_map(|part| match part {
            libp2p::multiaddr::Protocol::P2p(id) => Some(id.to_base58()),
            _ => None,
        }),
        Err(_) => None,
    }
}

/// The `(address, peer)` pairs of the bootstrap addresses that name a peer,
/// in the order they were configured.
pub open spec fn bootstrap_pairs(addrs: Seq<String>) -> Seq<(Seq<char>, Seq<char>)>
    decreases addrs.len(),
{
    if addrs.len() == 0 {
        Seq::empty()
    } else {
        let rest = bootstrap_pairs(addrs.drop_last());
        match multiaddr_peer(addrs.last()@) {
            Some(p) => rest.push((addrs.last()@, p)),
            None => rest,
        }
    }
}

/// The texts of a list of string pairs.
pub open spec fn pair_texts(v: Seq<(String, String)>) -> Seq<(Seq<char>, Seq<char>)> {
    Seq::new(v.len(), |i: int| (v[i].0@, v[i].1@))
}

/// Which configured bootstrap addresses the node can seed its routing table
/// with: each that parses and names a peer, paired with that peer, in order.
pub fn bootstrap_targets(peers: &Vec<String>) -> (r: Vec<(String, String)>)
    ensures
        pair_texts(r@) == bootstrap_pairs(peers@),
{
    let mut out: Vec<(String, String)> = Vec::new();
    let mut i: usize = 0;
    proof { assert(pair_texts(out@) =~= Seq::<(Seq<char>, Seq<char>)>::empty()); }
    while i < peers.len()
        invariant
            i <= peers.len(),
            pair_texts(out@) == bootstrap_pairs(peers@.take(i as int)),
        decreases peers.len() - i,
    {
        proof { assert(peers@.take(i + 1).drop_last() =~= peers@.take(i as int)); }
        match bootstrap_peer_of(peers[i].as_str()) {
            Some(p) => {
                let addr = peers[i].clone();
                proof { assert(pair_texts(out@.push((addr, p))) =~= pair_texts(out@).push((addr@, p@))); }
                out.push((addr, p));
            },
            None => {},
        }
        i += 1;
    }
    proof { assert(peers@.take(peers.len() as int) =~= peers@); }
    out
}

/// Whether `s` is the text form of a libp2p peer identity.
pub uninterp spec fn peer_id_text_valid(s: Seq<char>) -> bool;

/// Whether `s` parses as a peer identity.
///
/// Trusted: calls `str::parse::<libp2p::PeerId>` (base58 decoding, then a
/// check of the multihash); claims that the outcome depends on the text
/// alone.
#[verifier::external_body]
fn parses_as_peer_id(s: &str) -> (r: bool)
    ensures
        r == peer_id_text_valid(s@),
{
    s.parse::<libp2p::PeerId>().is_ok()
}

#[derive(Debug, Clone, Copy, PartialEq, Eq, Structural)]
pub enum StreamStatus {
    Requested,
    Accepted,
    Active,
}

#[derive(Debug, Clone, Copy, PartialEq, Eq, Structural)]
pub enum StreamDirection {
    Inbound,
    Outbound,
}

/// What the runtime knows of one stream.
#[derive(Debug, Clone)]
pub struct StreamState {
    pub peer: String,
    pub status: StreamStatus,
    pub direction: StreamDirection,
}

/// Whether an incoming context should replace the stored one: when it is
/// causally newer, or concurrent with a later wall-clock stamp.
pub open spec fn supersedes(incoming: ContextModel, existing: ContextModel) -> bool {
    match clock_order(incoming.clock, existing.clock) {
        Some(Ordering::Greater) => true,
        None => incoming.timestamp > existing.timestamp,
        _ => false,
    }
}

/// Decides whether `incoming` replaces `existing` in the store.
pub fn context_supersedes(incoming: &AviContext, existing: &AviContext) -> (r: bool)
    ensures
        r == supersedes(incoming@, existing@),
{
    match incoming.vector_clock.partial_cmp(&existing.vector_clock) {
        Some(Ordering::Greater) => true,
        None => incoming.timestamp > existing.timestamp,
        _ => false,
    }
}

/// A context never supersedes an identical copy of itself, so a repeated
/// broadcast is not taken as an update.
pub proof fn lemma_no_self_supersede(c: ContextModel)
    ensures
        !supersedes(c, c),
{
    crate::clock::lemma_order_reflexive(c.clock);
}

/// Supersession is never mutual.
pub proof fn lemma_supersede_asymmetric(a: ContextModel, b: ContextModel)
    ensures
        !(supersedes(a, b) && supersedes(b, a)),
{
    crate::clock::lemma_order_flips(a.clock, b.clock);
}

/// The stream a "closed by the remote side" event for `peer` reports.
pub open spec fn remote_close_of(e: AviEvent, peer: PeerId) -> Option<u64> {
    match e {
        AviEvent::StreamClosed { peer_id, stream_id, reason: StreamCloseReason::RemoteClose } =>
            if peer_id == peer { Some(stream_id.0) } else { None },
        _ => None,
    }
}

/// The streams of `m` that are not with `peer`.
pub open spec fn streams_without_peer(m: Map<u64, StreamState>, peer: Seq<char>) -> Map<u64, StreamState> {
    m.restrict(m.dom().filter(|x: u64| m[x].peer@ != peer))
}

/// The runtime's state, apart from the network itself.
pub struct RuntimeState {
    streams: HashMap<u64, StreamState>,
    topics: Vec<(String, ())>,
    peers: Vec<(String, Option<String>)>,
    discovered: Vec<(String, ())>,
    context_store: Vec<(String, AviContext)>,
    local_context: AviContext,
    started: bool,
    known: Vec<(String, String)>,
}

impl RuntimeState {
    pub closed spec fn streams(&self) -> Map<u64, StreamState> {
        self.streams@
    }

    pub closed spec fn topics(&self) -> Set<Seq<char>> {
        entry_map(self.topics@).dom()
    }

    /// Connected peers and the address each was reached at.
    pub closed spec fn peers(&self) -> Map<Seq<char>, Option<String>> {
        entry_map(self.peers@)
    }

    pub closed spec fn discovered(&self) -> Set<Seq<char>> {
        entry_map(self.discovered@).dom()
    }

    pub closed spec fn contexts(&self) -> Map<Seq<char>, AviContext> {
        entry_map(self.context_store@)
    }

    pub closed spec fn local(&self) -> AviContext {
        self.local_context
    }

    pub closed spec fn started(&self) -> bool {
        self.started
    }

    /// The last address each peer was seen at (by discovery or
    /// identification), to dial it again when it drops.
    pub closed spec fn known(&self) -> Map<Seq<char>, String> {
        entry_map(self.known@)
    }

    /// Connected peers, discovered peers and known addresses are as in
    /// `other`.
    pub open spec fn same_network(&self, other: &Self) -> bool {
        &&& self.peers() == other.peers()
        &&& self.discovered() == other.discovered()
        &&& self.known() == other.known()
    }

    /// Subscribed topics, stored contexts, our own context and the started
    /// flag are as in `other`.
    pub open spec fn same_node(&self, other: &Self) -> bool {
        &&& self.topics() == other.topics()
        &&& self.contexts() == other.contexts()
        &&& self.local() == other.local()
        &&& self.started() == other.started()
    }

    /// A fresh runtime for the node `local_peer_id`, its context stamped with
    /// `now`.
    pub fn new_at(local_peer_id: String, now: u64) -> (r: Self)
        ensures
            r.streams() == Map::<u64, StreamState>::empty(),
            r.topics() == Set::<Seq<char>>::empty(),
            r.peers() == Map::<Seq<char>, Option<String>>::empty(),
            r.discovered() == Set::<Seq<char>>::empty(),
            r.contexts() == Map::<Seq<char>, AviContext>::empty(),
            r.local()@ == (ContextModel {
                device_id: local_peer_id@,
                timestamp: now,
                clock: Map::empty(),
                data: crate::context::skeleton(),
            }),
            !r.started(),
            r.known() == Map::<Seq<char>, String>::empty(),
    {
        let r = RuntimeState {
            streams: HashMap::new(),
            topics: Vec::new(),
            peers: Vec::new(),
            discovered: Vec::new(),
            context_store: Vec::new(),
            local_context: AviContext::new_at(local_peer_id, now),
            started: false,
            known: Vec::new(),
        };
        proof {
            assert(entry_map(r.topics@).dom() =~= Set::<Seq<char>>::empty());
            assert(entry_map(r.peers@) =~= Map::<Seq<char>, Option<String>>::empty());
            assert(entry_map(r.discovered@).dom() =~= Set::<Seq<char>>::empty());
            assert(entry_map(r.context_store@) =~= Map::<Seq<char>, AviContext>::empty());
            assert(entry_map(r.known@) =~= Map::<Seq<char>, String>::empty());
        }
        r
    }

    /// A fresh runtime stamped with the current time.
    pub fn new(local_peer_id: String) -> (r: Self)
        ensures
            r.streams() == Map::<u64, StreamState>::empty(),
            r.topics() == Set::<Seq<char>>::empty(),
            r.peers() == Map::<Seq<char>, Option<String>>::empty(),
            r.discovered() == Set::<Seq<char>>::empty(),
            r.contexts() == Map::<Seq<char>, AviContext>::empty(),
            r.known() == Map::<Seq<char>, String>::empty(),
            r.local().device_id@ == local_peer_id@,
            r.local().vector_clock@ == Map::<Seq<char>, u64>::empty(),
            r.local().data@ == crate::context::skeleton(),
            !r.started(),
    {
        let now = crate::context::unix_now();
        Self::new_at(local_peer_id, now)
    }

    /// The node's own context.
    pub fn local_context(&self) -> (r: &AviContext)
        ensures
            *r == self.local(),
    {
        &self.local_context
    }

    pub fn is_subscribed(&self, topic: &str) -> (r: bool)
        ensures
            r == self.topics().contains(topic@),
    {
        find_key(&self.topics, topic).is_some()
    }

    /// Notes that the node now listens on `topic`.
    pub fn record_subscribed(&mut self, topic: String)
        ensures
            final(self).topics() == old(self).topics().insert(topic@),
            final(self).streams() == old(self).streams(),
            final(self).peers() == old(self).peers(),
            final(self).discovered() == old(self).discovered(),
            final(self).contexts() == old(self).contexts(),
            final(self).local() == old(self).local(),
            final(self).started() == old(self).started(),
            final(self).known() == old(self).known(),
    {
        let ghost t = topic@;
        crate::keyed::put(&mut self.topics, topic, ());
        proof { assert(entry_map(self.topics@).dom() =~= entry_map(old(self).topics@).dom().insert(t)); }
    }

    /// Notes that the node no longer listens on `topic`.
    pub fn record_unsubscribed(&mut self, topic: &str)
        ensures
            final(self).topics() == old(self).topics().remove(topic@),
            final(self).streams() == old(self).streams(),
            final(self).peers() == old(self).peers(),
            final(self).discovered() == old(self).discovered(),
            final(self).contexts() == old(self).contexts(),
            final(self).local() == old(self).local(),
            final(self).started() == old(self).started(),
            final(self).known() == old(self).known(),
    {
        remove_named(&mut self.topics, topic);
        proof { assert(entry_map(self.topics@).dom() =~= entry_map(old(self).topics@).dom().remove(topic@)); }
    }

    /// Opens an outbound stream to `peer_id` for `reason`: takes the next
    /// stream number from the process-wide counter `ids` and yields the
    /// request to send. A peer id that does not parse is refused with
    /// `PeerNotFound`, and no number is taken.
    pub fn request_stream(&mut self, ids: &mut StreamIdCounter, peer_id: PeerId, reason: String) -> (r: Result<(StreamId, StreamMessage), AviP2pError>)
        ensures
            final(self).same_network(&*old(self)),
            final(self).same_node(&*old(self)),
            final(self).topics() == old(self).topics(),
            peer_id_text_valid(peer_id.0@) ==> {
                let id = old(ids).next();
                &&& r matches Ok((sid, msg)) && sid.0 == id
                    && msg == (StreamMessage::RequestStream { stream_id: id, reason })
                &&& final(self).streams().dom() == old(self).streams().dom().insert(id)
                &&& final(self).streams()[id].peer@ == peer_id.0@
                &&& final(self).streams()[id].status == StreamStatus::Requested
                &&& final(self).streams()[id].direction == StreamDirection::Outbound
                &&& forall|k: u64| k != id && old(self).streams().dom().contains(k)
                        ==> #[trigger] final(self).streams()[k] == old(self).streams()[k]
                &&& final(ids).next() == successor(id)
            },
            !peer_id_text_valid(peer_id.0@) ==> r == Err::<(StreamId, StreamMessage), AviP2pError>(AviP2pError::PeerNotFound(peer_id))
                && *final(self) == *old(self) && *final(ids) == *old(ids),
    {
        if parses_as_peer_id(peer_id.0.as_str()) {
            let StreamId(id) = generate_stream_id(ids);
            let state = StreamState {
                peer: peer_id.0,
                status: StreamStatus::Requested,
                direction: StreamDirection::Outbound,
            };
            self.streams.insert(id, state);
            Ok((StreamId(id), StreamMessage::RequestStream { stream_id: id, reason }))
        } else {
            Err(AviP2pError::PeerNotFound(peer_id))
        }
    }

    /// Accepts an inbound stream: marks it accepted and yields the message
    /// for its peer.
    pub fn accept_stream(&mut self, stream_id: StreamId) -> (r: Result<(PeerId, StreamMessage), AviP2pError>)
        ensures
            final(self).same_network(&*old(self)),
            final(self).same_node(&*old(self)),
            final(self).topics() == old(self).topics(),
            old(self).streams().dom().contains(stream_id.0) ==> {
                &&& r matches Ok((p, msg)) && p.0@ == old(self).streams()[stream_id.0].peer@
                    && msg == (StreamMessage::AcceptStream { stream_id: stream_id.0 })
                &&& final(self).streams() == old(self).streams().insert(stream_id.0,
                        StreamState { status: StreamStatus::Accepted, ..old(self).streams()[stream_id.0] })
            },
            !old(self).streams().dom().contains(stream_id.0) ==>
                r == Err::<(PeerId, StreamMessage), AviP2pError>(AviP2pError::StreamNotFound(stream_id))
                && *final(self) == *old(self),
    {
        let updated = match self.streams.get(&stream_id.0) {
            Some(s) => StreamState {
                peer: s.peer.clone(),
                status: StreamStatus::Accepted,
                direction: s.direction,
            },
            None => {
                return Err(AviP2pError::StreamNotFound(stream_id));
            },
        };
        let peer = updated.peer.clone();
        self.streams.insert(stream_id.0, updated);
        Ok((PeerId(peer), StreamMessage::AcceptStream { stream_id: stream_id.0 }))
    }

    /// The peer of a known stream.
    fn stream_peer(&self, stream_id: u64) -> (r: Option<String>)
        ensures
            match r {
                Some(p) => self.streams().dom().contains(stream_id) && p@ == self.streams()[stream_id].peer@,
                None => !self.streams().dom().contains(stream_id),
            },
    {
        match self.streams.get(&stream_id) {
            Some(s) => Some(s.peer.clone()),
            None => None,
        }
    }

    /// Data for a known stream, addressed to its peer.
    pub fn send_stream_data(&self, stream_id: StreamId, data: Vec<u8>) -> (r: Result<(PeerId, StreamMessage), AviP2pError>)
        ensures
            self.streams().dom().contains(stream_id.0) ==>
                (r matches Ok((p, msg)) && p.0@ == self.streams()[stream_id.0].peer@
                && msg == (StreamMessage::StreamData { stream_id: stream_id.0, data })),
            !self.streams().dom().contains(stream_id.0) ==>
                r == Err::<(PeerId, StreamMessage), AviP2pError>(AviP2pError::StreamNotFound(stream_id)),
    {
        match self.stream_peer(stream_id.0) {
            Some(p) => Ok((PeerId(p), StreamMessage::StreamData { stream_id: stream_id.0, data })),
            None => Err(AviP2pError::StreamNotFound(stream_id)),
        }
    }

    /// Removes a stream; yields its peer when it was known.
    fn drop_stream(&mut self, stream_id: u64) -> (r: Option<String>)
        ensures
            final(self).streams() == old(self).streams().remove(stream_id),
            final(self).topics() == old(self).topics(),
            final(self).peers() == old(self).peers(),
            final(self).discovered() == old(self).discovered(),
            final(self).contexts() == old(self).contexts(),
            final(self).local() == old(self).local(),
            final(self).started() == old(self).started(),
            final(self).known() == old(self).known(),
            match r {
                Some(p) => old(self).streams().dom().contains(stream_id) && p@ == old(self).streams()[stream_id].peer@,
                None => !old(self).streams().dom().contains(stream_id),
            },
    {
        match self.streams.remove(&stream_id) {
            Some(st) => Some(st.peer),
            None => {
                proof { assert(old(self).streams@ =~= old(self).streams@.remove(stream_id)); }
                None
            },
        }
    }

    /// Refuses a stream: forgets it and yields the rejection for its peer.
    pub fn refuse_stream(&mut self, stream_id: StreamId, reason: String) -> (r: Result<(PeerId, StreamMessage), AviP2pError>)
        ensures
            final(self).same_network(&*old(self)),
            final(self).same_node(&*old(self)),
            final(self).streams() == old(self).streams().remove(stream_id.0),
            old(self).streams().dom().contains(stream_id.0) ==>
                (r matches Ok((p, msg)) && p.0@ == old(self).streams()[stream_id.0].peer@
                && msg == (StreamMessage::RejectStream { stream_id: stream_id.0, reason })),
            !old(self).streams().dom().contains(stream_id.0) ==>
                r == Err::<(PeerId, StreamMessage), AviP2pError>(AviP2pError::StreamNotFound(stream_id)),
    {
        match self.drop_stream(stream_id.0) {
            Some(p) => Ok((PeerId(p), StreamMessage::RejectStream { stream_id: stream_id.0, reason })),
            None => Err(AviP2pError::StreamNotFound(stream_id)),
        }
    }

    /// Closes a stream: forgets it and yields the close message for its peer.
    pub fn close_stream(&mut self, stream_id: StreamId) -> (r: Result<(PeerId, StreamMessage), AviP2pError>)
        ensures
            final(self).same_network(&*old(self)),
            final(self).same_node(&*old(self)),
            final(self).streams() == old(self).streams().remove(stream_id.0),
            old(self).streams().dom().contains(stream_id.0) ==>
                (r matches Ok((p, msg)) && p.0@ == old(self).streams()[stream_id.0].peer@
                && msg == (StreamMessage::CloseStream { stream_id: stream_id.0 })),
            !old(self).streams().dom().contains(stream_id.0) ==>
                r == Err::<(PeerId, StreamMessage), AviP2pError>(AviP2pError::StreamNotFound(stream_id)),
    {
        match self.drop_stream(stream_id.0) {
            Some(p) => Ok((PeerId(p), StreamMessage::CloseStream { stream_id: stream_id.0 })),
            None => Err(AviP2pError::StreamNotFound(stream_id)),
        }
    }

    /// The connected peers, each once.
    pub fn connected_peers(&self) -> (r: Vec<PeerId>)
        ensures
            forall|i: int| 0 <= i < r.len() ==> self.peers().dom().contains((#[trigger] r@[i]).0@),
            forall|k: Seq<char>| #[trigger] self.peers().dom().contains(k) ==>
                exists|i: int| 0 <= i < r.len() && (#[trigger] r@[i]).0@ == k,
            forall|a: int, b: int| 0 <= a < b < r.len() ==> (#[trigger] r@[a]).0@ != (#[trigger] r@[b]).0@,
    {
        let mut out: Vec<PeerId> = Vec::new();
        let ghost mut srcs: Seq<int> = Seq::empty();
        let mut i: usize = 0;
        while i < self.peers.len()
            invariant
                i <= self.peers.len(),
                srcs.len() == out.len(),
                forall|j: int| 0 <= j < out.len() ==> 0 <= #[trigger] srcs[j] < i
                    && crate::keyed::first_at(self.peers@, out@[j].0@, srcs[j]),
                forall|a: int, b: int| 0 <= a < b < out.len() ==> #[trigger] srcs[a] < #[trigger] srcs[b],
                forall|j: int| 0 <= j < i && crate::keyed::first_at(self.peers@, (#[trigger] self.peers@[j]).0@, j)
                    ==> exists|m: int| 0 <= m < out.len() && srcs[m] == j,
            decreases self.peers.len() - i,
        {
            let f = find_key(&self.peers, self.peers[i].0.as_str());
            if f == Some(i) {
                let p = PeerId(self.peers[i].0.clone());
                let ghost before = srcs;
                out.push(p);
                proof {
                    srcs = srcs.push(i as int);
                    assert forall|j: int| 0 <= j < i + 1 && crate::keyed::first_at(self.peers@, (#[trigger] self.peers@[j]).0@, j)
                        implies exists|m: int| 0 <= m < out.len() && srcs[m] == j by {
                        if j < i {
                            let m = choose|m: int| 0 <= m < before.len() && before[m] == j;
                            assert(srcs[m] == before[m]);
                        } else {
                            assert(srcs[out.len() - 1] == j);
                        }
                    }
                }
            } else {
                proof {
                    let ff = f->0;
                    assert(self.peers@[ff as int].0@ == self.peers@[i as int].0@);
                    assert(!crate::keyed::first_at(self.peers@, self.peers@[i as int].0@, i as int));
                }
            }
            i += 1;
        }
        proof {
            assert forall|k: Seq<char>| #[trigger] self.peers().dom().contains(k) implies
                exists|i: int| 0 <= i < out.len() && (#[trigger] out@[i]).0@ == k by {
                crate::keyed::lemma_first_exists(self.peers@, k);
                let j = crate::keyed::key_index(self.peers@, k);
                assert(crate::keyed::first_at(self.peers@, self.peers@[j].0@, j));
                let m = choose|m: int| 0 <= m < out.len() && srcs[m] == j;
                assert(out@[m].0@ == k);
            }
            assert forall|j: int| 0 <= j < out.len() implies self.peers().dom().contains((#[trigger] out@[j]).0@) by {
                assert(crate::keyed::first_at(self.peers@, out@[j].0@, srcs[j]));
                assert(crate::keyed::has_key(self.peers@, out@[j].0@));
            }
            assert forall|a: int, b: int| 0 <= a < b < out.len() implies (#[trigger] out@[a]).0@ != (#[trigger] out@[b]).0@ by {
                assert(srcs[a] < srcs[b]);
                assert(crate::keyed::first_at(self.peers@, out@[b].0@, srcs[b]));
                assert(crate::keyed::first_at(self.peers@, out@[a].0@, srcs[a]));
                assert(self.peers@[srcs[a]].0@ == out@[a].0@);
            }
        }
        out
    }

    /// Remembers that `peer` can be reached at `address` (discovery or
    /// identification saw it there); a later address replaces an earlier one.
    pub fn note_known_address(&mut self, peer: PeerId, address: String)
        ensures
            final(self).known() == old(self).known().insert(peer.0@, address),
            final(self).peers() == old(self).peers(),
            final(self).discovered() == old(self).discovered(),
            final(self).same_node(&*old(self)),
            final(self).streams() == old(self).streams(),
    {
        crate::keyed::put(&mut self.known, peer.0, address);
    }

    /// The heartbeat's work: every known peer that is not connected, with the
    /// address to dial it at, each once.
    pub fn redial_targets(&self) -> (r: Vec<(String, String)>)
        ensures
            forall|i: int| 0 <= i < r.len() ==> {
                let p = #[trigger] r@[i];
                &&& self.known().dom().contains(p.0@)
                &&& self.known()[p.0@]@ == p.1@
                &&& !self.peers().dom().contains(p.0@)
            },
            forall|k: Seq<char>| #[trigger] self.known().dom().contains(k) && !self.peers().dom().contains(k)
                ==> exists|i: int| 0 <= i < r.len() && (#[trigger] r@[i]).0@ == k,
            forall|a: int, b: int| 0 <= a < b < r.len() ==> (#[trigger] r@[a]).0@ != (#[trigger] r@[b]).0@,
    {
        let mut out: Vec<(String, String)> = Vec::new();
        let ghost mut srcs: Seq<int> = Seq::empty();
        let mut i: usize = 0;
        while i < self.known.len()
            invariant
                i <= self.known.len(),
                srcs.len() == out.len(),
                forall|j: int| 0 <= j < out.len() ==> 0 <= #[trigger] srcs[j] < i
                    && crate::keyed::first_at(self.known@, out@[j].0@, srcs[j])
                    && out@[j].1@ == self.known@[srcs[j]].1@
                    && !self.peers().dom().contains(out@[j].0@),
                forall|a: int, b: int| 0 <= a < b < out.len() ==> #[trigger] srcs[a] < #[trigger] srcs[b],
                forall|j: int| 0 <= j < i && crate::keyed::first_at(self.known@, (#[trigger] self.known@[j]).0@, j)
                    && !self.peers().dom().contains(self.known@[j].0@)
                    ==> exists|m: int| 0 <= m < out.len() && srcs[m] == j,
            decreases self.known.len() - i,
        {
            let first = find_key(&self.known, self.known[i].0.as_str()) == Some(i);
            let connected = find_key(&self.peers, self.known[i].0.as_str()).is_some();
            if first && !connected {
                let ghost before = srcs;
                out.push((self.known[i].0.clone(), self.known[i].1.clone()));
                proof {
                    srcs = srcs.push(i as int);
                    assert forall|j: int| 0 <= j < i + 1 && crate::keyed::first_at(self.known@, (#[trigger] self.known@[j]).0@, j)
                        && !self.peers().dom().contains(self.known@[j].0@)
                        implies exists|m: int| 0 <= m < out.len() && srcs[m] == j by {
                        if j < i {
                            let m = choose|m: int| 0 <= m < before.len() && before[m] == j;
                            assert(srcs[m] == before[m]);
                        } else {
                            assert(srcs[out.len() - 1] == j);
                        }
                    }
                }
            } else {
                proof {
                    if crate::keyed::first_at(self.known@, self.known@[i as int].0@, i as int) {
                        crate::keyed::lemma_first_unique(self.known@, self.known@[i as int].0@, i as int);
                    }
                }
            }
            i += 1;
        }
        proof {
            assert forall|j: int| 0 <= j < out.len() implies {
                let p = #[trigger] out@[j];
                &&& self.known().dom().contains(p.0@)
                &&& self.known()[p.0@]@ == p.1@
                &&& !self.peers().dom().contains(p.0@)
            } by {
                assert(crate::keyed::first_at(self.known@, out@[j].0@, srcs[j]));
                crate::keyed::lemma_first_unique(self.known@, out@[j].0@, srcs[j]);
            }
            assert forall|k: Seq<char>| #[trigger] self.known().dom().contains(k) && !self.peers().dom().contains(k)
                implies exists|i: int| 0 <= i < out.len() && (#[trigger] out@[i]).0@ == k by {
                crate::keyed::lemma_first_exists(self.known@, k);
                let j = crate::keyed::key_index(self.known@, k);
                crate::keyed::lemma_first_unique(self.known@, k, j);
                assert(crate::keyed::first_at(self.known@, self.known@[j].0@, j));
                let m = choose|m: int| 0 <= m < out.len() && srcs[m] == j;
                assert(out@[m].0@ == k);
            }
            assert forall|a: int, b: int| 0 <= a < b < out.len() implies (#[trigger] out@[a]).0@ != (#[trigger] out@[b]).0@ by {
                assert(srcs[a] < srcs[b]);
                assert(crate::keyed::first_at(self.known@, out@[b].0@, srcs[b]));
                assert(crate::keyed::first_at(self.known@, out@[a].0@, srcs[a]));
                assert(self.known@[srcs[a]].0@ == out@[a].0@);
            }
        }
        out
    }

    /// The document of a peer's stored context, or of our own when no peer
    /// is named.
    pub fn peer_context(&self, peer_id: Option<PeerId>) -> (r: Result<JsonValue, AviP2pError>)
        ensures
            match peer_id {
                Some(p) => if self.contexts().dom().contains(p.0@) {
                    r matches Ok(v) && v@ == self.contexts()[p.0@].data@
                } else {
                    r == Err::<JsonValue, AviP2pError>(AviP2pError::PeerNotFound(p))
                },
                None => r matches Ok(v) && v@ == self.local().data@,
            },
    {
        match peer_id {
            Some(p) => match crate::keyed::get(&self.context_store, p.0.as_str()) {
                Some(c) => Ok(c.data.deep_copy()),
                None => Err(AviP2pError::PeerNotFound(p)),
            },
            None => Ok(self.local_context.data.deep_copy()),
        }
    }

    /// Applies a patch to our own context at time `now` and advances our
    /// clock; returns whether the context topic must first be subscribed
    /// (it is then recorded as subscribed).
    pub fn update_self_context(&mut self, patch: JsonValue, now: u64) -> (r: bool)
        requires
            count(old(self).local().vector_clock@, old(self).local().device_id@) < u64::MAX,
        ensures
            final(self).same_network(&*old(self)),
            final(self).contexts() == old(self).contexts(),
            final(self).started() == old(self).started(),
            final(self).local()@ == (ContextModel {
                data: merged(old(self).local().data@, patch@, false),
                timestamp: now,
                clock: bumped(old(self).local().vector_clock@, old(self).local().device_id@),
                ..old(self).local()@
            }),
            r == !old(self).topics().contains(CONTEXT_TOPIC@),
            final(self).topics() == old(self).topics().insert(CONTEXT_TOPIC@),
            final(self).streams() == old(self).streams(),
    {
        self.local_context.apply_patch_at(patch, now);
        let my_id = self.local_context.device_id.clone();
        self.local_context.vector_clock.increment(my_id.as_str());
        let must_subscribe = !self.is_subscribed(CONTEXT_TOPIC);
        self.record_subscribed(CONTEXT_TOPIC.to_owned());
        must_subscribe
    }

    /// Replaces our own document at time `now` and advances our clock;
    /// returns whether the context topic must first be subscribed (it is
    /// then recorded as subscribed).
    pub fn replace_self_context(&mut self, data: JsonValue, now: u64) -> (r: bool)
        requires
            count(old(self).local().vector_clock@, old(self).local().device_id@) < u64::MAX,
        ensures
            final(self).same_network(&*old(self)),
            final(self).contexts() == old(self).contexts(),
            final(self).started() == old(self).started(),
            final(self).local()@ == (ContextModel {
                data: data@,
                timestamp: now,
                clock: bumped(old(self).local().vector_clock@, old(self).local().device_id@),
                ..old(self).local()@
            }),
            r == !old(self).topics().contains(CONTEXT_TOPIC@),
            final(self).topics() == old(self).topics().insert(CONTEXT_TOPIC@),
            final(self).streams() == old(self).streams(),
    {
        self.local_context.replace_data_at(data, now);
        let my_id = self.local_context.device_id.clone();
        self.local_context.vector_clock.increment(my_id.as_str());
        let must_subscribe = !self.is_subscribed(CONTEXT_TOPIC);
        self.record_subscribed(CONTEXT_TOPIC.to_owned());
        must_subscribe
    }

    /// The first listen address starts the node: reported once.
    pub fn on_new_listen_addr(&mut self, local_peer_id: PeerId, address: String) -> (r: Option<AviEvent>)
        ensures
            final(self).same_network(&*old(self)),
            final(self).contexts() == old(self).contexts(),
            final(self).local() == old(self).local(),
            !old(self).started() ==> final(self).started(),
            !old(self).started() ==> (r matches Some(AviEvent::Started { local_peer_id: p, listen_addresses: a })
                && p == local_peer_id && a@ == seq![address]),
            old(self).started() ==> r is None && final(self).started(),
            final(self).streams() == old(self).streams(),
            final(self).topics() == old(self).topics(),
    {
        if !self.started {
            self.started = true;
            let mut addrs: Vec<String> = Vec::new();
            addrs.push(address);
            Some(AviEvent::Started { local_peer_id, listen_addresses: addrs })
        } else {
            None
        }
    }

    /// A peer was seen by discovery: reported the first time only.
    pub fn on_peer_found(&mut self, peer_id: PeerId) -> (r: Option<AviEvent>)
        ensures
            final(self).peers() == old(self).peers(),
            final(self).known() == old(self).known(),
            final(self).same_node(&*old(self)),
            final(self).discovered() == old(self).discovered().insert(peer_id.0@),
            old(self).discovered().contains(peer_id.0@) ==> r is None,
            !old(self).discovered().contains(peer_id.0@) ==>
                r == Some(AviEvent::PeerDiscovered { peer_id }),
            final(self).streams() == old(self).streams(),
    {
        if find_key(&self.discovered, peer_id.0.as_str()).is_some() {
            return None;
        }
        let ghost k = peer_id.0@;
        crate::keyed::put(&mut self.discovered, peer_id.0.clone(), ());
        proof { assert(entry_map(self.discovered@).dom() =~= entry_map(old(self).discovered@).dom().insert(k)); }
        Some(AviEvent::PeerDiscovered { peer_id })
    }

    /// A connection to `peer_id` was established; the first one marks the
    /// peer connected, makes sure the context topic is subscribed (returned
    /// flag) and is reported.
    pub fn on_connection_established(&mut self, peer_id: PeerId, address: String, num_established: u32) -> (r: (bool, Option<AviEvent>))
        ensures
            final(self).discovered() == old(self).discovered(),
            final(self).known() == old(self).known(),
            final(self).contexts() == old(self).contexts(),
            final(self).local() == old(self).local(),
            final(self).started() == old(self).started(),
            num_established == 1 ==> final(self).peers() == old(self).peers().insert(peer_id.0@, Some(address)),
            num_established == 1 ==> {
                &&& final(self).peers().dom() == old(self).peers().dom().insert(peer_id.0@)
                &&& final(self).topics() == old(self).topics().insert(CONTEXT_TOPIC@)
                &&& r.0 == !old(self).topics().contains(CONTEXT_TOPIC@)
                &&& r.1 matches Some(AviEvent::PeerConnected { peer_id: p, address: a }) && p == peer_id && a == address
            },
            num_established != 1 ==> r == (false, None::<AviEvent>) && *final(self) == *old(self),
            final(self).streams() == old(self).streams(),
    {
        if num_established != 1 {
            return (false, None);
        }
        let ghost k = peer_id.0@;
        crate::keyed::put(&mut self.peers, peer_id.0.clone(), Some(address.clone()));
        let must_subscribe = !self.is_subscribed(CONTEXT_TOPIC);
        self.record_subscribed(CONTEXT_TOPIC.to_owned());
        proof { assert(entry_map(self.peers@).dom() =~= entry_map(old(self).peers@).dom().insert(k)); }
        (must_subscribe, Some(AviEvent::PeerConnected { peer_id, address }))
    }

    /// A stream protocol request arrived from `peer`: a new inbound stream,
    /// an acceptance, data, a rejection or a close.
    pub fn on_stream_message(&mut self, peer: PeerId, msg: StreamMessage) -> (r: Option<AviEvent>)
        ensures
            final(self).same_network(&*old(self)),
            final(self).same_node(&*old(self)),
            final(self).topics() == old(self).topics(),
            match msg {
                StreamMessage::RequestStream { stream_id, reason } => {
                    &&& final(self).streams().dom() == old(self).streams().dom().insert(stream_id)
                    &&& final(self).streams()[stream_id].peer@ == peer.0@
                    &&& final(self).streams()[stream_id].status == StreamStatus::Requested
                    &&& final(self).streams()[stream_id].direction == StreamDirection::Inbound
                    &&& forall|k: u64| k != stream_id && old(self).streams().dom().contains(k)
                            ==> #[trigger] final(self).streams()[k] == old(self).streams()[k]
                    &&& r == Some(AviEvent::StreamRequested { from: peer, stream_id: StreamId(stream_id), reason })
                },
                StreamMessage::AcceptStream { stream_id } => if old(self).streams().dom().contains(stream_id) {
                    &&& final(self).streams() == old(self).streams().insert(stream_id,
                            StreamState { status: StreamStatus::Active, ..old(self).streams()[stream_id] })
                    &&& r == Some(AviEvent::StreamAccepted { peer_id: peer, stream_id: StreamId(stream_id) })
                } else {
                    final(self).streams() == old(self).streams() && r is None
                },
                StreamMessage::StreamData { stream_id, data } => {
                    &&& final(self).streams() == old(self).streams()
                    &&& old(self).streams().dom().contains(stream_id) ==>
                            r == Some(AviEvent::StreamData { from: peer, stream_id: StreamId(stream_id), data })
                    &&& !old(self).streams().dom().contains(stream_id) ==> r is None
                },
                StreamMessage::CloseStream { stream_id } => {
                    &&& final(self).streams() == old(self).streams().remove(stream_id)
                    &&& r == Some(AviEvent::StreamClosed { peer_id: peer, stream_id: StreamId(stream_id),
                            reason: StreamCloseReason::RemoteClose })
                },
                StreamMessage::RejectStream { stream_id, reason } => {
                    &&& final(self).streams() == old(self).streams().remove(stream_id)
                    &&& r == Some(AviEvent::StreamRejected { peer_id: peer, stream_id: StreamId(stream_id), reason })
                },
            },
    {
        match msg {
            StreamMessage::RequestStream { stream_id, reason } => {
                let state = StreamState {
                    peer: peer.0.clone(),
                    status: StreamStatus::Requested,
                    direction: StreamDirection::Inbound,
                };
                self.streams.insert(stream_id, state);
                Some(AviEvent::StreamRequested { from: peer, stream_id: StreamId(stream_id), reason })
            },
            StreamMessage::AcceptStream { stream_id } => {
                let updated = match self.streams.get(&stream_id) {
                    Some(s) => StreamState {
                        peer: s.peer.clone(),
                        status: StreamStatus::Active,
                        direction: s.direction,
                    },
                    None => {
                        return None;
                    },
                };
                self.streams.insert(stream_id, updated);
                Some(AviEvent::StreamAccepted { peer_id: peer, stream_id: StreamId(stream_id) })
            },
            StreamMessage::StreamData { stream_id, data } => {
                if self.streams.contains_key(&stream_id) {
                    Some(AviEvent::StreamData { from: peer, stream_id: StreamId(stream_id), data })
                } else {
                    None
                }
            },
            StreamMessage::CloseStream { stream_id } => {
                self.drop_stream(stream_id);
                Some(AviEvent::StreamClosed { peer_id: peer, stream_id: StreamId(stream_id), reason: StreamCloseReason::RemoteClose })
            },
            StreamMessage::RejectStream { stream_id, reason } => {
                self.drop_stream(stream_id);
                Some(AviEvent::StreamRejected { peer_id: peer, stream_id: StreamId(stream_id), reason })
            },
        }
    }

    /// A peer's context arrived on the context topic: it is stored, and
    /// reported, when we had none for that device or it supersedes ours.
    pub fn on_context_update(&mut self, incoming: AviContext) -> (r: Option<AviEvent>)
        ensures
            final(self).same_network(&*old(self)),
            final(self).started() == old(self).started(),
            final(self).streams() == old(self).streams(),
            final(self).topics() == old(self).topics(),
            final(self).local() == old(self).local(),
            ({
                let id = incoming.device_id@;
                let stored = old(self).contexts();
                let take = !stored.dom().contains(id) || supersedes(incoming@, stored[id]@);
                &&& take ==> final(self).contexts().dom() == stored.dom().insert(id)
                &&& take ==> final(self).contexts()[id]@ == incoming@
                &&& take ==> forall|k: Seq<char>| k != id && stored.dom().contains(k)
                        ==> #[trigger] final(self).contexts()[k] == stored[k]
                &&& take ==> (r matches Some(AviEvent::ContextUpdated { peer_id: p, context: c })
                        && p.0@ == id && c@ == incoming.data@)
                &&& !take ==> r is None && final(self).contexts() == stored
            }),
    {
        let take = match crate::keyed::get(&self.context_store, incoming.device_id.as_str()) {
            Some(existing) => context_supersedes(&incoming, existing),
            None => true,
        };
        if !take {
            return None;
        }
        let copy = incoming.duplicate();
        let name = incoming.device_id.clone();
        crate::keyed::put(&mut self.context_store, name, copy);
        Some(AviEvent::ContextUpdated { peer_id: PeerId(incoming.device_id), context: incoming.data })
    }

    /// The numbers of the streams with `peer`, each once.
    fn stream_ids_with_peer(&self, peer: &str) -> (r: Vec<u64>)
        ensures
            forall|i: int| 0 <= i < r.len() ==> self.streams().dom().contains(#[trigger] r@[i])
                && self.streams()[r@[i]].peer@ == peer@,
            forall|x: u64| self.streams().dom().contains(x) && self.streams()[x].peer@ == peer@ ==> r@.contains(x),
            r@.no_duplicates(),
    {
        let m = &self.streams;
        let mut out: Vec<u64> = Vec::new();
        let ghost keys = vstd::std_specs::hash::spec_keys_iter(m).remaining().unref();
        proof { broadcast use vstd::std_specs::hash::group_hash_axioms; }
        for key in it: m.keys()
            invariant
                keys == vstd::std_specs::hash::spec_keys_iter(m).remaining().unref(),
                it.seq().unref() == keys,
                keys.to_set() == m@.dom(),
                keys.no_duplicates(),
                forall|i: int| 0 <= i < out.len() ==> m@.dom().contains(#[trigger] out@[i]) && m@[out@[i]].peer@ == peer@,
                forall|j: int| 0 <= j < it.index() && m@[keys[j]].peer@ == peer@ ==> out@.contains(#[trigger] keys[j]),
                forall|i: int| 0 <= i < out.len() ==> #[trigger] keys.take(it.index()).contains(out@[i]),
                out@.no_duplicates(),
        {
            let ghost idx = it.index();
            let ghost before = out@;
            let hit = match m.get(key) {
                Some(st) => crate::text::str_equal(st.peer.as_str(), peer),
                None => false,
            };
            if hit {
                proof {
                    assert(!before.contains(*key)) by {
                        if before.contains(*key) {
                            let i = choose|i: int| 0 <= i < before.len() && before[i] == *key;
                            assert(keys.take(idx).contains(before[i]));
                            let j = choose|j: int| 0 <= j < idx && keys.take(idx)[j] == before[i];
                            assert(keys[j] == keys[idx]);
                        }
                    }
                }
                out.push(*key);
            }
            proof {
                assert(keys.to_set().contains(keys[idx]));
                assert forall|j: int| 0 <= j < idx + 1 && m@[keys[j]].peer@ == peer@ implies out@.contains(#[trigger] keys[j]) by {
                    if j < idx {
                        let i = choose|i: int| 0 <= i < before.len() && before[i] == keys[j];
                        assert(out@[i] == before[i]);
                    } else {
                        assert(out@[out@.len() - 1] == keys[j]);
                    }
                }
                assert forall|i: int| 0 <= i < out.len() implies #[trigger] keys.take(idx + 1).contains(out@[i]) by {
                    if i < before.len() {
                        assert(out@[i] == before[i]);
                        assert(keys.take(idx).contains(before[i]));
                        let j = choose|j: int| 0 <= j < idx && keys.take(idx)[j] == before[i];
                        assert(keys.take(idx + 1)[j] == out@[i]);
                    } else {
                        assert(keys.take(idx + 1)[idx] == out@[i]);
                    }
                }
            }
        }
        proof {
            assert forall|x: u64| m@.dom().contains(x) && m@[x].peer@ == peer@ implies out@.contains(x) by {
                assert(keys.to_set().contains(x));
                let j = choose|j: int| 0 <= j < keys.len() && keys[j] == x;
                assert(out@.contains(keys[j]));
            }
        }
        out
    }

    /// The last connection to `peer_id` closed: the peer is forgotten, every
    /// stream with it is closed (one event each), then the disconnection is
    /// reported.
    pub fn on_connection_closed(&mut self, peer_id: PeerId, num_established: u32) -> (r: Vec<AviEvent>)
        ensures
            final(self).known() == old(self).known(),
            final(self).same_node(&*old(self)),
            num_established != 0 ==> r@.len() == 0 && *final(self) == *old(self),
            num_established == 0 ==> {
                &&& final(self).peers() == old(self).peers().remove(peer_id.0@)
                &&& final(self).discovered() == old(self).discovered().remove(peer_id.0@)
                &&& final(self).streams() == streams_without_peer(old(self).streams(), peer_id.0@)
                &&& r@.len() >= 1
                &&& r@.last() == (AviEvent::PeerDisconnected { peer_id })
                &&& forall|i: int| 0 <= i < r@.len() - 1 ==> {
                        let c = #[trigger] remote_close_of(r@[i], peer_id);
                        &&& c is Some
                        &&& old(self).streams().dom().contains(c->0)
                        &&& old(self).streams()[c->0].peer@ == peer_id.0@
                    }
                &&& forall|k: u64| old(self).streams().dom().contains(k) && old(self).streams()[k].peer@ == peer_id.0@
                        ==> exists|i: int| 0 <= i < r@.len() - 1 && #[trigger] remote_close_of(r@[i], peer_id) == Some(k)
                &&& forall|a: int, b: int| 0 <= a < b < r@.len() - 1
                        ==> #[trigger] remote_close_of(r@[a], peer_id) != #[trigger] remote_close_of(r@[b], peer_id)
            },
    {
        let mut events: Vec<AviEvent> = Vec::new();
        if num_established != 0 {
            return events;
        }
        let ghost k = peer_id.0@;
        remove_named(&mut self.peers, peer_id.0.as_str());
        remove_named(&mut self.discovered, peer_id.0.as_str());
        proof { assert(entry_map(self.discovered@).dom() =~= entry_map(old(self).discovered@).dom().remove(k)); }
        let ghost start = self.streams@;
        let ids = self.stream_ids_with_peer(peer_id.0.as_str());
        let ghost peers_now = self.peers@;
        let ghost discovered_now = self.discovered@;
        let mut j: usize = 0;
        while j < ids.len()
            invariant
                j <= ids.len(),
                k == peer_id.0@,
                forall|i: int| 0 <= i < ids.len() ==> start.dom().contains(#[trigger] ids@[i]) && start[ids@[i]].peer@ == k,
                forall|x: u64| start.dom().contains(x) && start[x].peer@ == k ==> ids@.contains(x),
                ids@.no_duplicates(),
                self.peers@ == peers_now,
                self.discovered@ == discovered_now,
                self.topics == old(self).topics,
                self.context_store == old(self).context_store,
                self.local_context == old(self).local_context,
                self.started == old(self).started,
                self.known == old(self).known,
                forall|x: u64| #[trigger] self.streams@.dom().contains(x)
                    <==> start.dom().contains(x) && !ids@.take(j as int).contains(x),
                forall|x: u64| #[trigger] self.streams@.dom().contains(x) ==> self.streams@[x] == start[x],
                events@.len() == j,
                forall|i: int| 0 <= i < j ==> #[trigger] events@[i] == (AviEvent::StreamClosed {
                    peer_id: peer_id,
                    stream_id: StreamId(ids@[i]),
                    reason: StreamCloseReason::RemoteClose,
                }),
            decreases ids.len() - j,
        {
            let sid = ids[j];
            let ghost before = self.streams@;
            self.streams.remove(&sid);
            events.push(AviEvent::StreamClosed {
                peer_id: peer_id.clone(),
                stream_id: StreamId(sid),
                reason: StreamCloseReason::RemoteClose,
            });
            proof {
                let nxt = ids@.take(j + 1);
                let cur = ids@.take(j as int);
                assert(nxt[j as int] == sid);
                assert forall|x: u64| #[trigger] self.streams@.dom().contains(x)
                    <==> start.dom().contains(x) && !nxt.contains(x) by {
                    if nxt.contains(x) {
                        let t = choose|t: int| 0 <= t < nxt.len() && #[trigger] nxt[t] == x;
                        if t < j {
                            assert(cur[t] == x);
                        }
                    }
                    if cur.contains(x) {
                        let t = choose|t: int| 0 <= t < cur.len() && #[trigger] cur[t] == x;
                        assert(nxt[t] == x);
                    }
                }
            }
            j += 1;
        }
        proof {
            assert(ids@.take(ids.len() as int) == ids@);
            assert(self.streams@ =~= streams_without_peer(start, k)) by {
                assert forall|x: u64| #[trigger] self.streams@.dom().contains(x)
                    <==> streams_without_peer(start, k).dom().contains(x) by {
                    if start.dom().contains(x) && start[x].peer@ != k && ids@.contains(x) {
                        let t = choose|t: int| 0 <= t < ids.len() && ids@[t] == x;
                        assert(start[ids@[t]].peer@ == k);
                    }
                }
            }
        }
        let ghost ev_before = events@;
        events.push(AviEvent::PeerDisconnected { peer_id });
        proof {
            assert forall|i: int| 0 <= i < events@.len() - 1 implies #[trigger] remote_close_of(events@[i], peer_id) == Some(ids@[i]) by {
                assert(events@[i] == ev_before[i]);
            }
            assert forall|i: int| 0 <= i < events@.len() - 1 implies {
                let c = #[trigger] remote_close_of(events@[i], peer_id);
                &&& c is Some
                &&& old(self).streams().dom().contains(c->0)
                &&& old(self).streams()[c->0].peer@ == k
            } by {
                assert(remote_close_of(events@[i], peer_id) == Some(ids@[i]));
            }
            assert forall|a: int, b: int| 0 <= a < b < events@.len() - 1
                implies #[trigger] remote_close_of(events@[a], peer_id) != #[trigger] remote_close_of(events@[b], peer_id) by {
                assert(remote_close_of(events@[a], peer_id) == Some(ids@[a]));
                assert(remote_close_of(events@[b], peer_id) == Some(ids@[b]));
            }
            assert forall|x: u64| old(self).streams().dom().contains(x) && old(self).streams()[x].peer@ == k
                implies exists|i: int| 0 <= i < events@.len() - 1 && #[trigger] remote_close_of(events@[i], peer_id) == Some(x) by {
                assert(ids@.contains(x));
                let t = choose|t: int| 0 <= t < ids.len() && ids@[t] == x;
                assert(remote_close_of(events@[t], peer_id) == Some(ids@[t]));
            }
        }
        events
    }
}

} // verus!
