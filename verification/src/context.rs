//! The distributed context object: a JSON document stamped with a wall-clock
//! time and a vector clock, and the rule for merging a peer's copy into ours.
use vstd::prelude::*;
use std::cmp::Ordering;
use crate::clock::{VectorClock, clock_order, join, ahead, lemma_order_reflexive, lemma_join_upper_bound};
use crate::json::{JsonValue, JsonModel, deep_merge, merged, empty_object, lemma_object_model,
    members_model};
use crate::path::{lookup_keys, lemma_merge_keeps_preferred_values, lemma_merge_patch_values_win,
    lemma_merge_conflict_goes_to_preferred};

verus! {

/// `std::time::SystemTime`, carried through as an opaque value.
#[verifier::external_type_specification]
#[verifier::external_body]
pub struct ExSystemTime(std::time::SystemTime);

/// `SystemTime::now`: the machine's clock. Nothing is claimed of the value.
#[verifier::external_body]
fn system_now() -> (r: std::time::SystemTime) {
    std::time::SystemTime::now()
}

/// `SystemTime::duration_since(UNIX_EPOCH)`: how long after the epoch `t`
/// lies, `None` when it lies before. Nothing is claimed of the value.
#[verifier::external_body]
fn since_epoch(t: &std::time::SystemTime) -> (r: Option<std::time::Duration>) {
    t.duration_since(std::time::UNIX_EPOCH).ok()
}

/// `Duration::as_secs`: the whole seconds of `d`. Nothing is claimed of
/// the value (the duration itself is opaque here).
#[verifier::external_body]
fn whole_seconds(d: &std::time::Duration) -> (r: u64) {
    d.as_secs()
}

/// Seconds since the Unix epoch, read from the system clock; zero when the
/// clock lies before the epoch.
pub(crate) fn unix_now() -> (r: u64) {
    let now = system_now();
    match since_epoch(&now) {
        Some(d) => whole_seconds(&d),
        None => 0,
    }
}

/// The meaning of a context: who owns it, when it last changed, its clock
/// and its document.
pub struct ContextModel {
    pub device_id: Seq<char>,
    pub timestamp: u64,
    pub clock: Map<Seq<char>, u64>,
    pub data: JsonModel,
}

/// The document a new context starts with: `{"avi": {"device": {}}}`.
pub open spec fn skeleton() -> JsonModel {
    JsonModel::Object(Map::empty().insert("avi"@, JsonModel::Object(Map::empty().insert("device"@, empty_object()))))
}

/// The context that merging `o` into `s` leaves: a strictly newer `o`
/// replaces the document and stamp; a strictly older `o` only adds what `s`
/// lacks; equal clocks change nothing; concurrent copies are deep-merged
/// with the older stamp winning conflicts.
pub open spec fn merged_context(s: ContextModel, o: ContextModel) -> ContextModel {
    let differ = s.data != o.data;
    match clock_order(s.clock, o.clock) {
        Some(Ordering::Less) =>
            ContextModel { device_id: s.device_id, timestamp: o.timestamp, clock: join(s.clock, o.clock), data: o.data },
        Some(Ordering::Greater) =>
            ContextModel { data: if differ { merged(s.data, o.data, true) } else { s.data }, ..s },
        Some(Ordering::Equal) => s,
        None => {
            let prefer_self = s.timestamp <= o.timestamp;
            ContextModel {
                device_id: s.device_id,
                timestamp: if prefer_self { s.timestamp } else { o.timestamp },
                clock: join(s.clock, o.clock),
                data: if differ { merged(s.data, o.data, prefer_self) } else { s.data },
            }
        },
    }
}

/// The result of merging context `o` into context `s`, and whether the
/// document changed.
pub open spec fn merge_outcome(s: ContextModel, o: ContextModel) -> (ContextModel, bool) {
    let c = merged_context(s, o);
    (c, c.data != s.data)
}

/// The core context object, designed to be flexible ("dict-like").
#[derive(Debug, Clone)]
pub struct AviContext {
    pub device_id: String,
    /// Unix timestamp of the last change.
    pub timestamp: u64,
    pub vector_clock: VectorClock,
    /// The document (device, user, task, environment).
    pub data: JsonValue,
}

impl View for AviContext {
    type V = ContextModel;

    open spec fn view(&self) -> ContextModel {
        ContextModel {
            device_id: self.device_id@,
            timestamp: self.timestamp,
            clock: self.vector_clock@,
            data: self.data@,
        }
    }
}

impl AviContext {
    /// A new context for `device_id`, stamped with the current time.
    pub fn new(device_id: String) -> (r: Self)
        ensures
            r.device_id@ == device_id@,
            r.vector_clock@ == Map::<Seq<char>, u64>::empty(),
            r.data@ == skeleton(),
    {
        let now = unix_now();
        Self::new_at(device_id, now)
    }

    /// A new context for `device_id`, stamped with `now`.
    pub fn new_at(device_id: String, now: u64) -> (r: Self)
        ensures
            r@ == (ContextModel {
                device_id: device_id@,
                timestamp: now,
                clock: Map::empty(),
                data: skeleton(),
            }),
    {
        let device = JsonValue::new_object();
        let mut inner: Vec<(String, JsonValue)> = Vec::new();
        inner.push(("device".to_owned(), device));
        let mut outer: Vec<(String, JsonValue)> = Vec::new();
        let inner_obj = JsonValue::Object(inner);
        proof {
            lemma_object_model(inner);
            crate::keyed::lemma_key_index(inner@, 0);
            assert(members_model(inner@) =~= Map::empty().insert("device"@, empty_object()));
        }
        outer.push(("avi".to_owned(), inner_obj));
        proof {
            lemma_object_model(outer);
            crate::keyed::lemma_key_index(outer@, 0);
            assert(members_model(outer@) =~= Map::empty().insert("avi"@, inner_obj@));
        }
        AviContext {
            device_id,
            timestamp: now,
            vector_clock: VectorClock::new(),
            data: JsonValue::Object(outer),
        }
    }

    /// A copy with the same meaning.
    pub fn duplicate(&self) -> (r: Self)
        ensures
            r@ == self@,
    {
        AviContext {
            device_id: self.device_id.clone(),
            timestamp: self.timestamp,
            vector_clock: self.vector_clock.duplicate(),
            data: self.data.deep_copy(),
        }
    }

    /// Deep-merges `patch` into the document (the patch wins where both
    /// have a value) and stamps the current time.
    pub fn apply_patch(&mut self, patch: JsonValue)
        ensures
            final(self).data@ == merged(old(self).data@, patch@, false),
            final(self).device_id == old(self).device_id,
            final(self).vector_clock == old(self).vector_clock,
    {
        let now = unix_now();
        self.apply_patch_at(patch, now);
    }

    /// Deep-merges `patch` into the document and stamps `now`.
    pub fn apply_patch_at(&mut self, patch: JsonValue, now: u64)
        ensures
            final(self)@ == (ContextModel { data: merged(old(self).data@, patch@, false), timestamp: now, ..old(self)@ }),
            final(self).device_id == old(self).device_id,
            final(self).vector_clock == old(self).vector_clock,
    {
        let mut data = JsonValue::Null;
        std::mem::swap(&mut data, &mut self.data);
        self.data = deep_merge(data, patch, false);
        self.timestamp = now;
    }

    /// Replaces the document and stamps the current time.
    pub fn replace_data(&mut self, data: JsonValue)
        ensures
            final(self).data@ == data@,
            final(self).device_id == old(self).device_id,
            final(self).vector_clock == old(self).vector_clock,
    {
        let now = unix_now();
        self.replace_data_at(data, now);
    }

    /// Replaces the document and stamps `now`.
    pub fn replace_data_at(&mut self, data: JsonValue, now: u64)
        ensures
            final(self)@ == (ContextModel { data: data@, timestamp: now, ..old(self)@ }),
            final(self).device_id == old(self).device_id,
            final(self).vector_clock == old(self).vector_clock,
    {
        self.data = data;
        self.timestamp = now;
    }

    /// Merge another context into this one; returns whether the document
    /// changed. A strictly newer peer copy replaces our document (so that
    /// deletions propagate); when ours is newer we only take what it lacks;
    /// concurrent copies are deep-merged with the older stamp winning
    /// conflicts.
    pub fn merge(&mut self, other: AviContext) -> (r: bool)
        ensures
            (final(self)@, r) == merge_outcome(old(self)@, other@),
            final(self).device_id == old(self).device_id,
    {
        let order = self.vector_clock.partial_cmp(&other.vector_clock);
        let differ = !self.data.same_as(&other.data);
        match order {
            Some(Ordering::Less) => {
                if differ {
                    self.data = other.data;
                }
                self.timestamp = other.timestamp;
                self.vector_clock.merge(&other.vector_clock);
                differ
            },
            Some(Ordering::Greater) => {
                if differ {
                    let before = self.data.deep_copy();
                    let mut data = JsonValue::Null;
                    std::mem::swap(&mut data, &mut self.data);
                    self.data = deep_merge(data, other.data, true);
                    !self.data.same_as(&before)
                } else {
                    false
                }
            },
            Some(Ordering::Equal) => false,
            None => {
                let prefer_self = self.timestamp <= other.timestamp;
                let mut changed = false;
                if differ {
                    let before = self.data.deep_copy();
                    let mut data = JsonValue::Null;
                    std::mem::swap(&mut data, &mut self.data);
                    self.data = deep_merge(data, other.data, prefer_self);
                    changed = !self.data.same_as(&before);
                }
                if !prefer_self {
                    self.timestamp = other.timestamp;
                }
                self.vector_clock.merge(&other.vector_clock);
                changed
            },
        }
    }
}

/// Merging a context with an identical copy of itself changes nothing.
pub proof fn lemma_merge_with_self(c: ContextModel)
    ensures
        merge_outcome(c, c) == (c, false),
{
    lemma_order_reflexive(c.clock);
}

/// After a merge our clock is at or after the incoming one: no merged-in
/// update is ever seen as newer than the result.
pub proof fn lemma_merge_not_behind(s: ContextModel, o: ContextModel)
    ensures
        !ahead(o.clock, merge_outcome(s, o).0.clock),
{
    lemma_join_upper_bound(s.clock, o.clock);
}

/// Merging in a strictly newer copy yields that copy's document exactly.
pub proof fn lemma_merge_newer_wins(s: ContextModel, o: ContextModel)
    requires
        clock_order(s.clock, o.clock) == Some(Ordering::Less),
    ensures
        merge_outcome(s, o).0.data == o.data,
        merge_outcome(s, o).0.timestamp == o.timestamp,
{
}

/// Merging in a strictly older copy never overrides what we hold: every
/// value our document has at a path (null included) is still there after
/// the merge. Where either document is not an object, ours is kept whole
/// and the merge reports no change.
pub proof fn lemma_merge_older_keeps_ours(s: ContextModel, o: ContextModel, keys: Seq<Seq<char>>)
    requires
        clock_order(s.clock, o.clock) == Some(Ordering::Greater),
    ensures
        lookup_keys(s.data, keys) matches Some(v) && !(v is Object)
            ==> lookup_keys(merge_outcome(s, o).0.data, keys) == lookup_keys(s.data, keys),
        !(s.data is Object) || !(o.data is Object) ==> merge_outcome(s, o) == (s, false),
{
    if lookup_keys(s.data, keys) matches Some(v) && !(v is Object) {
        lemma_merge_keeps_preferred_values(s.data, o.data, keys);
    }
    if !(s.data is Object) || !(o.data is Object) {
        lemma_merge_conflict_goes_to_preferred(s.data, o.data);
    }
}

/// A patch wins everywhere it holds a value: after `apply_patch_at`, every
/// value the patch has at a path that is not an object (null included)
/// is what the document holds there, whatever was there before; where the
/// patch is not an object at all, it becomes the whole document.
pub proof fn lemma_patch_values_win(data: JsonModel, patch: JsonModel, keys: Seq<Seq<char>>)
    ensures
        lookup_keys(patch, keys) matches Some(v) && !(v is Object)
            ==> lookup_keys(merged(data, patch, false), keys) == lookup_keys(patch, keys),
        !(patch is Object) ==> merged(data, patch, false) == patch,
{
    if lookup_keys(patch, keys) matches Some(v) && !(v is Object) {
        lemma_merge_patch_values_win(data, patch, keys);
    }
    if !(patch is Object) {
        lemma_merge_conflict_goes_to_preferred(data, patch);
    }
}

/// Merging a copy whose document equals ours never reports a change.
pub proof fn lemma_merge_same_data(s: ContextModel, o: ContextModel)
    requires
        s.data == o.data,
    ensures
        !merge_outcome(s, o).1,
        merge_outcome(s, o).0.data == s.data,
{
}

} // verus!
