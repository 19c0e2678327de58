//! A JSON document as the context system stores it, and the deep merge of
//! two documents.
//!
//! Objects are lists of named members; their meaning is the map from each
//! name to its first member, so member order never matters.
//! Numbers are kept as the decimal text that encodes them.
use vstd::prelude::*;
use crate::text::str_equal;
use crate::keyed::{has_key, first_at, key_index, entry_map, lemma_first_exists, lemma_first_unique,
    lemma_push, lemma_push_shadowed, lemma_update, find_key, idx};

verus! {

/// A JSON value.
#[derive(Debug)]
pub enum JsonValue {
    Null,
    Bool(bool),
    Number(String),
    Str(String),
    Array(Vec<JsonValue>),
    Object(Vec<(String, JsonValue)>),
}

/// The mathematical meaning of a JSON value.
pub enum JsonModel {
    Null,
    Bool(bool),
    Number(Seq<char>),
    Str(Seq<char>),
    Array(Seq<JsonModel>),
    Object(Map<Seq<char>, JsonModel>),
}

pub open spec fn json_model(v: JsonValue) -> JsonModel
    decreases v,
{
    match v {
        JsonValue::Null => JsonModel::Null,
        JsonValue::Bool(b) => JsonModel::Bool(b),
        JsonValue::Number(n) => JsonModel::Number(n@),
        JsonValue::Str(s) => JsonModel::Str(s@),
        JsonValue::Array(items) => JsonModel::Array(
            Seq::new(items.len() as nat, |i: int| if 0 <= i < items.len() { json_model(items@[i]) } else { JsonModel::Null }),
        ),
        JsonValue::Object(members) => JsonModel::Object(
            Map::new(
                |k: Seq<char>| has_key(members@, k),
                |k: Seq<char>| {
                    let i = key_index(members@, k);
                    if 0 <= i < members.len() { json_model(members@[i].1) } else { JsonModel::Null }
                },
            ),
        ),
    }
}

impl View for JsonValue {
    type V = JsonModel;

    open spec fn view(&self) -> JsonModel {
        json_model(*self)
    }
}

/// The members of an object, as a map from names to meanings.
pub open spec fn members_model(s: Seq<(String, JsonValue)>) -> Map<Seq<char>, JsonModel> {
    Map::new(|k: Seq<char>| entry_map(s).dom().contains(k), |k: Seq<char>| json_model(entry_map(s)[k]))
}

pub open spec fn empty_object() -> JsonModel {
    JsonModel::Object(Map::empty())
}

pub proof fn lemma_object_model(s: Vec<(String, JsonValue)>)
    ensures
        json_model(JsonValue::Object(s)) == JsonModel::Object(members_model(s@)),
{
    let l = json_model(JsonValue::Object(s))->Object_0;
    let r = members_model(s@);
    assert forall|k: Seq<char>| #[trigger] l.dom().contains(k) implies l[k] == r[k] by {
        lemma_first_exists(s@, k);
    }
    assert(l =~= r);
}

pub proof fn lemma_members_insert(s: Seq<(String, JsonValue)>, t: Seq<(String, JsonValue)>, k: Seq<char>, v: JsonValue)
    requires
        entry_map(t) == entry_map(s).insert(k, v),
    ensures
        members_model(t) == members_model(s).insert(k, json_model(v)),
{
    assert(members_model(t) =~= members_model(s).insert(k, json_model(v)));
}

pub proof fn lemma_members_remove(s: Seq<(String, JsonValue)>, t: Seq<(String, JsonValue)>, k: Seq<char>)
    requires
        entry_map(t) == entry_map(s).remove(k),
    ensures
        members_model(t) == members_model(s).remove(k),
{
    assert(members_model(t) =~= members_model(s).remove(k));
}

/// The first member with a name gives that name's meaning.
pub proof fn lemma_members_index(s: Seq<(String, JsonValue)>, i: int)
    requires
        first_at(s, s[i].0@, i),
    ensures
        members_model(s).dom().contains(s[i].0@),
        members_model(s)[s[i].0@] == json_model(s[i].1),
{
    lemma_first_unique(s, s[i].0@, i);
}

/// Deep merge of `b` into `a`: where both are objects, the members of both,
/// merging again where both name a member; otherwise `a` when `prefer_a`,
/// else `b`.
pub open spec fn merged(a: JsonModel, b: JsonModel, prefer_a: bool) -> JsonModel
    decreases b,
{
    match b {
        JsonModel::Object(bm) => match a {
            JsonModel::Object(am) => JsonModel::Object(
                Map::new(
                    |k: Seq<char>| am.dom().contains(k) || bm.dom().contains(k),
                    |k: Seq<char>| if bm.dom().contains(k) {
                        if am.dom().contains(k) { merged(am[k], bm[k], prefer_a) } else { bm[k] }
                    } else {
                        am[k]
                    },
                ),
            ),
            _ => if prefer_a { a } else { b },
        },
        _ => if prefer_a { a } else { b },
    }
}

/// The members of the deep merge of two objects.
pub open spec fn merged_maps(am: Map<Seq<char>, JsonModel>, bm: Map<Seq<char>, JsonModel>, prefer_a: bool) -> Map<Seq<char>, JsonModel> {
    Map::new(
        |k: Seq<char>| am.dom().contains(k) || bm.dom().contains(k),
        |k: Seq<char>| if bm.dom().contains(k) {
            if am.dom().contains(k) { merged(am[k], bm[k], prefer_a) } else { bm[k] }
        } else {
            am[k]
        },
    )
}

pub proof fn lemma_merged_objects(am: Map<Seq<char>, JsonModel>, bm: Map<Seq<char>, JsonModel>, prefer_a: bool)
    ensures
        merged(JsonModel::Object(am), JsonModel::Object(bm), prefer_a) == JsonModel::Object(merged_maps(am, bm, prefer_a)),
{
    let l = merged(JsonModel::Object(am), JsonModel::Object(bm), prefer_a)->Object_0;
    assert(l =~= merged_maps(am, bm, prefer_a));
}

/// Merging a value with itself gives it back.
pub proof fn lemma_merged_idempotent(a: JsonModel, prefer_a: bool)
    ensures
        merged(a, a, prefer_a) == a,
    decreases a,
{
    match a {
        JsonModel::Object(am) => {
            lemma_merged_objects(am, am, prefer_a);
            let m = merged_maps(am, am, prefer_a);
            assert forall|k: Seq<char>| #[trigger] m.dom().contains(k) implies m[k] == am[k] by {
                lemma_merged_idempotent(am[k], prefer_a);
            }
            assert(m =~= am);
        },
        _ => {},
    }
}

impl Clone for JsonValue {
    fn clone(&self) -> (r: Self)
        ensures
            r@ == self@,
    {
        self.deep_copy()
    }
}

impl JsonValue {
    pub fn is_object(&self) -> (r: bool)
        ensures
            r == (self@ is Object),
    {
        match self {
            JsonValue::Object(_) => true,
            _ => false,
        }
    }

    /// An object with no members.
    pub fn new_object() -> (r: JsonValue)
        ensures
            r@ == empty_object(),
    {
        let r = JsonValue::Object(Vec::new());
        proof {
            assert(r@->Object_0 =~= Map::<Seq<char>, JsonModel>::empty());
        }
        r
    }

    /// A copy with the same meaning.
    pub fn deep_copy(&self) -> (r: JsonValue)
        ensures
            r@ == self@,
        decreases *self,
    {
        match self {
            JsonValue::Null => JsonValue::Null,
            JsonValue::Bool(b) => JsonValue::Bool(*b),
            JsonValue::Number(n) => JsonValue::Number(n.clone()),
            JsonValue::Str(s) => JsonValue::Str(s.clone()),
            JsonValue::Array(items) => {
                let mut out: Vec<JsonValue> = Vec::new();
                let mut i: usize = 0;
                while i < items.len()
                    invariant
                        *self == JsonValue::Array(*items),
                        i <= items.len(),
                        out.len() == i,
                        forall|j: int| 0 <= j < i ==> (#[trigger] out@[j])@ == items@[j]@,
                    decreases items.len() - i,
                {
                    proof { assert(self->Array_0 == *items); assert(decreases_to!(*self => self->Array_0@[idx(i)])); }
                    let c = items[i].deep_copy();
                    out.push(c);
                    i += 1;
                }
                let r = JsonValue::Array(out);
                proof {
                    assert(r@->Array_0 =~= self@->Array_0);
                }
                r
            },
            JsonValue::Object(members) => {
                let mut out: Vec<(String, JsonValue)> = Vec::new();
                let mut i: usize = 0;
                while i < members.len()
                    invariant
                        *self == JsonValue::Object(*members),
                        i <= members.len(),
                        out.len() == i,
                        forall|j: int| 0 <= j < i ==> (#[trigger] out@[j]).0@ == members@[j].0@
                            && out@[j].1@ == members@[j].1@,
                    decreases members.len() - i,
                {
                    proof { assert(self->Object_0 == *members); assert(decreases_to!(*self => self->Object_0@[idx(i)].1)); }
                    let c = members[i].1.deep_copy();
                    let k = members[i].0.clone();
                    out.push((k, c));
                    i += 1;
                }
                let r = JsonValue::Object(out);
                proof {
                    lemma_object_model(out);
                    lemma_object_model(*members);
                    lemma_same_names(out@, members@);
                    let l = members_model(out@);
                    let m = members_model(members@);
                    assert forall|k: Seq<char>| #[trigger] l.dom().contains(k) implies l[k] == m[k] by {
                        lemma_first_exists(out@, k);
                        let j = key_index(out@, k);
                        assert(first_at(members@, k, j));
                        lemma_members_index(out@, j);
                        lemma_members_index(members@, j);
                    }
                    assert(l =~= m);
                }
                r
            },
        }
    }

    /// Whether two values mean the same JSON document.
    pub fn same_as(&self, other: &JsonValue) -> (r: bool)
        ensures
            r == (self@ == other@),
        decreases *self,
    {
        match (self, other) {
            (JsonValue::Null, JsonValue::Null) => {
                assert(*self == JsonValue::Null && *other == JsonValue::Null);
                assert(self@ == other@);
                true
            },
            (JsonValue::Bool(x), JsonValue::Bool(y)) => {
                assert(*self == JsonValue::Bool(*x) && *other == JsonValue::Bool(*y));
                let r = *x == *y;
                assert(r == (self@ == other@));
                r
            },
            (JsonValue::Number(x), JsonValue::Number(y)) => {
                assert(*self == JsonValue::Number(*x) && *other == JsonValue::Number(*y));
                let r = str_equal(x.as_str(), y.as_str());
                assert(r == (self@ == other@));
                r
            },
            (JsonValue::Str(x), JsonValue::Str(y)) => {
                assert(*self == JsonValue::Str(*x) && *other == JsonValue::Str(*y));
                let r = str_equal(x.as_str(), y.as_str());
                assert(r == (self@ == other@));
                r
            },
            (JsonValue::Array(x), JsonValue::Array(y)) => {
                if x.len() != y.len() {
                    assert(self@->Array_0.len() != other@->Array_0.len());
                    return false;
                }
                let mut i: usize = 0;
                while i < x.len()
                    invariant
                        *self == JsonValue::Array(*x),
                        *other == JsonValue::Array(*y),
                        x.len() == y.len(),
                        i <= x.len(),
                        forall|j: int| 0 <= j < i ==> (#[trigger] x@[j])@ == y@[j]@,
                    decreases x.len() - i,
                {
                    proof { assert(self->Array_0 == *x); assert(decreases_to!(*self => self->Array_0@[idx(i)])); }
                    if !x[i].same_as(&y[i]) {
                        assert(self@->Array_0[idx(i)] != other@->Array_0[idx(i)]);
                        return false;
                    }
                    i += 1;
                }
                assert(self@->Array_0 =~= other@->Array_0);
                true
            },
            (JsonValue::Object(x), JsonValue::Object(y)) => {
                proof {
                    lemma_object_model(*x);
                    lemma_object_model(*y);
                }
                let ghost xm = members_model(x@);
                let ghost ym = members_model(y@);
                let mut i: usize = 0;
                while i < x.len()
                    invariant
                        *self == JsonValue::Object(*x),
                        *other == JsonValue::Object(*y),
                        xm == members_model(x@),
                        ym == members_model(y@),
                        self@ == JsonModel::Object(xm),
                        other@ == JsonModel::Object(ym),
                        i <= x.len(),
                        forall|j: int| 0 <= j < i && first_at(x@, (#[trigger] x@[j]).0@, j) ==>
                            ym.dom().contains(x@[j].0@) && ym[x@[j].0@] == xm[x@[j].0@],
                    decreases x.len() - i,
                {
                    let key = x[i].0.as_str();
                    if find_key(x, key) == Some(i) {
                        proof { lemma_members_index(x@, idx(i)); }
                        match find_key(y, key) {
                            Some(j) => {
                                proof {
                                    lemma_members_index(y@, idx(j));
                                    assert(self->Object_0 == *x); assert(decreases_to!(*self => self->Object_0@[idx(i)].1));
                                }
                                if !x[i].1.same_as(&y[j].1) {
                                    return false;
                                }
                            },
                            None => {
                                return false;
                            },
                        }
                    }
                    i += 1;
                }
                let mut j: usize = 0;
                while j < y.len()
                    invariant
                        xm == members_model(x@),
                        ym == members_model(y@),
                        self@ == JsonModel::Object(xm),
                        other@ == JsonModel::Object(ym),
                        j <= y.len(),
                        forall|a: int| 0 <= a < x.len() && first_at(x@, (#[trigger] x@[a]).0@, a) ==>
                            ym.dom().contains(x@[a].0@) && ym[x@[a].0@] == xm[x@[a].0@],
                        forall|b: int| 0 <= b < j ==> xm.dom().contains((#[trigger] y@[b]).0@),
                    decreases y.len() - j,
                {
                    match find_key(x, y[j].0.as_str()) {
                        Some(a) => {},
                        None => {
                            assert(!ym.dom().contains(y@[idx(j)].0@) || !xm.dom().contains(y@[idx(j)].0@));
                            assert(ym.dom().contains(y@[idx(j)].0@));
                            return false;
                        },
                    }
                    j += 1;
                }
                proof {
                    assert forall|k: Seq<char>| #[trigger] xm.dom().contains(k) == ym.dom().contains(k) by {
                        if xm.dom().contains(k) {
                            lemma_first_exists(x@, k);
                        }
                        if ym.dom().contains(k) {
                            let b = choose|b: int| 0 <= b < y.len() && (#[trigger] y@[b]).0@ == k;
                        }
                    }
                    assert forall|k: Seq<char>| #[trigger] xm.dom().contains(k) implies xm[k] == ym[k] by {
                        lemma_first_exists(x@, k);
                    }
                    assert(xm =~= ym);
                }
                true
            },
            _ => {
                assert(self@ != other@);
                false
            },
        }
    }
}

/// Two member lists with the same names at the same places.
proof fn lemma_same_names(a: Seq<(String, JsonValue)>, b: Seq<(String, JsonValue)>)
    requires
        a.len() == b.len(),
        forall|j: int| 0 <= j < a.len() ==> (#[trigger] a[j]).0@ == b[j].0@,
    ensures
        forall|k: Seq<char>| #[trigger] has_key(a, k) == has_key(b, k),
        forall|k: Seq<char>, i: int| #[trigger] first_at(a, k, i) ==> first_at(b, k, i),
        forall|k: Seq<char>, i: int| #[trigger] first_at(b, k, i) ==> first_at(a, k, i),
{
    assert forall|k: Seq<char>| #[trigger] has_key(a, k) == has_key(b, k) by {
        if has_key(a, k) {
            let i = choose|i: int| 0 <= i < a.len() && (#[trigger] a[i]).0@ == k;
            assert(b[i].0@ == k);
        }
        if has_key(b, k) {
            let i = choose|i: int| 0 <= i < b.len() && (#[trigger] b[i]).0@ == k;
            assert(a[i].0@ == k);
        }
    }
    assert forall|k: Seq<char>, i: int| #[trigger] first_at(a, k, i) implies first_at(b, k, i) by {
        assert forall|j: int| 0 <= j < i implies (#[trigger] b[j]).0@ != k by {
            assert(a[j].0@ != k);
        }
    }
    assert forall|k: Seq<char>, i: int| #[trigger] first_at(b, k, i) implies first_at(a, k, i) by {
        assert forall|j: int| 0 <= j < i implies (#[trigger] a[j]).0@ != k by {
            assert(b[j].0@ != k);
        }
    }
}

/// Adds (or replaces) the member `key` of an object's member list.
pub fn put_member(members: &mut Vec<(String, JsonValue)>, key: &str, val: JsonValue)
    ensures
        members_model(final(members)@) == members_model(old(members)@).insert(key@, val@),
{
    let ghost before = members@;
    let ghost v = val;
    crate::keyed::put(members, key.to_owned(), val);
    proof { lemma_members_insert(before, members@, key@, v); }
}

/// An object made from a member list.
pub fn object_of(members: Vec<(String, JsonValue)>) -> (r: JsonValue)
    ensures
        r@ == JsonModel::Object(members_model(members@)),
{
    proof { lemma_object_model(members); }
    JsonValue::Object(members)
}

/// Deep merge: where both are objects, members of both, merging the
/// members both name; otherwise `a` when `prefer_a`, else `b`.
pub fn deep_merge(a: JsonValue, b: JsonValue, prefer_a: bool) -> (r: JsonValue)
    ensures
        r@ == merged(a@, b@, prefer_a),
    decreases b@,
{
    let ghost bmodel = b@;
    match b {
        JsonValue::Object(bm) => match a {
            JsonValue::Object(am) => {
                let ghost am0 = members_model(am@);
                proof {
                    lemma_object_model(am);
                    lemma_object_model(bm);
                }
                let mut out = am;
                let mut i: usize = 0;
                while i < bm.len()
                    invariant
                        i <= bm.len(),
                        bmodel == b@,
                        bmodel == JsonModel::Object(members_model(bm@)),
                        members_model(out@) == merged_maps(am0, members_model(bm@.take(idx(i))), prefer_a),
                    decreases bm.len() - i,
                {
                    let ghost before = members_model(bm@.take(idx(i)));
                    let key = bm[i].0.as_str();
                    proof {
                        assert(bm@.take(idx(i) + 1) =~= bm@.take(idx(i)).push(bm@[idx(i)]));
                    }
                    let first = find_key(&bm, key);
                    if first == Some(i) {
                        proof {
                            assert(!has_key(bm@.take(idx(i)), key@)) by {
                                if has_key(bm@.take(idx(i)), key@) {
                                    let a = choose|a: int| 0 <= a < i && (#[trigger] bm@.take(idx(i))[a]).0@ == key@;
                                    assert(bm@.take(idx(i))[a] == bm@[a]);
                                }
                            }
                            lemma_push(bm@.take(idx(i)), bm@[idx(i)].0, bm@[idx(i)].1);
                            lemma_members_insert(bm@.take(idx(i)), bm@.take(idx(i) + 1), key@, bm@[idx(i)].1);
                            lemma_members_index(bm@, idx(i));
                        }
                        let incoming = bm[i].1.deep_copy();
                        let name = bm[i].0.clone();
                        proof {
                            assert(decreases_to!(bmodel => bmodel->Object_0[key@]));
                        }
                        let ghost after = members_model(bm@.take(idx(i) + 1));
                        let ghost cur = members_model(out@);
                        proof {
                            assert(after == before.insert(key@, incoming@));
                            assert(!before.dom().contains(key@));
                            assert(cur.dom().contains(key@) == am0.dom().contains(key@));
                            assert(am0.dom().contains(key@) ==> cur[key@] == am0[key@]);
                        }
                        match find_key(&out, key) {
                            Some(j) => {
                                proof { lemma_members_index(out@, idx(j)); }
                                let ghost prev = out@;
                                let (kept, existing) = out.remove(j);
                                proof {
                                    assert(existing@ == am0[key@]);
                                    assert(decreases_to!(bmodel => incoming@));
                                }
                                let m = deep_merge(existing, incoming, prefer_a);
                                proof {
                                    lemma_update(prev, idx(j), kept, m);
                                    lemma_members_insert(prev, prev.update(idx(j), (kept, m)), key@, m);
                                    assert(out@.insert(idx(j), (kept, m)) =~= prev.update(idx(j), (kept, m)));
                                }
                                out.insert(j, (kept, m));
                                proof {
                                    assert(members_model(out@) == cur.insert(key@, merged(am0[key@], incoming@, prefer_a)));
                                    assert(members_model(out@) =~= merged_maps(am0, after, prefer_a));
                                }
                            },
                            None => {
                                proof {
                                    lemma_push(out@, name, incoming);
                                    lemma_members_insert(out@, out@.push((name, incoming)), key@, incoming);
                                }
                                out.push((name, incoming));
                                proof {
                                    assert(!am0.dom().contains(key@));
                                    assert(members_model(out@) =~= merged_maps(am0, after, prefer_a));
                                }
                            },
                        }
                    } else {
                        proof {
                            let f = first->0;
                            assert(bm@.take(idx(i))[idx(f)] == bm@[idx(f)]);
                            assert(has_key(bm@.take(idx(i)), key@));
                            lemma_push_shadowed(bm@.take(idx(i)), bm@[idx(i)].0, bm@[idx(i)].1);
                            assert(members_model(bm@.take(idx(i) + 1)) =~= before);
                        }
                    }
                    i += 1;
                }
                proof {
                    assert(bm@.take(idx(bm.len())) =~= bm@);
                    lemma_object_model(out);
                    lemma_merged_objects(am0, members_model(bm@), prefer_a);
                }
                JsonValue::Object(out)
            },
            other => {
                if prefer_a {
                    other
                } else {
                    JsonValue::Object(bm)
                }
            },
        },
        other_b => {
            if prefer_a {
                a
            } else {
                other_b
            }
        },
    }
}

} // verus!
