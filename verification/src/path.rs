//! Dotted paths into a JSON document (`"avi.device.caps"`): reading,
//! writing and deleting the value a path names.
use vstd::prelude::*;
use vstd::string::StrSliceExecFns;
use crate::error::AviP2pError;
use crate::json::{JsonValue, JsonModel, empty_object, merged, members_model, lemma_object_model,
    lemma_members_index, lemma_members_insert, lemma_members_remove};
use crate::keyed::{find_key, remove_named, lemma_update, lemma_push, idx};
use crate::text::join2;

verus! {

/// The pieces of `s` between dots, as `str::split('.')` yields them.
pub open spec fn split_dots(s: Seq<char>) -> Seq<Seq<char>>
    decreases s.len(),
{
    if s.len() == 0 {
        seq![Seq::<char>::empty()]
    } else {
        let r = split_dots(s.drop_last());
        if s.last() == '.' {
            r.push(Seq::<char>::empty())
        } else {
            r.update(r.len() - 1, r.last().push(s.last()))
        }
    }
}

pub proof fn lemma_split_nonempty(s: Seq<char>)
    ensures
        split_dots(s).len() >= 1,
    decreases s.len(),
{
    if s.len() > 0 {
        lemma_split_nonempty(s.drop_last());
    }
}

/// The texts of a list of strings.
pub open spec fn texts(v: Seq<String>) -> Seq<Seq<char>> {
    Seq::new(v.len(), |i: int| v[i]@)
}

/// The path that names the whole document: the empty path.
pub open spec fn names_whole(keys: Seq<Seq<char>>) -> bool {
    keys.len() == 1 && keys[0].len() == 0
}

/// Why a path could not be followed.
pub enum PathFailure {
    ParentNotObject,
    CannotNavigate(Seq<char>),
}

/// The message that reports a failure.
pub open spec fn failure_text(f: PathFailure) -> Seq<char> {
    match f {
        PathFailure::ParentNotObject => "Parent is not an object"@,
        PathFailure::CannotNavigate(k) => "Failed to navigate to key: "@ + k,
    }
}

/// The value found by following `keys` through objects.
pub open spec fn lookup_keys(m: JsonModel, keys: Seq<Seq<char>>) -> Option<JsonModel>
    decreases keys.len(),
{
    if keys.len() == 0 {
        Some(m)
    } else {
        match m {
            JsonModel::Object(mm) => if mm.dom().contains(keys[0]) {
                lookup_keys(mm[keys[0]], keys.drop_first())
            } else {
                None
            },
            _ => None,
        }
    }
}

/// The value a dotted path names; the empty path names the whole document.
pub open spec fn lookup_path(m: JsonModel, path: Seq<char>) -> Option<JsonModel> {
    let keys = split_dots(path);
    if names_whole(keys) { Some(m) } else { lookup_keys(m, keys) }
}

/// Writes `new` at `keys` below `cur`, creating missing objects on the way.
pub open spec fn set_keys(cur: JsonModel, keys: Seq<Seq<char>>, new: JsonModel) -> Result<JsonModel, PathFailure>
    decreases keys.len(),
{
    if keys.len() == 0 {
        Ok(new)
    } else if keys.len() == 1 {
        match cur {
            JsonModel::Object(m) => Ok(JsonModel::Object(m.insert(keys[0], new))),
            _ => Err(PathFailure::ParentNotObject),
        }
    } else {
        match cur {
            JsonModel::Object(m) => {
                let child = if m.dom().contains(keys[0]) { m[keys[0]] } else { empty_object() };
                match set_keys(child, keys.drop_first(), new) {
                    Ok(c) => Ok(JsonModel::Object(m.insert(keys[0], c))),
                    Err(f) => Err(f),
                }
            },
            _ => Err(PathFailure::CannotNavigate(keys[0])),
        }
    }
}

/// Result of writing `new` at a dotted path: the empty path replaces the
/// document; otherwise a document that is not an object is first replaced
/// by an empty object.
pub open spec fn set_path(m: JsonModel, path: Seq<char>, new: JsonModel) -> Result<JsonModel, PathFailure> {
    let keys = split_dots(path);
    if names_whole(keys) {
        Ok(new)
    } else {
        set_keys(if m is Object { m } else { empty_object() }, keys, new)
    }
}

/// Removes the member that `keys` names below `cur`.
pub open spec fn delete_keys(cur: JsonModel, keys: Seq<Seq<char>>) -> Result<JsonModel, PathFailure>
    decreases keys.len(),
{
    if keys.len() == 0 {
        Ok(cur)
    } else if keys.len() == 1 {
        match cur {
            JsonModel::Object(m) => Ok(JsonModel::Object(m.remove(keys[0]))),
            _ => Err(PathFailure::ParentNotObject),
        }
    } else {
        match cur {
            JsonModel::Object(m) => if m.dom().contains(keys[0]) {
                match delete_keys(m[keys[0]], keys.drop_first()) {
                    Ok(c) => Ok(JsonModel::Object(m.insert(keys[0], c))),
                    Err(f) => Err(f),
                }
            } else {
                Err(PathFailure::CannotNavigate(keys[0]))
            },
            _ => Err(PathFailure::CannotNavigate(keys[0])),
        }
    }
}

/// Result of deleting at a dotted path; the empty path clears the document
/// to an empty object.
pub open spec fn delete_path(m: JsonModel, path: Seq<char>) -> Result<JsonModel, PathFailure> {
    let keys = split_dots(path);
    if names_whole(keys) { Ok(empty_object()) } else { delete_keys(m, keys) }
}

/// Splits a path at its dots.
pub fn split_path(path: &str) -> (r: Vec<String>)
    ensures
        texts(r@) == split_dots(path@),
        r.len() >= 1,
{
    let n = path.unicode_len();
    let mut parts: Vec<String> = Vec::new();
    let mut start: usize = 0;
    let mut i: usize = 0;
    proof {
        assert(texts(parts@) =~= Seq::<Seq<char>>::empty());
        assert(path@.take(0) =~= Seq::<char>::empty());
        assert(path@.subrange(0, 0) =~= Seq::<char>::empty());
        assert(texts(parts@).push(path@.subrange(0, 0)) =~= seq![Seq::<char>::empty()]);
    }
    while i < n
        invariant
            n == path@.len(),
            start <= i <= n,
            texts(parts@).push(path@.subrange(start as int, i as int)) == split_dots(path@.take(i as int)),
        decreases n - i,
    {
        let c = path.get_char(i);
        proof {
            assert(path@.take(i + 1).drop_last() =~= path@.take(i as int));
            assert(path@.take(i + 1).last() == c);
        }
        if c == '.' {
            let piece = path.substring_char(start, i).to_owned();
            proof {
                let old_t = texts(parts@);
                assert(texts(parts@.push(piece)) =~= old_t.push(piece@));
                assert(path@.subrange(i + 1, i + 1) =~= Seq::<char>::empty());
                assert(texts(parts@.push(piece)).push(path@.subrange(i + 1, i + 1))
                    =~= split_dots(path@.take(i + 1)));
            }
            parts.push(piece);
            start = i + 1;
        } else {
            proof {
                assert(path@.subrange(start as int, i + 1) =~= path@.subrange(start as int, i as int).push(c));
                assert(texts(parts@).push(path@.subrange(start as int, i + 1))
                    =~= split_dots(path@.take(i + 1)));
            }
        }
        i += 1;
    }
    let piece = path.substring_char(start, n).to_owned();
    proof {
        assert(path@.take(n as int) =~= path@);
        assert(texts(parts@.push(piece)) =~= texts(parts@).push(piece@));
    }
    parts.push(piece);
    parts
}

proof fn lemma_skip_step(keys: Seq<Seq<char>>, i: int)
    requires
        0 <= i < keys.len(),
    ensures
        keys.skip(i).len() >= 1,
        keys.skip(i)[0] == keys[i],
        keys.skip(i).drop_first() == keys.skip(i + 1),
{
    assert(keys.skip(i).drop_first() =~= keys.skip(i + 1));
}

/// Writing below a fresh object always succeeds.
pub proof fn lemma_set_fresh(keys: Seq<Seq<char>>, new: JsonModel)
    ensures
        set_keys(empty_object(), keys, new) is Ok,
    decreases keys.len(),
{
    if keys.len() > 1 {
        lemma_set_fresh(keys.drop_first(), new);
    }
}

/// Error message for a failure, as text.
fn failure_message(last: bool, key: &str) -> (r: String)
    ensures
        r@ == failure_text(if last { PathFailure::ParentNotObject } else { PathFailure::CannotNavigate(key@) }),
{
    if last {
        "Parent is not an object".to_owned()
    } else {
        join2("Failed to navigate to key: ", key)
    }
}

fn set_walk(cur: JsonValue, keys: &Vec<String>, i: usize, new: JsonValue) -> (r: Result<JsonValue, (JsonValue, String)>)
    requires
        i < keys.len(),
    ensures
        match set_keys(cur@, texts(keys@).skip(i as int), new@) {
            Ok(m) => r matches Ok(v) && v@ == m,
            Err(f) => r matches Err(e) && e.0@ == cur@ && e.1@ == failure_text(f),
        },
    decreases keys.len() - i,
{
    let ghost ks = texts(keys@).skip(i as int);
    proof { lemma_skip_step(texts(keys@), i as int); }
    let last = i + 1 == keys.len();
    let key = keys[i].as_str();
    match cur {
        JsonValue::Object(mut members) => {
            let ghost m0 = members_model(members@);
            proof { lemma_object_model(members); }
            if last {
                let name = keys[i].clone();
                match find_key(&members, key) {
                    Some(j) => {
                        proof {
                            lemma_update(members@, idx(j), name, new);
                            lemma_members_insert(members@, members@.update(idx(j), (name, new)), key@, new);
                        }
                        members.set(j, (name, new));
                    },
                    None => {
                        proof {
                            lemma_push(members@, name, new);
                            lemma_members_insert(members@, members@.push((name, new)), key@, new);
                        }
                        members.push((name, new));
                    },
                }
                proof { lemma_object_model(members); }
                Ok(JsonValue::Object(members))
            } else {
                proof { lemma_skip_step(texts(keys@), i + 1); }
                match find_key(&members, key) {
                    Some(j) => {
                        proof { lemma_members_index(members@, idx(j)); }
                        let ghost prev = members@;
                        let (kname, child) = members.remove(j);
                        match set_walk(child, keys, i + 1, new) {
                            Ok(c) => {
                                proof {
                                    lemma_update(prev, idx(j), kname, c);
                                    lemma_members_insert(prev, prev.update(idx(j), (kname, c)), key@, c);
                                    assert(members@.insert(idx(j), (kname, c)) =~= prev.update(idx(j), (kname, c)));
                                }
                                members.insert(j, (kname, c));
                                proof { lemma_object_model(members); }
                                Ok(JsonValue::Object(members))
                            },
                            Err(e) => {
                                let (back, msg) = e;
                                proof {
                                    lemma_update(prev, idx(j), kname, back);
                                    lemma_members_insert(prev, prev.update(idx(j), (kname, back)), key@, back);
                                    assert(members@.insert(idx(j), (kname, back)) =~= prev.update(idx(j), (kname, back)));
                                    assert(m0.insert(key@, back@) =~= m0);
                                }
                                members.insert(j, (kname, back));
                                proof { lemma_object_model(members); }
                                Err((JsonValue::Object(members), msg))
                            },
                        }
                    },
                    None => {
                        let fresh = JsonValue::new_object();
                        match set_walk(fresh, keys, i + 1, new) {
                            Ok(c) => {
                                let name = keys[i].clone();
                                proof {
                                    lemma_push(members@, name, c);
                                    lemma_members_insert(members@, members@.push((name, c)), key@, c);
                                }
                                members.push((name, c));
                                proof { lemma_object_model(members); }
                                Ok(JsonValue::Object(members))
                            },
                            Err(e) => {
                                proof { lemma_set_fresh(texts(keys@).skip(i + 1), new@); }
                                proof { lemma_object_model(members); }
                                Err((JsonValue::Object(members), e.1))
                            },
                        }
                    },
                }
            }
        },
        other => {
            let msg = failure_message(last, key);
            Err((other, msg))
        },
    }
}

/// Writes `new_value` at a dotted path, creating objects along the way;
/// the empty path replaces the whole document.
pub fn set_nested_value(data: &mut JsonValue, path: &str, new_value: JsonValue) -> (r: Result<(), AviP2pError>)
    ensures
        match set_path(old(data)@, path@, new_value@) {
            Ok(m) => r is Ok && final(data)@ == m,
            Err(f) => r matches Err(AviP2pError::InvalidPath(msg)) && msg@ == failure_text(f)
                && final(data)@ == old(data)@,
        },
{
    let keys = split_path(path);
    if keys.len() == 1 && keys[0].as_str().is_empty() {
        *data = new_value;
        return Ok(());
    }
    proof { assert(!names_whole(texts(keys@))); }
    let mut cur = JsonValue::Null;
    std::mem::swap(&mut cur, data);
    let was_object = cur.is_object();
    if !was_object {
        cur = JsonValue::new_object();
        proof { lemma_set_fresh(texts(keys@), new_value@); }
    }
    proof { assert(texts(keys@).skip(0) =~= texts(keys@)); }
    match set_walk(cur, &keys, 0, new_value) {
        Ok(v) => {
            *data = v;
            Ok(())
        },
        Err(e) => {
            let (back, msg) = e;
            *data = back;
            Err(AviP2pError::InvalidPath(msg))
        },
    }
}

fn delete_walk(cur: JsonValue, keys: &Vec<String>, i: usize) -> (r: Result<JsonValue, (JsonValue, String)>)
    requires
        i < keys.len(),
    ensures
        match delete_keys(cur@, texts(keys@).skip(i as int)) {
            Ok(m) => r matches Ok(v) && v@ == m,
            Err(f) => r matches Err(e) && e.0@ == cur@ && e.1@ == failure_text(f),
        },
    decreases keys.len() - i,
{
    proof { lemma_skip_step(texts(keys@), i as int); }
    let last = i + 1 == keys.len();
    let key = keys[i].as_str();
    match cur {
        JsonValue::Object(mut members) => {
            let ghost m0 = members_model(members@);
            proof { lemma_object_model(members); }
            if last {
                let ghost prev = members@;
                remove_named(&mut members, key);
                proof {
                    lemma_members_remove(prev, members@, key@);
                    lemma_object_model(members);
                }
                Ok(JsonValue::Object(members))
            } else {
                proof { lemma_skip_step(texts(keys@), i + 1); }
                match find_key(&members, key) {
                    Some(j) => {
                        proof { lemma_members_index(members@, idx(j)); }
                        let ghost prev = members@;
                        let (kname, child) = members.remove(j);
                        match delete_walk(child, keys, i + 1) {
                            Ok(c) => {
                                proof {
                                    lemma_update(prev, idx(j), kname, c);
                                    lemma_members_insert(prev, prev.update(idx(j), (kname, c)), key@, c);
                                    assert(members@.insert(idx(j), (kname, c)) =~= prev.update(idx(j), (kname, c)));
                                }
                                members.insert(j, (kname, c));
                                proof { lemma_object_model(members); }
                                Ok(JsonValue::Object(members))
                            },
                            Err(e) => {
                                let (back, msg) = e;
                                proof {
                                    lemma_update(prev, idx(j), kname, back);
                                    lemma_members_insert(prev, prev.update(idx(j), (kname, back)), key@, back);
                                    assert(members@.insert(idx(j), (kname, back)) =~= prev.update(idx(j), (kname, back)));
                                    assert(m0.insert(key@, back@) =~= m0);
                                }
                                members.insert(j, (kname, back));
                                proof { lemma_object_model(members); }
                                Err((JsonValue::Object(members), msg))
                            },
                        }
                    },
                    None => {
                        let msg = failure_message(false, key);
                        proof { lemma_object_model(members); }
                        Err((JsonValue::Object(members), msg))
                    },
                }
            }
        },
        other => {
            let msg = failure_message(last, key);
            Err((other, msg))
        },
    }
}

/// Removes the member a dotted path names; the empty path clears the
/// document to an empty object.
pub fn delete_nested_value(data: &mut JsonValue, path: &str) -> (r: Result<(), AviP2pError>)
    ensures
        match delete_path(old(data)@, path@) {
            Ok(m) => r is Ok && final(data)@ == m,
            Err(f) => r matches Err(AviP2pError::InvalidPath(msg)) && msg@ == failure_text(f)
                && final(data)@ == old(data)@,
        },
{
    let keys = split_path(path);
    if keys.len() == 1 && keys[0].as_str().is_empty() {
        *data = JsonValue::new_object();
        return Ok(());
    }
    proof { assert(!names_whole(texts(keys@))); }
    let mut cur = JsonValue::Null;
    std::mem::swap(&mut cur, data);
    proof { assert(texts(keys@).skip(0) =~= texts(keys@)); }
    match delete_walk(cur, &keys, 0) {
        Ok(v) => {
            *data = v;
            Ok(())
        },
        Err(e) => {
            let (back, msg) = e;
            *data = back;
            Err(AviP2pError::InvalidPath(msg))
        },
    }
}

/// A copy of the value a dotted path names, if there is one; the empty path
/// names the whole document.
pub fn get_nested_value(data: &JsonValue, path: &str) -> (r: Option<JsonValue>)
    ensures
        match lookup_path(data@, path@) {
            Some(m) => r matches Some(v) && v@ == m,
            None => r is None,
        },
{
    let keys = split_path(path);
    if keys.len() == 1 && keys[0].as_str().is_empty() {
        return Some(data.deep_copy());
    }
    let mut cur: &JsonValue = data;
    let mut i: usize = 0;
    proof {
        assert(texts(keys@).skip(0) =~= texts(keys@));
        assert(!names_whole(texts(keys@)));
    }
    while i < keys.len()
        invariant
            i <= keys.len(),
            texts(keys@) == split_dots(path@),
            !names_whole(texts(keys@)),
            lookup_keys(data@, texts(keys@)) == lookup_keys(cur@, texts(keys@).skip(i as int)),
        decreases keys.len() - i,
    {
        proof { lemma_skip_step(texts(keys@), i as int); }
        match cur {
            JsonValue::Object(members) => {
                proof { lemma_object_model(*members); }
                match find_key(members, keys[i].as_str()) {
                    Some(j) => {
                        proof { lemma_members_index(members@, idx(j)); }
                        cur = &members[j].1;
                    },
                    None => {
                        proof {
                            assert(!cur@->Object_0.dom().contains(keys@[idx(i)]@));
                            assert(lookup_keys(cur@, texts(keys@).skip(idx(i))) is None);
                        }
                        return None;
                    },
                }
            },
            _ => {
                proof {
                    assert(lookup_keys(cur@, texts(keys@).skip(idx(i))) is None);
                }
                return None;
            },
        }
        i += 1;
    }
    proof { assert(texts(keys@).skip(idx(keys.len())) =~= Seq::<Seq<char>>::empty()); }
    Some(cur.deep_copy())
}

/// A value written at a path is what reading that path gives back.
pub proof fn lemma_read_after_write(m: JsonModel, path: Seq<char>, x: JsonModel)
    requires
        set_path(m, path, x) is Ok,
    ensures
        lookup_path(set_path(m, path, x)->Ok_0, path) == Some(x),
{
    let keys = split_dots(path);
    if !names_whole(keys) {
        lemma_split_nonempty(path);
        lemma_set_then_lookup(if m is Object { m } else { empty_object() }, keys, x);
    }
}

proof fn lemma_set_then_lookup(cur: JsonModel, keys: Seq<Seq<char>>, x: JsonModel)
    requires
        keys.len() >= 1,
        set_keys(cur, keys, x) is Ok,
    ensures
        lookup_keys(set_keys(cur, keys, x)->Ok_0, keys) == Some(x),
    decreases keys.len(),
{
    let m = cur->Object_0;
    if keys.len() > 1 {
        let child = if m.dom().contains(keys[0]) { m[keys[0]] } else { empty_object() };
        lemma_set_then_lookup(child, keys.drop_first(), x);
        let c = set_keys(child, keys.drop_first(), x)->Ok_0;
        assert(set_keys(cur, keys, x)->Ok_0 == JsonModel::Object(m.insert(keys[0], c)));
        assert(m.insert(keys[0], c)[keys[0]] == c);
    } else {
        assert(keys.drop_first().len() == 0);
        assert(set_keys(cur, keys, x)->Ok_0 == JsonModel::Object(m.insert(keys[0], x)));
        assert(m.insert(keys[0], x)[keys[0]] == x);
        assert(lookup_keys(x, keys.drop_first()) == Some(x));
    }
}

/// After a successful delete of a non-empty path, reading it finds nothing.
pub proof fn lemma_read_after_delete(m: JsonModel, path: Seq<char>)
    requires
        delete_path(m, path) is Ok,
        !names_whole(split_dots(path)),
    ensures
        lookup_path(delete_path(m, path)->Ok_0, path) is None,
{
    lemma_split_nonempty(path);
    lemma_delete_then_lookup(m, split_dots(path));
}

proof fn lemma_delete_then_lookup(cur: JsonModel, keys: Seq<Seq<char>>)
    requires
        keys.len() >= 1,
        delete_keys(cur, keys) is Ok,
    ensures
        lookup_keys(delete_keys(cur, keys)->Ok_0, keys) is None,
    decreases keys.len(),
{
    if keys.len() > 1 {
        let m = cur->Object_0;
        lemma_delete_then_lookup(m[keys[0]], keys.drop_first());
    }
}

/// Writing at one path leaves every path under another top-level member
/// of an object as it was.
pub proof fn lemma_write_frame(m: JsonModel, p: Seq<char>, q: Seq<char>, x: JsonModel)
    requires
        m is Object,
        set_path(m, p, x) is Ok,
        !names_whole(split_dots(p)),
        !names_whole(split_dots(q)),
        split_dots(p)[0] != split_dots(q)[0],
    ensures
        lookup_path(set_path(m, p, x)->Ok_0, q) == lookup_path(m, q),
{
    lemma_split_nonempty(p);
    lemma_split_nonempty(q);
}

/// Writing at a path leaves every other path as it was: when neither path
/// is a prefix of the other (siblings under one parent included), reading
/// `q` after writing at `p` gives what reading `q` gave before.
pub proof fn lemma_write_leaves_other_paths(m: JsonModel, p: Seq<char>, q: Seq<char>, x: JsonModel)
    requires
        set_path(m, p, x) is Ok,
        !names_whole(split_dots(p)),
        !names_whole(split_dots(q)),
        !split_dots(p).is_prefix_of(split_dots(q)),
        !split_dots(q).is_prefix_of(split_dots(p)),
    ensures
        lookup_path(set_path(m, p, x)->Ok_0, q) == lookup_path(m, q),
{
    lemma_split_nonempty(p);
    lemma_split_nonempty(q);
    let cur = if m is Object { m } else { empty_object() };
    lemma_set_keys_frame(cur, split_dots(p), split_dots(q), x);
    if !(m is Object) {
        lemma_lookup_empty(split_dots(q));
    }
}

proof fn lemma_lookup_empty(keys: Seq<Seq<char>>)
    requires
        keys.len() >= 1,
    ensures
        lookup_keys(empty_object(), keys) is None,
{
}

proof fn lemma_set_keys_frame(cur: JsonModel, kp: Seq<Seq<char>>, kq: Seq<Seq<char>>, x: JsonModel)
    requires
        kp.len() >= 1,
        kq.len() >= 1,
        set_keys(cur, kp, x) is Ok,
        !kp.is_prefix_of(kq),
        !kq.is_prefix_of(kp),
    ensures
        lookup_keys(set_keys(cur, kp, x)->Ok_0, kq) == lookup_keys(cur, kq),
    decreases kp.len(),
{
    let m = cur->Object_0;
    if kp[0] != kq[0] {
        if kp.len() > 1 {
            let child = if m.dom().contains(kp[0]) { m[kp[0]] } else { empty_object() };
            let c = set_keys(child, kp.drop_first(), x)->Ok_0;
            assert(set_keys(cur, kp, x)->Ok_0 == JsonModel::Object(m.insert(kp[0], c)));
        } else {
            assert(set_keys(cur, kp, x)->Ok_0 == JsonModel::Object(m.insert(kp[0], x)));
        }
    } else {
        if kq.len() == 1 {
            assert(kq =~= kp.subrange(0, 1));
            assert(false);
        }
        if kp.len() == 1 {
            assert(kp =~= kq.subrange(0, 1));
            assert(false);
        }
        let rp = kp.drop_first();
        let rq = kq.drop_first();
        if rp.is_prefix_of(rq) {
            assert(rp =~= rq.subrange(0, rp.len() as int));
            assert forall|i: int| 0 <= i < kp.len() implies kp[i] == kq.subrange(0, kp.len() as int)[i] by {
                if i > 0 {
                    assert(kp[i] == rp[i - 1]);
                    assert(rq.subrange(0, rp.len() as int)[i - 1] == rq[i - 1]);
                    assert(kq[i] == rq[i - 1]);
                }
            }
            assert(kp =~= kq.subrange(0, kp.len() as int));
            assert(false);
        }
        if rq.is_prefix_of(rp) {
            assert(rq =~= rp.subrange(0, rq.len() as int));
            assert forall|i: int| 0 <= i < kq.len() implies kq[i] == kp.subrange(0, kq.len() as int)[i] by {
                if i > 0 {
                    assert(kq[i] == rq[i - 1]);
                    assert(rp.subrange(0, rq.len() as int)[i - 1] == rp[i - 1]);
                    assert(kp[i] == rp[i - 1]);
                }
            }
            assert(kq =~= kp.subrange(0, kq.len() as int));
            assert(false);
        }
        let child = if m.dom().contains(kp[0]) { m[kp[0]] } else { empty_object() };
        lemma_set_keys_frame(child, rp, rq, x);
        let c = set_keys(child, rp, x)->Ok_0;
        assert(set_keys(cur, kp, x)->Ok_0 == JsonModel::Object(m.insert(kp[0], c)));
        assert(m.insert(kp[0], c)[kq[0]] == c);
        if !m.dom().contains(kp[0]) {
            lemma_lookup_empty(rq);
        }
    }
}

/// Merging with ours preferred keeps every value our document holds: where
/// reading a path in `a` gives a value that is not an object (null
/// included), reading it in `merged(a, b, true)` gives that same value,
/// whatever `b` holds there. In particular, where either side is not an
/// object, the preferred side comes out whole.
pub proof fn lemma_merge_keeps_preferred_values(a: JsonModel, b: JsonModel, keys: Seq<Seq<char>>)
    requires
        lookup_keys(a, keys) matches Some(v) && !(v is Object),
    ensures
        lookup_keys(merged(a, b, true), keys) == lookup_keys(a, keys),
    decreases keys.len(),
{
    if keys.len() > 0 {
        let am = a->Object_0;
        let k = keys[0];
        if let JsonModel::Object(bm) = b {
            let r = merged(a, b, true)->Object_0;
            assert(r.dom().contains(k));
            if bm.dom().contains(k) {
                assert(r[k] == merged(am[k], bm[k], true));
                lemma_merge_keeps_preferred_values(am[k], bm[k], keys.drop_first());
            } else {
                assert(r[k] == am[k]);
            }
        }
    }
}

/// Where one side is not an object there is nothing to combine: the
/// preferred side comes out exactly as it was (null included), and the
/// other side is dropped.
pub proof fn lemma_merge_conflict_goes_to_preferred(a: JsonModel, b: JsonModel)
    requires
        !(a is Object) || !(b is Object),
    ensures
        merged(a, b, true) == a,
        merged(a, b, false) == b,
{
}

/// A patch wins everywhere it holds a value: where reading a path in the
/// patch `b` gives a value that is not an object (null included), reading
/// it in `merged(a, b, false)` gives that value, whatever `a` held there,
/// an object included.
pub proof fn lemma_merge_patch_values_win(a: JsonModel, b: JsonModel, keys: Seq<Seq<char>>)
    requires
        lookup_keys(b, keys) matches Some(v) && !(v is Object),
    ensures
        lookup_keys(merged(a, b, false), keys) == lookup_keys(b, keys),
    decreases keys.len(),
{
    if keys.len() > 0 {
        let bm = b->Object_0;
        let k = keys[0];
        if let JsonModel::Object(am) = a {
            let r = merged(a, b, false)->Object_0;
            assert(r.dom().contains(k));
            if am.dom().contains(k) {
                assert(r[k] == merged(am[k], bm[k], false));
                lemma_merge_patch_values_win(am[k], bm[k], keys.drop_first());
            } else {
                assert(r[k] == bm[k]);
            }
        }
    }
}

/// Writing a fresh member and deleting it again gives the document back:
/// when the path's parent is an object that lacks the last key, a write
/// at the path followed by a delete there restores the document exactly.
pub proof fn lemma_write_then_delete_fresh(m: JsonModel, path: Seq<char>, x: JsonModel)
    requires
        !names_whole(split_dots(path)),
        lookup_keys(m, split_dots(path).drop_last()) matches Some(JsonModel::Object(o))
            && !o.dom().contains(split_dots(path).last()),
    ensures
        set_path(m, path, x) is Ok,
        delete_path(set_path(m, path, x)->Ok_0, path) == Ok::<JsonModel, PathFailure>(m),
{
    let keys = split_dots(path);
    lemma_split_nonempty(path);
    lemma_set_then_delete_keys(m, keys, x);
    if keys.len() > 1 {
        assert(m is Object);
    } else {
        assert(keys.drop_last().len() == 0);
        assert(lookup_keys(m, keys.drop_last()) == Some(m));
    }
}

proof fn lemma_set_then_delete_keys(cur: JsonModel, keys: Seq<Seq<char>>, x: JsonModel)
    requires
        keys.len() >= 1,
        lookup_keys(cur, keys.drop_last()) matches Some(JsonModel::Object(o)) && !o.dom().contains(keys.last()),
    ensures
        set_keys(cur, keys, x) is Ok,
        delete_keys(set_keys(cur, keys, x)->Ok_0, keys) == Ok::<JsonModel, PathFailure>(cur),
    decreases keys.len(),
{
    if keys.len() == 1 {
        assert(keys.drop_last().len() == 0);
        assert(lookup_keys(cur, keys.drop_last()) == Some(cur));
        let m = cur->Object_0;
        assert(keys.last() == keys[0]);
        assert(m.insert(keys[0], x).remove(keys[0]) =~= m);
    } else {
        let rest = keys.drop_first();
        assert(keys.drop_last().len() > 0);
        assert(keys.drop_last()[0] == keys[0]);
        assert(keys.drop_last().drop_first() =~= rest.drop_last());
        assert(rest.last() == keys.last());
        let m = cur->Object_0;
        assert(m.dom().contains(keys[0]));
        let child = m[keys[0]];
        lemma_set_then_delete_keys(child, rest, x);
        let c = set_keys(child, rest, x)->Ok_0;
        assert(set_keys(cur, keys, x) == Ok::<JsonModel, PathFailure>(JsonModel::Object(m.insert(keys[0], c))));
        assert(m.insert(keys[0], c)[keys[0]] == c);
        assert(m.insert(keys[0], c).insert(keys[0], child) =~= m);
    }
}

/// Writing below a document that is not an object never fails.
pub proof fn lemma_write_into_non_object(m: JsonModel, p: Seq<char>, x: JsonModel)
    requires
        !(m is Object),
    ensures
        set_path(m, p, x) is Ok,
{
    lemma_set_fresh(split_dots(p), x);
}

} // verus!
