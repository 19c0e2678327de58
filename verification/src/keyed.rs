//! Lists of named entries, `Vec<(String, T)>`, used as maps keyed by text.
//! The first entry with a name is the one that counts: a list means the map
//! from each name to its first entry. (vstd specifies `HashMap` only for key
//! types whose hashing it models, integers among them and `String` not, so
//! text-keyed maps are kept as such lists; maps keyed by numbers are
//! `HashMap`s.)
use vstd::prelude::*;
use crate::text::str_equal;

verus! {

/// A `usize` position as a mathematical integer.
pub open spec fn idx(i: usize) -> int {
    i as int
}

pub open spec fn has_key<T>(s: Seq<(String, T)>, k: Seq<char>) -> bool {
    exists|i: int| 0 <= i < s.len() && (#[trigger] s[i]).0@ == k
}

/// Entry `i` is the first one named `k`.
pub open spec fn first_at<T>(s: Seq<(String, T)>, k: Seq<char>, i: int) -> bool {
    &&& 0 <= i < s.len()
    &&& s[i].0@ == k
    &&& forall|j: int| 0 <= j < i ==> (#[trigger] s[j]).0@ != k
}

pub open spec fn keys_unique<T>(s: Seq<(String, T)>) -> bool {
    forall|i: int, j: int|
        0 <= i < s.len() && 0 <= j < s.len() && i != j ==> (#[trigger] s[i]).0@ != (#[trigger] s[j]).0@
}

/// Position of the first entry named `k` (meaningful when `has_key(s, k)`).
pub open spec fn key_index<T>(s: Seq<(String, T)>, k: Seq<char>) -> int {
    choose|i: int| first_at(s, k, i)
}

/// The map that a list of named entries stands for.
pub open spec fn entry_map<T>(s: Seq<(String, T)>) -> Map<Seq<char>, T> {
    Map::new(|k: Seq<char>| has_key(s, k), |k: Seq<char>| s[key_index(s, k)].1)
}

pub proof fn lemma_first_exists<T>(s: Seq<(String, T)>, k: Seq<char>)
    requires
        has_key(s, k),
    ensures
        first_at(s, k, key_index(s, k)),
    decreases s.len(),
{
    let last = s.len() - 1;
    if has_key(s.drop_last(), k) {
        lemma_first_exists(s.drop_last(), k);
        let i = key_index(s.drop_last(), k);
        assert forall|j: int| 0 <= j < i implies (#[trigger] s[j]).0@ != k by {
            assert(s[j] == s.drop_last()[j]);
        }
        assert(s[i] == s.drop_last()[i]);
        assert(first_at(s, k, i));
    } else {
        let w = choose|i: int| 0 <= i < s.len() && (#[trigger] s[i]).0@ == k;
        if w < last {
            assert(s.drop_last()[w] == s[w]);
        }
        assert forall|j: int| 0 <= j < last implies (#[trigger] s[j]).0@ != k by {
            assert(s[j] == s.drop_last()[j]);
        }
        assert(first_at(s, k, last));
    }
}

/// The first entry named `k` is unique.
pub proof fn lemma_first_unique<T>(s: Seq<(String, T)>, k: Seq<char>, i: int)
    requires
        first_at(s, k, i),
    ensures
        key_index(s, k) == i,
        has_key(s, k),
        entry_map(s).dom().contains(k),
        entry_map(s)[k] == s[i].1,
{
    assert(has_key(s, k));
    lemma_first_exists(s, k);
    let j = key_index(s, k);
    if j < i {
        assert(s[j].0@ != k);
    }
    if i < j {
        assert(s[i].0@ != k);
    }
}

pub proof fn lemma_key_index<T>(s: Seq<(String, T)>, i: int)
    requires
        keys_unique(s),
        0 <= i < s.len(),
    ensures
        first_at(s, s[i].0@, i),
        key_index(s, s[i].0@) == i,
        entry_map(s).dom().contains(s[i].0@),
        entry_map(s)[s[i].0@] == s[i].1,
{
    assert forall|j: int| 0 <= j < i implies (#[trigger] s[j]).0@ != s[i].0@ by {}
    lemma_first_unique(s, s[i].0@, i);
}

pub proof fn lemma_push<T>(s: Seq<(String, T)>, k: String, v: T)
    requires
        !has_key(s, k@),
    ensures
        keys_unique(s) ==> keys_unique(s.push((k, v))),
        entry_map(s.push((k, v))) == entry_map(s).insert(k@, v),
{
    let t = s.push((k, v));
    assert forall|i: int| 0 <= i < s.len() implies #[trigger] t[i] == s[i] by {}
    if keys_unique(s) {
        assert forall|i: int, j: int|
            0 <= i < t.len() && 0 <= j < t.len() && i != j implies (#[trigger] t[i]).0@ != (#[trigger] t[j]).0@ by {
            if i < s.len() && j < s.len() {
                assert(t[i] == s[i] && t[j] == s[j]);
            } else if i < s.len() {
                assert(t[i] == s[i]);
            } else {
                assert(t[j] == s[j]);
            }
        }
    }
    assert forall|kk: Seq<char>| #[trigger] has_key(t, kk) == (has_key(s, kk) || kk == k@) by {
        if has_key(s, kk) {
            let i = choose|i: int| 0 <= i < s.len() && (#[trigger] s[i]).0@ == kk;
            assert(t[i] == s[i]);
        }
        if kk == k@ {
            assert(t[s.len() as int].0@ == k@);
        }
        if has_key(t, kk) {
            let i = choose|i: int| 0 <= i < t.len() && (#[trigger] t[i]).0@ == kk;
            if i < s.len() {
                assert(t[i] == s[i]);
            }
        }
    }
    assert forall|kk: Seq<char>| has_key(t, kk) implies #[trigger] entry_map(t)[kk] == entry_map(s).insert(k@, v)[kk] by {
        if kk == k@ {
            assert forall|j: int| 0 <= j < s.len() implies (#[trigger] t[j]).0@ != kk by {
                assert(t[j] == s[j]);
            }
            lemma_first_unique(t, kk, s.len() as int);
        } else {
            lemma_first_exists(s, kk);
            let i = key_index(s, kk);
            assert(t[i] == s[i]);
            assert forall|j: int| 0 <= j < i implies (#[trigger] t[j]).0@ != kk by {
                assert(t[j] == s[j]);
            }
            lemma_first_unique(t, kk, i);
        }
    }
    assert(entry_map(t) =~= entry_map(s).insert(k@, v));
}

pub proof fn lemma_update<T>(s: Seq<(String, T)>, i: int, k: String, v: T)
    requires
        first_at(s, k@, i),
    ensures
        keys_unique(s) ==> keys_unique(s.update(i, (k, v))),
        first_at(s.update(i, (k, v)), k@, i),
        entry_map(s.update(i, (k, v))) == entry_map(s).insert(k@, v),
{
    let t = s.update(i, (k, v));
    assert forall|a: int| 0 <= a < t.len() implies (#[trigger] t[a]).0@ == s[a].0@ by {}
    assert forall|kk: Seq<char>| #[trigger] has_key(t, kk) == has_key(s, kk) by {
        if has_key(s, kk) {
            let j = choose|j: int| 0 <= j < s.len() && (#[trigger] s[j]).0@ == kk;
            assert(t[j].0@ == s[j].0@);
        }
        if has_key(t, kk) {
            let j = choose|j: int| 0 <= j < t.len() && (#[trigger] t[j]).0@ == kk;
            assert(t[j].0@ == s[j].0@);
        }
    }
    assert forall|j: int| 0 <= j < i implies (#[trigger] t[j]).0@ != k@ by {
        assert(t[j].0@ == s[j].0@);
    }
    assert forall|kk: Seq<char>| has_key(t, kk) implies #[trigger] entry_map(t)[kk] == entry_map(s).insert(k@, v)[kk] by {
        if kk == k@ {
            lemma_first_unique(t, kk, i);
        } else {
            lemma_first_exists(s, kk);
            let j = key_index(s, kk);
            assert(t[j] == s[j]);
            assert forall|m: int| 0 <= m < j implies (#[trigger] t[m]).0@ != kk by {
                assert(t[m].0@ == s[m].0@);
            }
            lemma_first_unique(t, kk, j);
        }
    }
    assert(entry_map(t) =~= entry_map(s).insert(k@, v));
}

/// A later entry with a name already present changes nothing.
pub proof fn lemma_push_shadowed<T>(s: Seq<(String, T)>, k: String, v: T)
    requires
        has_key(s, k@),
    ensures
        entry_map(s.push((k, v))) == entry_map(s),
{
    let t = s.push((k, v));
    assert forall|i: int| 0 <= i < s.len() implies #[trigger] t[i] == s[i] by {}
    assert forall|kk: Seq<char>| #[trigger] has_key(t, kk) == has_key(s, kk) by {
        if has_key(s, kk) {
            let i = choose|i: int| 0 <= i < s.len() && (#[trigger] s[i]).0@ == kk;
            assert(t[i] == s[i]);
        }
        if has_key(t, kk) {
            let i = choose|i: int| 0 <= i < t.len() && (#[trigger] t[i]).0@ == kk;
            if i < s.len() {
                assert(t[i] == s[i]);
            }
        }
    }
    assert forall|kk: Seq<char>| has_key(t, kk) implies #[trigger] entry_map(t)[kk] == entry_map(s)[kk] by {
        lemma_first_exists(s, kk);
        let i = key_index(s, kk);
        assert(t[i] == s[i]);
        assert forall|j: int| 0 <= j < i implies (#[trigger] t[j]).0@ != kk by {
            assert(t[j] == s[j]);
        }
        lemma_first_unique(t, kk, i);
    }
    assert(entry_map(t) =~= entry_map(s));
}

/// Dropping an entry named `k` leaves the meaning of every other name alone.
pub proof fn lemma_remove_named<T>(s: Seq<(String, T)>, j: int, k: Seq<char>)
    requires
        0 <= j < s.len(),
        s[j].0@ == k,
    ensures
        entry_map(s.remove(j)).remove(k) == entry_map(s).remove(k),
{
    let t = s.remove(j);
    assert forall|a: int| 0 <= a < t.len() implies #[trigger] t[a] == s[if a < j { a } else { a + 1 }] by {}
    assert forall|kk: Seq<char>| kk != k implies #[trigger] has_key(t, kk) == has_key(s, kk) by {
        if has_key(s, kk) {
            let b = choose|b: int| 0 <= b < s.len() && (#[trigger] s[b]).0@ == kk;
            let a = if b < j { b } else { b - 1 };
            assert(t[a] == s[if a < j { a } else { a + 1 }]);
        }
        if has_key(t, kk) {
            let a = choose|a: int| 0 <= a < t.len() && (#[trigger] t[a]).0@ == kk;
            assert(t[a] == s[if a < j { a } else { a + 1 }]);
        }
    }
    assert forall|kk: Seq<char>| kk != k && has_key(t, kk) implies #[trigger] entry_map(t)[kk] == entry_map(s)[kk] by {
        lemma_first_exists(s, kk);
        let b = key_index(s, kk);
        let a = if b < j { b } else { b - 1 };
        assert(t[a] == s[if a < j { a } else { a + 1 }]);
        assert forall|m: int| 0 <= m < a implies (#[trigger] t[m]).0@ != kk by {
            assert(t[m] == s[if m < j { m } else { m + 1 }]);
        }
        lemma_first_unique(t, kk, a);
    }
    assert(entry_map(t).remove(k) =~= entry_map(s).remove(k));
}

/// Position of the first entry named `key`, if any.
pub fn find_key<T>(v: &Vec<(String, T)>, key: &str) -> (r: Option<usize>)
    ensures
        match r {
            Some(i) => first_at(v@, key@, i as int),
            None => !has_key(v@, key@),
        },
{
    let mut i: usize = 0;
    while i < v.len()
        invariant
            i <= v.len(),
            forall|j: int| 0 <= j < i ==> (#[trigger] v@[j]).0@ != key@,
        decreases v.len() - i,
    {
        if str_equal(v[i].0.as_str(), key) {
            return Some(i);
        }
        i += 1;
    }
    None
}

/// Drops every entry named `key`.
pub fn remove_named<T>(v: &mut Vec<(String, T)>, key: &str)
    ensures
        entry_map(final(v)@) == entry_map(old(v)@).remove(key@),
        !has_key(final(v)@, key@),
        keys_unique(old(v)@) ==> keys_unique(final(v)@),
{
    let ghost start = v@;
    let mut i: usize = 0;
    while i < v.len()
        invariant
            i <= v.len(),
            entry_map(v@).remove(key@) == entry_map(start).remove(key@),
            forall|j: int| 0 <= j < i ==> (#[trigger] v@[j]).0@ != key@,
            keys_unique(start) ==> keys_unique(v@),
        decreases v.len() - i,
    {
        if str_equal(v[i].0.as_str(), key) {
            proof {
                lemma_remove_named(v@, i as int, key@);
                let t = v@.remove(i as int);
                assert forall|a: int| 0 <= a < t.len() implies #[trigger] t[a] == v@[if a < i { a } else { a + 1 }] by {}
                if keys_unique(v@) {
                    assert forall|a: int, b: int|
                        0 <= a < t.len() && 0 <= b < t.len() && a != b implies (#[trigger] t[a]).0@ != (#[trigger] t[b]).0@ by {
                        assert(t[a] == v@[if a < i { a } else { a + 1 }]);
                        assert(t[b] == v@[if b < i { b } else { b + 1 }]);
                    }
                }
            }
            v.remove(i);
        } else {
            i += 1;
        }
    }
    proof {
        assert(!has_key(v@, key@));
        assert(entry_map(v@) =~= entry_map(v@).remove(key@));
    }
}


/// Sets the entry named `key` to `val`, adding it when absent.
pub fn put<T>(v: &mut Vec<(String, T)>, key: String, val: T)
    ensures
        entry_map(final(v)@) == entry_map(old(v)@).insert(key@, val),
        keys_unique(old(v)@) ==> keys_unique(final(v)@),
{
    match find_key(v, key.as_str()) {
        Some(i) => {
            proof { lemma_update(v@, i as int, key, val); }
            v.set(i, (key, val));
        },
        None => {
            proof { lemma_push(v@, key, val); }
            v.push((key, val));
        },
    }
}

/// The entry named `key`, if any.
pub fn get<'a, T>(v: &'a Vec<(String, T)>, key: &str) -> (r: Option<&'a T>)
    ensures
        match r {
            Some(x) => entry_map(v@).dom().contains(key@) && *x == entry_map(v@)[key@],
            None => !entry_map(v@).dom().contains(key@),
        },
{
    match find_key(v, key) {
        Some(i) => {
            proof { lemma_first_unique(v@, key@, i as int); }
            Some(&v[i].1)
        },
        None => None,
    }
}

} // verus!
