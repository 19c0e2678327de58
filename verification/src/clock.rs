//! Vector clocks: per-actor counters that order updates causally.
use vstd::prelude::*;
use std::cmp::Ordering;
use crate::keyed::{has_key, key_index, entry_map, lemma_first_exists, lemma_first_unique, lemma_push,
    lemma_push_shadowed, lemma_update, find_key, idx};

verus! {

/// Counter of `actor` in a clock's map; actors that are absent count zero.
pub open spec fn count(m: Map<Seq<char>, u64>, actor: Seq<char>) -> nat {
    if m.dom().contains(actor) { m[actor] as nat } else { 0 }
}

/// Some actor has a higher counter in `a` than in `b`.
pub open spec fn ahead(a: Map<Seq<char>, u64>, b: Map<Seq<char>, u64>) -> bool {
    exists|k: Seq<char>| #[trigger] count(a, k) > count(b, k)
}

/// Causal order of `a` relative to `b`: `Less` when `a` happened before `b`,
/// `Greater` when after, `Equal` when no counter differs, `None` when the
/// two are concurrent.
pub open spec fn clock_order(a: Map<Seq<char>, u64>, b: Map<Seq<char>, u64>) -> Option<Ordering> {
    if ahead(a, b) && ahead(b, a) {
        None
    } else if ahead(a, b) {
        Some(Ordering::Greater)
    } else if ahead(b, a) {
        Some(Ordering::Less)
    } else {
        Some(Ordering::Equal)
    }
}

/// The order seen from the other side.
pub open spec fn flipped(o: Option<Ordering>) -> Option<Ordering> {
    match o {
        Some(Ordering::Less) => Some(Ordering::Greater),
        Some(Ordering::Greater) => Some(Ordering::Less),
        other => other,
    }
}

pub open spec fn max_nat(x: nat, y: nat) -> nat {
    if x >= y { x } else { y }
}

/// Pointwise maximum of two clocks, over the union of their actors.
pub open spec fn join(a: Map<Seq<char>, u64>, b: Map<Seq<char>, u64>) -> Map<Seq<char>, u64> {
    Map::new(
        |k: Seq<char>| a.dom().contains(k) || b.dom().contains(k),
        |k: Seq<char>| max_nat(count(a, k), count(b, k)) as u64,
    )
}

/// `m` with the counter of `actor` raised by one.
pub open spec fn bumped(m: Map<Seq<char>, u64>, actor: Seq<char>) -> Map<Seq<char>, u64> {
    m.insert(actor, (count(m, actor) + 1) as u64)
}

/// Logical timestamp for causal ordering.
#[derive(Debug, Clone)]
pub struct VectorClock {
    entries: Vec<(String, u64)>,
}

impl View for VectorClock {
    type V = Map<Seq<char>, u64>;

    closed spec fn view(&self) -> Map<Seq<char>, u64> {
        entry_map(self.entries@)
    }
}

impl VectorClock {
    pub fn new() -> (r: Self)
        ensures
            r@ == Map::<Seq<char>, u64>::empty(),
    {
        let r = VectorClock { entries: Vec::new() };
        assert(r@ =~= Map::<Seq<char>, u64>::empty());
        r
    }

    /// A copy with the same counters.
    pub fn duplicate(&self) -> (r: Self)
        ensures
            r@ == self@,
    {
        let mut entries: Vec<(String, u64)> = Vec::new();
        let mut i: usize = 0;
        while i < self.entries.len()
            invariant
                i <= self.entries.len(),
                entries@.len() == i,
                forall|j: int| 0 <= j < i ==> (#[trigger] entries@[j]).0@ == self.entries@[j].0@
                    && entries@[j].1 == self.entries@[j].1,
            decreases self.entries.len() - i,
        {
            entries.push((self.entries[i].0.clone(), self.entries[i].1));
            i += 1;
        }
        let r = VectorClock { entries };
        proof {
            let a = entries@;
            let b = self.entries@;
            assert forall|k: Seq<char>| #[trigger] has_key(a, k) == has_key(b, k) by {
                if has_key(a, k) {
                    let i = choose|i: int| 0 <= i < a.len() && (#[trigger] a[i]).0@ == k;
                    assert(b[i].0@ == k);
                }
                if has_key(b, k) {
                    let i = choose|i: int| 0 <= i < b.len() && (#[trigger] b[i]).0@ == k;
                    assert(a[i].0@ == k);
                }
            }
            assert forall|k: Seq<char>| has_key(a, k) implies #[trigger] entry_map(a)[k] == entry_map(b)[k] by {
                lemma_first_exists(a, k);
                let i = key_index(a, k);
                assert forall|j: int| 0 <= j < i implies (#[trigger] b[j]).0@ != k by {
                    assert(a[j].0@ != k);
                }
                lemma_first_unique(b, k, i);
                lemma_first_unique(a, k, i);
            }
            assert(entry_map(a) =~= entry_map(b));
        }
        r
    }

    /// The actors and their counters, as stored.
    pub fn entries(&self) -> (r: &Vec<(String, u64)>)
        ensures
            entry_map(r@) == self@,
    {
        &self.entries
    }

    /// Counter of `actor` (zero when absent).
    pub fn get(&self, actor: &str) -> (r: u64)
        ensures
            r == count(self@, actor@),
    {
        match find_key(&self.entries, actor) {
            Some(i) => {
                proof { lemma_first_unique(self.entries@, actor@, idx(i)); }
                self.entries[i].1
            },
            None => 0,
        }
    }

    /// Sets the counter of `actor` to `counter`.
    pub fn set(&mut self, actor: &str, counter: u64)
        ensures
            final(self)@ == old(self)@.insert(actor@, counter),
    {
        let name = actor.to_owned();
        match find_key(&self.entries, actor) {
            Some(i) => {
                proof { lemma_update(self.entries@, idx(i), name, counter); }
                self.entries.set(i, (name, counter));
            },
            None => {
                proof { lemma_push(self.entries@, name, counter); }
                self.entries.push((name, counter));
            },
        }
    }

    /// Increment the clock for a specific actor (usually the local peer ID).
    pub fn increment(&mut self, actor: &str)
        requires
            count(old(self)@, actor@) < u64::MAX,
        ensures
            final(self)@ == bumped(old(self)@, actor@),
    {
        let current = self.get(actor);
        self.set(actor, current + 1);
    }

    /// Compare two vector clocks to determine order:
    /// `Less` when self happened before other, `Greater` when after,
    /// `Equal` when the states are identical, `None` when concurrent.
    pub fn partial_cmp(&self, other: &Self) -> (r: Option<Ordering>)
        ensures
            r == clock_order(self@, other@),
    {
        let mut self_has_greater = false;
        let mut other_has_greater = false;
        let mut i: usize = 0;
        while i < self.entries.len()
            invariant
                i <= self.entries.len(),
                self_has_greater ==> ahead(self@, other@),
                other_has_greater ==> ahead(other@, self@),
                forall|j: int| 0 <= j < i ==>
                    count(self@, (#[trigger] self.entries@[j]).0@) <= count(other@, self.entries@[j].0@) || self_has_greater,
            decreases self.entries.len() - i,
        {
            let key = self.entries[i].0.as_str();
            let v1 = self.get(key);
            let v2 = other.get(key);
            if v1 > v2 {
                self_has_greater = true;
            } else if v2 > v1 {
                other_has_greater = true;
            }
            i += 1;
        }
        let mut j: usize = 0;
        while j < other.entries.len()
            invariant
                j <= other.entries.len(),
                self_has_greater ==> ahead(self@, other@),
                other_has_greater ==> ahead(other@, self@),
                forall|m: int| 0 <= m < self.entries.len() ==>
                    count(self@, (#[trigger] self.entries@[m]).0@) <= count(other@, self.entries@[m].0@) || self_has_greater,
                forall|m: int| 0 <= m < j ==>
                    count(other@, (#[trigger] other.entries@[m]).0@) <= count(self@, other.entries@[m].0@) || other_has_greater,
            decreases other.entries.len() - j,
        {
            let key = other.entries[j].0.as_str();
            let v2 = other.get(key);
            let v1 = self.get(key);
            if v2 > v1 {
                other_has_greater = true;
            } else if v1 > v2 {
                self_has_greater = true;
            }
            j += 1;
        }
        proof {
            if ahead(self@, other@) {
                let k = choose|k: Seq<char>| #[trigger] count(self@, k) > count(other@, k);
                lemma_first_exists(self.entries@, k);
                let m = key_index(self.entries@, k);
                assert(self.entries@[m].0@ == k);
            }
            if ahead(other@, self@) {
                let k = choose|k: Seq<char>| #[trigger] count(other@, k) > count(self@, k);
                lemma_first_exists(other.entries@, k);
                let m = key_index(other.entries@, k);
                assert(other.entries@[m].0@ == k);
            }
        }
        if self_has_greater && other_has_greater {
            None
        } else if self_has_greater {
            Some(Ordering::Greater)
        } else if other_has_greater {
            Some(Ordering::Less)
        } else {
            Some(Ordering::Equal)
        }
    }

    /// Merge another vector clock into this one by taking the maximum of
    /// each component.
    pub fn merge(&mut self, other: &Self)
        ensures
            final(self)@ == join(old(self)@, other@),
    {
        let ghost start = self@;
        let mut i: usize = 0;
        while i < other.entries.len()
            invariant
                i <= other.entries.len(),
                self@ == join(start, entry_map(other.entries@.take(idx(i)))),
            decreases other.entries.len() - i,
        {
            let key = other.entries[i].0.as_str();
            let ghost s = other.entries@;
            proof {
                assert(s.take(idx(i) + 1) =~= s.take(idx(i)).push(s[idx(i)]));
            }
            let first = find_key(&other.entries, key);
            if first == Some(i) {
                let counter = other.entries[i].1;
                let current = self.get(key);
                proof {
                    assert(!has_key(s.take(idx(i)), key@)) by {
                        if has_key(s.take(idx(i)), key@) {
                            let a = choose|a: int| 0 <= a < i && (#[trigger] s.take(idx(i))[a]).0@ == key@;
                            assert(s.take(idx(i))[a] == s[a]);
                        }
                    }
                    lemma_push(s.take(idx(i)), s[idx(i)].0, counter);
                }
                if counter > current {
                    self.set(key, counter);
                } else {
                    self.set(key, current);
                }
                proof {
                    let before = entry_map(s.take(idx(i)));
                    let after = entry_map(s.take(idx(i) + 1));
                    assert(after == before.insert(key@, counter));
                    assert(self@ =~= join(start, after)) by {
                        assert forall|k: Seq<char>| #[trigger] self@.dom().contains(k) == join(start, after).dom().contains(k) by {}
                        assert forall|k: Seq<char>| self@.dom().contains(k) implies #[trigger] self@[k] == join(start, after)[k] by {
                            if k == key@ {
                                assert(count(before, k) == 0);
                            }
                        }
                    }
                }
            } else {
                proof {
                    let f = first->0;
                    assert(s.take(idx(i))[idx(f)] == s[idx(f)]);
                    assert(has_key(s.take(idx(i)), key@));
                    lemma_push_shadowed(s.take(idx(i)), s[idx(i)].0, s[idx(i)].1);
                }
            }
            i += 1;
        }
        proof {
            assert(other.entries@.take(idx(other.entries.len())) =~= other.entries@);
        }
    }
}

/// Seen from the other side, the causal order is reversed.
pub proof fn lemma_order_flips(a: Map<Seq<char>, u64>, b: Map<Seq<char>, u64>)
    ensures
        clock_order(b, a) == flipped(clock_order(a, b)),
{
}

/// Every clock is causally equal to itself.
pub proof fn lemma_order_reflexive(a: Map<Seq<char>, u64>)
    ensures
        clock_order(a, a) == Some(Ordering::Equal),
{
}

/// Incrementing any actor makes a clock strictly later than before.
pub proof fn lemma_increment_advances(m: Map<Seq<char>, u64>, actor: Seq<char>)
    requires
        count(m, actor) < u64::MAX,
    ensures
        clock_order(bumped(m, actor), m) == Some(Ordering::Greater),
{
    let b = bumped(m, actor);
    assert(count(b, actor) > count(m, actor));
    assert forall|k: Seq<char>| !(#[trigger] count(m, k) > count(b, k)) by {
        if k != actor {
            assert(count(b, k) == count(m, k));
        }
    }
}

/// A merged clock is at or after both of its inputs.
pub proof fn lemma_join_upper_bound(a: Map<Seq<char>, u64>, b: Map<Seq<char>, u64>)
    ensures
        !ahead(a, join(a, b)),
        !ahead(b, join(a, b)),
        clock_order(join(a, b), a) == Some(Ordering::Greater) || clock_order(join(a, b), a) == Some(Ordering::Equal),
        clock_order(join(a, b), b) == Some(Ordering::Greater) || clock_order(join(a, b), b) == Some(Ordering::Equal),
{
    let j = join(a, b);
    assert forall|k: Seq<char>| count(j, k) == max_nat(count(a, k), count(b, k)) by {}
    assert forall|k: Seq<char>| !(#[trigger] count(a, k) > count(j, k)) by {
        assert(count(j, k) == max_nat(count(a, k), count(b, k)));
    }
    assert forall|k: Seq<char>| !(#[trigger] count(b, k) > count(j, k)) by {
        assert(count(j, k) == max_nat(count(a, k), count(b, k)));
    }
}

/// Merging is commutative, associative and idempotent.
pub proof fn lemma_join_laws(a: Map<Seq<char>, u64>, b: Map<Seq<char>, u64>, c: Map<Seq<char>, u64>)
    ensures
        join(a, b) == join(b, a),
        join(join(a, b), c) == join(a, join(b, c)),
        join(a, a) == a,
{
    assert(join(a, b) =~= join(b, a));
    let l = join(join(a, b), c);
    let r = join(a, join(b, c));
    assert forall|k: Seq<char>| #[trigger] l.dom().contains(k) implies l[k] == r[k] by {
        assert(count(join(a, b), k) == max_nat(count(a, k), count(b, k)));
        assert(count(join(b, c), k) == max_nat(count(b, k), count(c, k)));
    }
    assert(l =~= r);
    assert(join(a, a) =~= a);
}

/// Merging in a clock that is at or before this one changes no counter.
pub proof fn lemma_join_with_older(a: Map<Seq<char>, u64>, b: Map<Seq<char>, u64>)
    requires
        !ahead(b, a),
    ensures
        forall|k: Seq<char>| #[trigger] count(join(a, b), k) == count(a, k),
        clock_order(join(a, b), a) == Some(Ordering::Equal),
{
    assert forall|k: Seq<char>| #[trigger] count(join(a, b), k) == count(a, k) by {
        assert(!(count(b, k) > count(a, k)));
    }
    assert forall|k: Seq<char>| !(#[trigger] count(join(a, b), k) > count(a, k)) by {}
    assert forall|k: Seq<char>| !(#[trigger] count(a, k) > count(join(a, b), k)) by {}
}

} // verus!
