//! A small association list keyed by text.
//!
//! Every registry of the library (peers, sessions, rooms, topics, handlers) is one of these.
//! No key occurs twice, and a key keeps its place when its value is replaced.

use vstd::prelude::*;

use crate::text::str_eq;

verus! {

/// Values under text keys, in the order in which the keys were first inserted.
#[derive(Debug)]
pub struct StrMap<V> {
    entries: Vec<(String, V)>,
}

/// Whether `k` is the key of some entry.
pub open spec fn has_key<V>(s: Seq<(String, V)>, k: Seq<char>) -> bool {
    exists|i: int| 0 <= i < s.len() && (#[trigger] s[i]).0@ == k
}

/// The place of the entry under `k`, where there is one.
pub open spec fn key_index<V>(s: Seq<(String, V)>, k: Seq<char>) -> int {
    choose|i: int| 0 <= i < s.len() && (#[trigger] s[i]).0@ == k
}

/// No two entries have the same key.
pub open spec fn unique_keys<V>(s: Seq<(String, V)>) -> bool {
    forall|i: int, j: int|
        0 <= i < s.len() && 0 <= j < s.len() && #[trigger] s[i].0@ == #[trigger] s[j].0@ ==> i == j
}

/// The map from keys to values.
pub open spec fn entry_map<V>(s: Seq<(String, V)>) -> Map<Seq<char>, V> {
    Map::new(|k: Seq<char>| has_key(s, k), |k: Seq<char>| s[key_index(s, k)].1)
}

/// The keys, in order.
pub open spec fn entry_keys<V>(s: Seq<(String, V)>) -> Seq<Seq<char>> {
    Seq::new(s.len(), |i: int| s[i].0@)
}

impl<V> View for StrMap<V> {
    type V = Map<Seq<char>, V>;

    closed spec fn view(&self) -> Map<Seq<char>, V> {
        entry_map(self.entries@)
    }
}

proof fn lemma_entry_at<V>(s: Seq<(String, V)>, i: int)
    requires
        unique_keys(s),
        0 <= i < s.len(),
    ensures
        entry_map(s).dom().contains(s[i].0@),
        entry_map(s)[s[i].0@] == s[i].1,
        key_index(s, s[i].0@) == i,
{
    assert(has_key(s, s[i].0@));
    let j = key_index(s, s[i].0@);
    assert(s[j].0@ == s[i].0@);
}

/// Replacing one value.
proof fn lemma_replace_value<V>(s: Seq<(String, V)>, i: int, v: V)
    requires
        unique_keys(s),
        0 <= i < s.len(),
    ensures
        unique_keys(s.update(i, (s[i].0, v))),
        entry_map(s.update(i, (s[i].0, v))) == entry_map(s).insert(s[i].0@, v),
        entry_keys(s.update(i, (s[i].0, v))) == entry_keys(s),
{
    let t = s.update(i, (s[i].0, v));
    assert(unique_keys(t)) by {
        assert forall|a: int, b: int|
            0 <= a < t.len() && 0 <= b < t.len() && #[trigger] t[a].0@ == #[trigger] t[b].0@ implies a
            == b by {
            assert(s[a].0@ == s[b].0@);
        }
    }
    assert forall|k: Seq<char>| has_key(t, k) == has_key(s, k) by {
        if has_key(s, k) {
            let j = key_index(s, k);
            assert(t[j].0@ == k);
        }
        if has_key(t, k) {
            let j = key_index(t, k);
            assert(s[j].0@ == k);
        }
    }
    lemma_entry_at(t, i);
    let want = entry_map(s).insert(s[i].0@, v);
    assert forall|k: Seq<char>| has_key(t, k) implies entry_map(t)[k] == want[k] by {
        let j = key_index(t, k);
        lemma_entry_at(t, j);
        lemma_entry_at(s, j);
    }
    assert(has_key(s, s[i].0@));
    assert(entry_map(t) =~= want);
    assert(entry_keys(t) =~= entry_keys(s));
}

/// Adding an entry under a new key.
proof fn lemma_push_entry<V>(s: Seq<(String, V)>, key: String, v: V)
    requires
        unique_keys(s),
        !has_key(s, key@),
    ensures
        unique_keys(s.push((key, v))),
        entry_map(s.push((key, v))) == entry_map(s).insert(key@, v),
        entry_keys(s.push((key, v))) == entry_keys(s).push(key@),
{
    let t = s.push((key, v));
    let n = s.len() as int;
    assert(unique_keys(t)) by {
        assert forall|a: int, b: int|
            0 <= a < t.len() && 0 <= b < t.len() && #[trigger] t[a].0@ == #[trigger] t[b].0@ implies a
            == b by {
            if a < n && b < n {
                assert(s[a].0@ == s[b].0@);
            } else if a < n {
                assert(s[a].0@ == key@);
            } else if b < n {
                assert(s[b].0@ == key@);
            }
        }
    }
    assert forall|k: Seq<char>| has_key(t, k) == (has_key(s, k) || k == key@) by {
        if has_key(s, k) {
            let j = key_index(s, k);
            assert(t[j].0@ == k);
        }
        if has_key(t, k) {
            let j = key_index(t, k);
            if j < n {
                assert(s[j].0@ == k);
            }
        }
        assert(t[n].0@ == key@);
    }
    let want = entry_map(s).insert(key@, v);
    assert forall|k: Seq<char>| has_key(t, k) implies entry_map(t)[k] == want[k] by {
        let j = key_index(t, k);
        lemma_entry_at(t, j);
        if j < n {
            lemma_entry_at(s, j);
            assert(k != key@);
        }
    }
    assert(entry_map(t) =~= want);
    assert(entry_keys(t) =~= entry_keys(s).push(key@));
}

/// Taking an entry out.
proof fn lemma_remove_entry<V>(s: Seq<(String, V)>, i: int)
    requires
        unique_keys(s),
        0 <= i < s.len(),
    ensures
        unique_keys(s.remove(i)),
        entry_map(s.remove(i)) == entry_map(s).remove(s[i].0@),
        entry_keys(s.remove(i)) == entry_keys(s).remove(i),
{
    let t = s.remove(i);
    let key = s[i].0@;
    assert(unique_keys(t)) by {
        assert forall|a: int, b: int|
            0 <= a < t.len() && 0 <= b < t.len() && #[trigger] t[a].0@ == #[trigger] t[b].0@ implies a
            == b by {
            let a1 = if a < i { a } else { a + 1 };
            let b1 = if b < i { b } else { b + 1 };
            assert(s[a1].0@ == s[b1].0@);
        }
    }
    assert forall|k: Seq<char>| has_key(t, k) == (has_key(s, k) && k != key) by {
        if has_key(s, k) && k != key {
            let j = key_index(s, k);
            let j1 = if j < i { j } else { j - 1 };
            assert(t[j1].0@ == k);
        }
        if has_key(t, k) {
            let j = key_index(t, k);
            let j1 = if j < i { j } else { j + 1 };
            assert(s[j1].0@ == k);
            assert(k != key) by {
                if k == key {
                    assert(s[j1].0@ == s[i].0@);
                }
            }
        }
    }
    let want = entry_map(s).remove(key);
    assert forall|k: Seq<char>| has_key(t, k) implies entry_map(t)[k] == want[k] by {
        let j = key_index(t, k);
        let j1 = if j < i { j } else { j + 1 };
        lemma_entry_at(t, j);
        lemma_entry_at(s, j1);
    }
    assert(entry_map(t) =~= want);
    assert(entry_keys(t) =~= entry_keys(s).remove(i));
}

impl<V> StrMap<V> {
    /// No key occurs twice.
    pub closed spec fn wf(&self) -> bool {
        unique_keys(self.entries@)
    }

    /// The keys, in the order in which they were first inserted.
    pub closed spec fn key_seq(&self) -> Seq<Seq<char>> {
        entry_keys(self.entries@)
    }

    /// The keys in order are the domain, each once.
    pub proof fn lemma_key_seq(&self)
        requires
            self.wf(),
        ensures
            self.key_seq().no_duplicates(),
            forall|k: Seq<char>| self@.dom().contains(k) <==> self.key_seq().contains(k),
    {
        let s = self.entries@;
        assert forall|k: Seq<char>| self@.dom().contains(k) implies self.key_seq().contains(k) by {
            let i = key_index(s, k);
            assert(self.key_seq()[i] == k);
        }
        assert forall|k: Seq<char>| self.key_seq().contains(k) implies self@.dom().contains(k) by {
            let i = choose|i: int| 0 <= i < self.key_seq().len() && self.key_seq()[i] == k;
            assert(s[i].0@ == k);
        }
    }

    /// An empty map.
    pub fn new() -> (m: Self)
        ensures
            m.wf(),
            m@ == Map::<Seq<char>, V>::empty(),
            m.key_seq() == Seq::<Seq<char>>::empty(),
    {
        let m = StrMap { entries: Vec::new() };
        proof {
            assert(m@ =~= Map::<Seq<char>, V>::empty());
            assert(m.key_seq() =~= Seq::<Seq<char>>::empty());
        }
        m
    }

    fn position(&self, k: &str) -> (r: Option<usize>)
        requires
            self.wf(),
        ensures
            match r {
                Some(i) => i < self.entries@.len() && self.entries@[i as int].0@ == k@
                    && self@.dom().contains(k@) && self@[k@] == self.entries@[i as int].1,
                None => !self@.dom().contains(k@) && !has_key(self.entries@, k@),
            },
    {
        let mut i: usize = 0;
        while i < self.entries.len()
            invariant
                i <= self.entries.len(),
                self.wf(),
                forall|j: int| 0 <= j < i ==> (#[trigger] self.entries@[j]).0@ != k@,
            decreases self.entries.len() - i,
        {
            if str_eq(self.entries[i].0.as_str(), k) {
                proof {
                    lemma_entry_at(self.entries@, i as int);
                }
                return Some(i);
            }
            i = i + 1;
        }
        None
    }

    /// Whether there is a value under `k`.
    pub fn contains(&self, k: &str) -> (r: bool)
        requires
            self.wf(),
        ensures
            r == self@.dom().contains(k@),
    {
        self.position(k).is_some()
    }

    /// The value under `k`.
    pub fn get(&self, k: &str) -> (r: Option<&V>)
        requires
            self.wf(),
        ensures
            match r {
                Some(v) => self@.dom().contains(k@) && *v == self@[k@],
                None => !self@.dom().contains(k@),
            },
    {
        match self.position(k) {
            Some(i) => Some(&self.entries[i].1),
            None => None,
        }
    }

    /// The value under `k`, to be changed in place.
    pub fn get_mut(&mut self, k: &str) -> (r: Option<&mut V>)
        requires
            old(self).wf(),
        ensures
            final(self).wf(),
            final(self).key_seq() == old(self).key_seq(),
            match r {
                Some(v) => old(self)@.dom().contains(k@) && *v == old(self)@[k@] && final(self)@
                    == old(self)@.insert(k@, *final(v)),
                None => !old(self)@.dom().contains(k@) && *final(self) == *old(self),
            },
    {
        match self.position(k) {
            Some(i) => {
                let ghost before = self.entries@;
                let r = &mut self.entries[i].1;
                proof {
                    let after = after_borrow(self.entries)@;
                    assert(after =~= before.update(i as int, (before[i as int].0, *final(r))));
                    lemma_replace_value(before, i as int, *final(r));
                }
                Some(r)
            },
            None => None,
        }
    }

    /// Puts `v` under `k`, and gives back the value that was there.
    pub fn insert(&mut self, k: String, v: V) -> (r: Option<V>)
        requires
            old(self).wf(),
        ensures
            final(self).wf(),
            final(self)@ == old(self)@.insert(k@, v),
            final(self).key_seq() == if old(self)@.dom().contains(k@) {
                old(self).key_seq()
            } else {
                old(self).key_seq().push(k@)
            },
            match r {
                Some(was) => old(self)@.dom().contains(k@) && was == old(self)@[k@],
                None => !old(self)@.dom().contains(k@),
            },
    {
        let ghost before = self.entries@;
        match self.position(k.as_str()) {
            Some(i) => {
                let mut slot = v;
                std::mem::swap(&mut self.entries[i].1, &mut slot);
                proof {
                    assert(self.entries@ =~= before.update(i as int, (before[i as int].0, v)));
                    lemma_replace_value(before, i as int, v);
                }
                Some(slot)
            },
            None => {
                proof {
                    lemma_push_entry(before, k, v);
                }
                self.entries.push((k, v));
                None
            },
        }
    }

    /// Takes the value under `k` out.
    pub fn remove(&mut self, k: &str) -> (r: Option<V>)
        requires
            old(self).wf(),
        ensures
            final(self).wf(),
            final(self)@ == old(self)@.remove(k@),
            match r {
                Some(was) => old(self)@.dom().contains(k@) && was == old(self)@[k@],
                None => !old(self)@.dom().contains(k@) && *final(self) == *old(self),
            },
    {
        match self.position(k) {
            Some(i) => {
                proof {
                    lemma_remove_entry(self.entries@, i as int);
                }
                let e = self.entries.remove(i);
                Some(e.1)
            },
            None => {
                proof {
                    assert(self@.remove(k@) =~= self@);
                }
                None
            },
        }
    }

    /// How many keys there are.
    pub fn len(&self) -> (n: usize)
        requires
            self.wf(),
        ensures
            n == self.key_seq().len(),
            n == self@.dom().len(),
            self@.dom().finite(),
    {
        proof {
            self.lemma_key_seq();
            self.key_seq().unique_seq_to_set();
            assert(self.key_seq().to_set() =~= self@.dom());
        }
        self.entries.len()
    }

    /// Whether there is no key.
    pub fn is_empty(&self) -> (r: bool)
        requires
            self.wf(),
        ensures
            r == (self.key_seq().len() == 0),
            r == (self@ == Map::<Seq<char>, V>::empty()),
    {
        proof {
            self.lemma_key_seq();
            if self.key_seq().len() == 0 {
                assert(self@ =~= Map::<Seq<char>, V>::empty());
            } else {
                assert(self.key_seq().contains(self.key_seq()[0]));
            }
        }
        self.entries.len() == 0
    }

    /// The keys, each once.
    pub fn keys(&self) -> (r: Vec<String>)
        requires
            self.wf(),
        ensures
            r@.len() == self.key_seq().len(),
            forall|i: int| 0 <= i < r@.len() ==> (#[trigger] r@[i])@ == self.key_seq()[i],
    {
        let mut r: Vec<String> = Vec::new();
        let mut i: usize = 0;
        while i < self.entries.len()
            invariant
                i <= self.entries.len(),
                r@.len() == i,
                forall|j: int| 0 <= j < i ==> (#[trigger] r@[j])@ == self.entries@[j].0@,
            decreases self.entries.len() - i,
        {
            r.push(self.entries[i].0.clone());
            i = i + 1;
        }
        r
    }

    /// The key at place `i`.
    pub fn key_at(&self, i: usize) -> (r: &String)
        requires
            self.wf(),
            i < self.key_seq().len(),
        ensures
            r@ == self.key_seq()[i as int],
            self@.dom().contains(r@),
    {
        proof {
            lemma_entry_at(self.entries@, i as int);
        }
        &self.entries[i].0
    }

    /// The value at place `i`.
    pub fn value_at(&self, i: usize) -> (r: &V)
        requires
            self.wf(),
            i < self.key_seq().len(),
        ensures
            *r == self@[self.key_seq()[i as int]],
            self@.dom().contains(self.key_seq()[i as int]),
    {
        proof {
            lemma_entry_at(self.entries@, i as int);
        }
        &self.entries[i].1
    }

    /// Removes every entry.
    pub fn clear(&mut self)
        ensures
            final(self).wf(),
            final(self)@ == Map::<Seq<char>, V>::empty(),
            final(self).key_seq() == Seq::<Seq<char>>::empty(),
    {
        self.entries.clear();
        proof {
            assert(self@ =~= Map::<Seq<char>, V>::empty());
            assert(self.key_seq() =~= Seq::<Seq<char>>::empty());
        }
    }
}

} // verus!
