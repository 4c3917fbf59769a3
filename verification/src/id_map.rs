//! A small map from text identifiers to values, kept as a vector of entries
//! with distinct keys.

use vstd::prelude::*;

verus! {

/// Map from identifiers to values; its view is a `Map` from the identifiers'
/// characters to the values.
pub struct IdMap<V> {
    entries: Vec<(String, V)>,
    contents: Ghost<Map<Seq<char>, V>>,
}

impl<V> View for IdMap<V> {
    type V = Map<Seq<char>, V>;

    closed spec fn view(&self) -> Map<Seq<char>, V> {
        self.contents@
    }
}

impl<V> IdMap<V> {
    /// The keys in storage order.
    pub closed spec fn keys(&self) -> Seq<Seq<char>> {
        self.entries@.map_values(|e: (String, V)| e.0@)
    }

    /// Keys are distinct, and the entries hold exactly the view.
    pub closed spec fn wf(&self) -> bool {
        &&& forall|i: int, j: int|
            0 <= i < j < self.entries@.len() ==> #[trigger] self.entries@[i].0@ != #[trigger] self.entries@[j].0@
        &&& forall|i: int|
            0 <= i < self.entries@.len() ==> self.contents@.contains_key(#[trigger] self.entries@[i].0@)
                && self.contents@[self.entries@[i].0@] == self.entries@[i].1
        &&& forall|k: Seq<char>|
            #[trigger] self.contents@.contains_key(k) ==> exists|i: int|
                0 <= i < self.entries@.len() && #[trigger] self.entries@[i].0@ == k
    }

    /// What the keys say of the view: they are distinct, each is in the map,
    /// and every key of the map is one of them.
    pub proof fn lemma_keys(&self)
        requires
            self.wf(),
        ensures
            forall|i: int, j: int| 0 <= i < j < self.keys().len() ==> self.keys()[i] != self.keys()[j],
            forall|i: int| 0 <= i < self.keys().len() ==> self@.contains_key(#[trigger] self.keys()[i]),
            forall|k: Seq<char>| #[trigger] self@.contains_key(k) ==> exists|i: int|
                0 <= i < self.keys().len() && self.keys()[i] == k,
    {
        assert forall|i: int, j: int| 0 <= i < j < self.keys().len() implies self.keys()[i] != self.keys()[j] by {
            assert(self.entries@[i].0@ != self.entries@[j].0@);
        }
        assert forall|i: int| 0 <= i < self.keys().len() implies self@.contains_key(#[trigger] self.keys()[i]) by {
            assert(self.contents@.contains_key(self.entries@[i].0@));
        }
        assert forall|k: Seq<char>| #[trigger] self@.contains_key(k) implies exists|i: int|
            0 <= i < self.keys().len() && self.keys()[i] == k by {
            let i = choose|i: int| 0 <= i < self.entries@.len() && #[trigger] self.entries@[i].0@ == k;
            assert(self.keys()[i] == k);
        }
    }

    /// An empty map.
    pub fn new() -> (m: Self)
        ensures
            m.wf(),
            m@ == Map::<Seq<char>, V>::empty(),
    {
        IdMap { entries: Vec::new(), contents: Ghost(Map::empty()) }
    }

    /// Number of keys.
    pub fn len(&self) -> (n: usize)
        requires
            self.wf(),
        ensures
            n == self.keys().len(),
    {
        self.entries.len()
    }

    /// The `i`-th key in storage order and its value.
    pub fn entry(&self, i: usize) -> (e: (&String, &V))
        requires
            self.wf(),
            i < self.keys().len(),
        ensures
            e.0@ == self.keys()[i as int],
            *e.1 == self@[self.keys()[i as int]],
    {
        let e = &self.entries[i];
        assert(self.contents@.contains_key(self.entries@[i as int].0@));
        (&e.0, &e.1)
    }

    /// Position of `k` among the entries, if it is a key.
    fn position(&self, k: &str) -> (r: Option<usize>)
        requires
            self.wf(),
        ensures
            match r {
                Some(i) => i < self.entries@.len() && self.entries@[i as int].0@ == k@,
                None => !self@.contains_key(k@),
            },
    {
        let mut i: usize = 0;
        while i < self.entries.len()
            invariant
                self.wf(),
                i <= self.entries@.len(),
                forall|j: int| 0 <= j < i ==> self.entries@[j].0@ != k@,
            decreases self.entries@.len() - i,
        {
            if crate::text::same_text(self.entries[i].0.as_str(), k) {
                return Some(i);
            }
            i = i + 1;
        }
        proof {
            if self@.contains_key(k@) {
                let j = choose|j: int| 0 <= j < self.entries@.len() && #[trigger] self.entries@[j].0@ == k@;
                assert(self.entries@[j].0@ != k@);
            }
        }
        None
    }

    /// The value of `k`, if it is a key.
    pub fn get(&self, k: &str) -> (r: Option<&V>)
        requires
            self.wf(),
        ensures
            r == if self@.contains_key(k@) { Some(&self@[k@]) } else { None },
    {
        match self.position(k) {
            Some(i) => {
                assert(self.contents@.contains_key(self.entries@[i as int].0@));
                Some(&self.entries[i].1)
            },
            None => None,
        }
    }

    /// Sets the value of `k` to `v`, adding `k` if it is new.
    pub fn insert(&mut self, k: String, v: V)
        requires
            old(self).wf(),
        ensures
            final(self).wf(),
            final(self)@ == old(self)@.insert(k@, v),
    {
        let ghost gk = k@;
        let ghost gv = v;
        let ghost old_entries = self.entries@;
        match self.position(k.as_str()) {
            Some(i) => {
                self.entries.set(i, (k, v));
                self.contents = Ghost(self.contents@.insert(gk, gv));
                assert forall|j: int| 0 <= j < self.entries@.len() && j != i implies
                    self.entries@[j] == old_entries[j] by {}
                assert forall|a: int, b: int| 0 <= a < b < self.entries@.len() implies
                    #[trigger] self.entries@[a].0@ != #[trigger] self.entries@[b].0@ by {
                    assert(old_entries[a].0@ != old_entries[b].0@);
                }
                assert forall|kk: Seq<char>| #[trigger] self.contents@.contains_key(kk) implies exists|j: int|
                    0 <= j < self.entries@.len() && #[trigger] self.entries@[j].0@ == kk by {
                    if kk != gk {
                        let j = choose|j: int| 0 <= j < old_entries.len() && #[trigger] old_entries[j].0@ == kk;
                        assert(self.entries@[j].0@ == kk);
                    } else {
                        assert(self.entries@[i as int].0@ == kk);
                    }
                }
            },
            None => {
                self.entries.push((k, v));
                self.contents = Ghost(self.contents@.insert(gk, gv));
                let ghost n: int = self.entries@.len() - 1;
                assert(self.entries@[n].0@ == gk);
                assert forall|j: int| 0 <= j < n implies self.entries@[j] == old_entries[j] by {}
                assert forall|a: int, b: int| 0 <= a < b < self.entries@.len() implies
                    #[trigger] self.entries@[a].0@ != #[trigger] self.entries@[b].0@ by {
                    if b < n {
                        assert(old_entries[a].0@ != old_entries[b].0@);
                    } else {
                        assert(old_entries[a].0@ != gk);
                    }
                }
                assert forall|kk: Seq<char>| #[trigger] self.contents@.contains_key(kk) implies exists|j: int|
                    0 <= j < self.entries@.len() && #[trigger] self.entries@[j].0@ == kk by {
                    if kk != gk {
                        let j = choose|j: int| 0 <= j < old_entries.len() && #[trigger] old_entries[j].0@ == kk;
                        assert(self.entries@[j].0@ == kk);
                    }
                }
            },
        }
    }

    /// Removes `k` and its value, if `k` is a key.
    pub fn remove(&mut self, k: &str)
        requires
            old(self).wf(),
        ensures
            final(self).wf(),
            final(self)@ == old(self)@.remove(k@),
    {
        let ghost old_entries = self.entries@;
        match self.position(k) {
            Some(i) => {
                let _ = self.entries.remove(i);
                self.contents = Ghost(self.contents@.remove(k@));
                assert forall|j: int| 0 <= j < self.entries@.len() implies
                    #[trigger] self.entries@[j] == old_entries[if j < i { j } else { j + 1 }] by {}
                assert forall|a: int, b: int| 0 <= a < b < self.entries@.len() implies
                    #[trigger] self.entries@[a].0@ != #[trigger] self.entries@[b].0@ by {
                    let a2 = if a < i { a } else { a + 1 };
                    let b2 = if b < i { b } else { b + 1 };
                    assert(self.entries@[a] == old_entries[a2]);
                    assert(self.entries@[b] == old_entries[b2]);
                    assert(old_entries[a2].0@ != old_entries[b2].0@);
                }
                assert forall|j: int| 0 <= j < self.entries@.len() implies
                    self.contents@.contains_key(#[trigger] self.entries@[j].0@)
                    && self.contents@[self.entries@[j].0@] == self.entries@[j].1 by {
                    let j2 = if j < i { j } else { j + 1 };
                    assert(self.entries@[j] == old_entries[j2]);
                    assert(old_entries[j2].0@ != old_entries[i as int].0@);
                }
                assert forall|kk: Seq<char>| #[trigger] self.contents@.contains_key(kk) implies exists|j: int|
                    0 <= j < self.entries@.len() && #[trigger] self.entries@[j].0@ == kk by {
                    let j = choose|j: int| 0 <= j < old_entries.len() && #[trigger] old_entries[j].0@ == kk;
                    assert(j != i);
                    let j2 = if j < i { j } else { j - 1 };
                    assert(self.entries@[j2] == old_entries[j]);
                }
            },
            None => {
                assert(self.contents@.remove(k@) =~= self.contents@);
            },
        }
    }
}

} // verus!
