//! A map keyed by the consumers' connection identifiers.

use crate::message::ConnectionId;
use vstd::prelude::*;

verus! {

/// A value per consumer, keyed by its `ConnectionId`.
pub struct IdMap<V> {
    entries: Vec<(ConnectionId, V)>,
}

impl<V> View for IdMap<V> {
    type V = Map<Seq<char>, V>;

    closed spec fn view(&self) -> Map<Seq<char>, V> {
        Map::new(
            |k: Seq<char>| exists|i: int| 0 <= i < self.entries.len() && #[trigger] self.entries@[i].0@ == k,
            |k: Seq<char>|
                self.entries@[choose|i: int|
                    0 <= i < self.entries.len() && #[trigger] self.entries@[i].0@ == k].1,
        )
    }
}

impl<V> IdMap<V> {
    /// No consumer appears twice.
    pub closed spec fn wf(&self) -> bool {
        forall|i: int, j: int|
            0 <= i < self.entries.len() && 0 <= j < self.entries.len() && i != j
                ==> #[trigger] self.entries@[i].0@ != #[trigger] self.entries@[j].0@
    }

    proof fn lemma_view_at(&self, i: int)
        requires
            self.wf(),
            0 <= i < self.entries.len(),
        ensures
            self@.contains_key(self.entries@[i].0@),
            self@[self.entries@[i].0@] == self.entries@[i].1,
    {
        let k = self.entries@[i].0@;
        assert(exists|j: int| 0 <= j < self.entries.len() && #[trigger] self.entries@[j].0@ == k);
        let j = choose|j: int| 0 <= j < self.entries.len() && #[trigger] self.entries@[j].0@ == k;
        assert(i == j);
    }

    /// A map that holds nothing.
    pub fn new() -> (m: Self)
        ensures
            m.wf(),
            m@ == Map::<Seq<char>, V>::empty(),
    {
        let m = IdMap { entries: Vec::new() };
        assert(m@ =~= Map::<Seq<char>, V>::empty());
        m
    }

    /// The position of consumer `id` in the entries, if it has one.
    fn find(&self, id: &ConnectionId) -> (r: Option<usize>)
        requires
            self.wf(),
        ensures
            r matches Some(i) ==> i < self.entries.len() && self.entries@[i as int].0@ == id@,
            r is None ==> !self@.contains_key(id@),
    {
        let mut i: usize = 0;
        while i < self.entries.len()
            invariant
                i <= self.entries.len(),
                forall|j: int| 0 <= j < i ==> #[trigger] self.entries@[j].0@ != id@,
            decreases self.entries.len() - i,
        {
            if self.entries[i].0 == *id {
                return Some(i);
            }
            i = i + 1;
        }
        None
    }

    /// Whether consumer `id` has a value.
    pub fn contains_key(&self, id: &ConnectionId) -> (r: bool)
        requires
            self.wf(),
        ensures
            r == self@.contains_key(id@),
    {
        match self.find(id) {
            Some(i) => {
                proof {
                    self.lemma_view_at(i as int);
                }
                true
            },
            None => false,
        }
    }

    /// The value of consumer `id`, if it has one.
    pub fn get(&self, id: &ConnectionId) -> (r: Option<&V>)
        requires
            self.wf(),
        ensures
            self@.contains_key(id@) ==> (r matches Some(v) && *v == self@[id@]),
            !self@.contains_key(id@) ==> r is None,
    {
        match self.find(id) {
            Some(i) => {
                proof {
                    self.lemma_view_at(i as int);
                }
                Some(&self.entries[i].1)
            },
            None => None,
        }
    }

    /// Removes the value of consumer `id` and hands it out; `None` if it
    /// has none.
    pub fn remove(&mut self, id: &ConnectionId) -> (r: Option<V>)
        requires
            old(self).wf(),
        ensures
            final(self).wf(),
            final(self)@ == old(self)@.remove(id@),
            old(self)@.contains_key(id@) ==> r == Some(old(self)@[id@]),
            !old(self)@.contains_key(id@) ==> r is None,
    {
        let ghost old_map = self@;
        match self.find(id) {
            None => {
                assert(old_map.remove(id@) =~= old_map);
                None
            },
            Some(i) => {
                proof {
                    self.lemma_view_at(i as int);
                }
                let (_, value) = self.entries.remove(i);
                proof {
                    let e = self.entries@;
                    let o = old(self).entries@;
                    assert forall|a: int, b: int|
                        0 <= a < e.len() && 0 <= b < e.len() && a != b implies #[trigger] e[a].0@
                        != #[trigger] e[b].0@ by {
                        let oa = if a < i { a } else { a + 1 };
                        let ob = if b < i { b } else { b + 1 };
                        assert(e[a] == o[oa]);
                        assert(e[b] == o[ob]);
                    }
                    assert forall|k: Seq<char>| #[trigger]
                        self@.contains_key(k) == old_map.remove(id@).contains_key(k) by {
                        if old_map.contains_key(k) && k != id@ {
                            let j = choose|j: int| 0 <= j < o.len() && #[trigger] o[j].0@ == k;
                            assert(j != i);
                            let nj = if j < i { j } else { j - 1 };
                            assert(e[nj].0@ == k);
                        }
                        if self@.contains_key(k) {
                            let j = choose|j: int| 0 <= j < e.len() && #[trigger] e[j].0@ == k;
                            let oj = if j < i { j } else { j + 1 };
                            assert(o[oj].0@ == k);
                            assert(oj != i);
                        }
                    }
                    assert forall|k: Seq<char>| #[trigger]
                        self@.contains_key(k) implies self@[k] == old_map.remove(id@)[k] by {
                        let j = choose|j: int| 0 <= j < e.len() && #[trigger] e[j].0@ == k;
                        self.lemma_view_at(j);
                        let oj = if j < i { j } else { j + 1 };
                        assert(e[j] == o[oj]);
                        old(self).lemma_view_at(oj);
                    }
                    assert(self@ =~= old_map.remove(id@));
                }
                Some(value)
            },
        }
    }

    /// Gives consumer `id` the value `value`, in place of any it had.
    pub fn insert(&mut self, id: ConnectionId, value: V)
        requires
            old(self).wf(),
        ensures
            final(self).wf(),
            final(self)@ == old(self)@.insert(id@, value),
    {
        let ghost old_map = self@;
        let _ = self.remove(&id);
        let ghost mid = self@;
        let ghost mid_entries = self.entries@;
        self.entries.push((id, value));
        proof {
            let e = self.entries@;
            let o = mid_entries;
            assert(!mid.contains_key(id@));
            assert forall|a: int, b: int|
                0 <= a < e.len() && 0 <= b < e.len() && a != b implies #[trigger] e[a].0@
                != #[trigger] e[b].0@ by {
                if a == e.len() - 1 {
                    assert(e[b] == o[b]);
                    if o[b].0@ == id@ {
                        assert(mid.contains_key(id@));
                    }
                } else if b == e.len() - 1 {
                    assert(e[a] == o[a]);
                    if o[a].0@ == id@ {
                        assert(mid.contains_key(id@));
                    }
                } else {
                    assert(e[a] == o[a]);
                    assert(e[b] == o[b]);
                }
            }
            assert forall|k: Seq<char>| #[trigger]
                self@.contains_key(k) == mid.insert(id@, value).contains_key(k) by {
                if mid.contains_key(k) {
                    let j = choose|j: int| 0 <= j < o.len() && #[trigger] o[j].0@ == k;
                    assert(e[j].0@ == k);
                }
                if k == id@ {
                    assert(e[e.len() - 1].0@ == k);
                }
                if self@.contains_key(k) && k != id@ {
                    let j = choose|j: int| 0 <= j < e.len() && #[trigger] e[j].0@ == k;
                    assert(o[j].0@ == k);
                }
            }
            assert forall|k: Seq<char>| #[trigger]
                self@.contains_key(k) implies self@[k] == mid.insert(id@, value)[k] by {
                let j = choose|j: int| 0 <= j < e.len() && #[trigger] e[j].0@ == k;
                self.lemma_view_at(j);
                if j < e.len() - 1 {
                    assert(e[j] == o[j]);
                    assert(mid.contains_key(o[j].0@)) by {
                        assert(exists|x: int| 0 <= x < o.len() && #[trigger] o[x].0@ == o[j].0@);
                    }
                    let x = choose|x: int| 0 <= x < o.len() && #[trigger] o[x].0@ == o[j].0@;
                    if x != j {
                        assert(e[x] == o[x]);
                    }
                }
            }
            assert(self@ =~= mid.insert(id@, value));
            assert(mid.insert(id@, value) =~= old_map.insert(id@, value));
        }
    }
}

} // verus!
