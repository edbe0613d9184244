//! A map from names (strings) to values, kept as a list of pairs in which no
//! name occurs twice. Its abstract view is a `Map<Seq<char>, V>`.

use vstd::prelude::*;
use crate::text::str_eq;

verus! {

/// A finite map keyed by names.
pub struct NameMap<V> {
    entries: Vec<(String, V)>,
}

impl<V> NameMap<V> {
    /// No name occurs twice in the list of pairs.
    #[verifier::type_invariant]
    closed spec fn distinct_names(&self) -> bool {
        forall|i: int, j: int|
            0 <= i < self.entries@.len() && 0 <= j < self.entries@.len() && i != j
                ==> #[trigger] self.entries@[i].0@ != #[trigger] self.entries@[j].0@
    }

    closed spec fn has(&self, k: Seq<char>) -> bool {
        exists|i: int| 0 <= i < self.entries@.len() && #[trigger] self.entries@[i].0@ == k
    }

    closed spec fn position(&self, k: Seq<char>) -> int {
        choose|i: int| 0 <= i < self.entries@.len() && #[trigger] self.entries@[i].0@ == k
    }

    /// The names with their values.
    pub closed spec fn view(&self) -> Map<Seq<char>, V> {
        Map::new(|k: Seq<char>| self.has(k), |k: Seq<char>| self.entries@[self.position(k)].1)
    }

    /// The number of names held.
    pub closed spec fn size(&self) -> nat {
        self.entries@.len()
    }

    proof fn lemma_position(&self, i: int)
        requires
            self.distinct_names(),
            0 <= i < self.entries@.len(),
        ensures
            self.has(self.entries@[i].0@),
            self.position(self.entries@[i].0@) == i,
            self.view().contains_key(self.entries@[i].0@),
            self.view()[self.entries@[i].0@] == self.entries@[i].1,
    {
        let k = self.entries@[i].0@;
        assert(self.has(k));
        let p = self.position(k);
        assert(self.entries@[p].0@ == k);
    }

    /// An empty map.
    pub fn new() -> (m: Self)
        ensures
            m.view() == Map::<Seq<char>, V>::empty(),
    {
        let m = NameMap { entries: Vec::new() };
        assert(m.view() =~= Map::<Seq<char>, V>::empty());
        m
    }

    /// Where `k` stands in the list of pairs, if it is held.
    fn find(&self, k: &str) -> (r: Option<usize>)
        ensures
            match r {
                Some(i) => i < self.entries@.len() && self.entries@[i as int].0@ == k@
                    && self.view().contains_key(k@) && self.view()[k@] == self.entries@[i as int].1,
                None => !self.view().contains_key(k@),
            },
    {
        proof {
            use_type_invariant(self);
        }
        let mut i: usize = 0;
        while i < self.entries.len()
            invariant
                self.distinct_names(),
                i <= self.entries@.len(),
                forall|j: int| 0 <= j < i ==> #[trigger] self.entries@[j].0@ != k@,
            decreases self.entries@.len() - i,
        {
            if str_eq(self.entries[i].0.as_str(), k) {
                proof {
                    self.lemma_position(i as int);
                }
                return Some(i);
            }
            i = i + 1;
        }
        None
    }

    /// Whether `k` is held.
    pub fn contains_key(&self, k: &str) -> (r: bool)
        ensures
            r == self.view().contains_key(k@),
    {
        self.find(k).is_some()
    }

    /// The value held for `k`.
    pub fn get(&self, k: &str) -> (r: Option<&V>)
        ensures
            match r {
                Some(v) => self.view().contains_key(k@) && *v == self.view()[k@],
                None => !self.view().contains_key(k@),
            },
    {
        match self.find(k) {
            Some(i) => Some(&self.entries[i].1),
            None => None,
        }
    }

    /// Hold `v` for `k`, replacing what was held for it.
    pub fn insert(&mut self, k: String, v: V)
        ensures
            final(self).view() == old(self).view().insert(k@, v),
            final(self).size() <= old(self).size() + 1,
    {
        proof {
            use_type_invariant(&*self);
        }
        let ghost old_self = *self;
        let ghost kv = k@;
        match self.find(k.as_str()) {
            Some(i) => {
                let mut entries: Vec<(String, V)> = Vec::new();
                std::mem::swap(&mut entries, &mut self.entries);
                entries.set(i, (k, v));
                self.entries = entries;
                proof {
                    assert forall|a: int, b: int|
                        0 <= a < self.entries@.len() && 0 <= b < self.entries@.len() && a != b
                            implies #[trigger] self.entries@[a].0@ != #[trigger] self.entries@[b].0@ by {
                        assert(old_self.entries@[a].0@ != old_self.entries@[b].0@);
                    }
                    self.lemma_view_after_set(old_self, i as int, kv, v);
                }
            },
            None => {
                let mut entries: Vec<(String, V)> = Vec::new();
                std::mem::swap(&mut entries, &mut self.entries);
                entries.push((k, v));
                self.entries = entries;
                proof {
                    assert forall|a: int, b: int|
                        0 <= a < self.entries@.len() && 0 <= b < self.entries@.len() && a != b
                            implies #[trigger] self.entries@[a].0@ != #[trigger] self.entries@[b].0@ by {
                        if a < old_self.entries@.len() && b < old_self.entries@.len() {
                            assert(old_self.entries@[a].0@ != old_self.entries@[b].0@);
                        } else if a < old_self.entries@.len() {
                            assert(!old_self.has(kv));
                            assert(old_self.entries@[a].0@ != kv);
                        } else {
                            assert(!old_self.has(kv));
                            assert(old_self.entries@[b].0@ != kv);
                        }
                    }
                    self.lemma_view_after_push(old_self, kv, v);
                }
            },
        }
    }

    proof fn lemma_view_after_set(&self, old_self: Self, i: int, kv: Seq<char>, v: V)
        requires
            old_self.distinct_names(),
            self.distinct_names(),
            0 <= i < old_self.entries@.len(),
            old_self.entries@[i].0@ == kv,
            self.entries@.len() == old_self.entries@.len(),
            self.entries@[i].0@ == kv,
            self.entries@[i].1 == v,
            forall|j: int| 0 <= j < self.entries@.len() && j != i ==> self.entries@[j] == old_self.entries@[j],
        ensures
            self.view() == old_self.view().insert(kv, v),
    {
        assert forall|k: Seq<char>| #[trigger] self.has(k) == old_self.view().insert(kv, v).contains_key(k) by {
            if self.has(k) {
                let p = self.position(k);
                if p != i {
                    old_self.lemma_position(p);
                }
            }
            if old_self.has(k) && k != kv {
                let p = old_self.position(k);
                assert(self.entries@[p].0@ == k);
            }
            if k == kv {
                assert(self.entries@[i].0@ == k);
            }
        }
        assert forall|k: Seq<char>| self.has(k) implies self.view()[k] == old_self.view().insert(kv, v)[k] by {
            let p = self.position(k);
            self.lemma_position(p);
            if p != i {
                old_self.lemma_position(p);
            }
        }
        assert(self.view() =~= old_self.view().insert(kv, v));
    }

    proof fn lemma_view_after_push(&self, old_self: Self, kv: Seq<char>, v: V)
        requires
            old_self.distinct_names(),
            self.distinct_names(),
            self.entries@ == old_self.entries@.push((self.entries@.last().0, v)),
            self.entries@.last().0@ == kv,
        ensures
            self.view() == old_self.view().insert(kv, v),
    {
        let n = old_self.entries@.len() as int;
        assert forall|k: Seq<char>| #[trigger] self.has(k) == old_self.view().insert(kv, v).contains_key(k) by {
            if self.has(k) {
                let p = self.position(k);
                if p != n {
                    old_self.lemma_position(p);
                }
            }
            if old_self.has(k) {
                let p = old_self.position(k);
                assert(self.entries@[p].0@ == k);
            }
            if k == kv {
                assert(self.entries@[n].0@ == k);
            }
        }
        assert forall|k: Seq<char>| self.has(k) implies self.view()[k] == old_self.view().insert(kv, v)[k] by {
            let p = self.position(k);
            self.lemma_position(p);
            if p != n {
                old_self.lemma_position(p);
            }
        }
        assert(self.view() =~= old_self.view().insert(kv, v));
    }

    /// Stop holding `k`; the value that was held for it is handed back.
    pub fn remove(&mut self, k: &str) -> (r: Option<V>)
        ensures
            final(self).view() == old(self).view().remove(k@),
            final(self).size() <= old(self).size(),
            match r {
                Some(v) => old(self).view().contains_key(k@) && v == old(self).view()[k@],
                None => !old(self).view().contains_key(k@),
            },
    {
        proof {
            use_type_invariant(&*self);
        }
        let ghost old_self = *self;
        match self.find(k) {
            Some(i) => {
                let mut entries: Vec<(String, V)> = Vec::new();
                std::mem::swap(&mut entries, &mut self.entries);
                let (_name, v) = entries.remove(i);
                self.entries = entries;
                proof {
                    assert forall|a: int, b: int|
                        0 <= a < self.entries@.len() && 0 <= b < self.entries@.len() && a != b
                            implies #[trigger] self.entries@[a].0@ != #[trigger] self.entries@[b].0@ by {
                        let oa = if a < i { a } else { a + 1 };
                        let ob = if b < i { b } else { b + 1 };
                        assert(old_self.entries@[oa].0@ != old_self.entries@[ob].0@);
                    }
                    self.lemma_view_after_remove(old_self, i as int, k@);
                }
                Some(v)
            },
            None => {
                proof {
                    assert(self.view() =~= old_self.view().remove(k@));
                }
                None
            },
        }
    }

    proof fn lemma_view_after_remove(&self, old_self: Self, i: int, kv: Seq<char>)
        requires
            old_self.distinct_names(),
            self.distinct_names(),
            0 <= i < old_self.entries@.len(),
            old_self.entries@[i].0@ == kv,
            self.entries@ == old_self.entries@.remove(i),
        ensures
            self.view() == old_self.view().remove(kv),
    {
        assert forall|k: Seq<char>| #[trigger] self.has(k) == old_self.view().remove(kv).contains_key(k) by {
            if self.has(k) {
                let p = self.position(k);
                let op = if p < i { p } else { p + 1 };
                assert(old_self.entries@[op].0@ == k);
                assert(op != i);
                old_self.lemma_position(op);
            }
            if old_self.has(k) && k != kv {
                let p = old_self.position(k);
                assert(p != i);
                let np = if p < i { p } else { p - 1 };
                assert(self.entries@[np].0@ == k);
            }
        }
        assert forall|k: Seq<char>| self.has(k) implies self.view()[k] == old_self.view().remove(kv)[k] by {
            let p = self.position(k);
            self.lemma_position(p);
            let op = if p < i { p } else { p + 1 };
            assert(old_self.entries@[op] == self.entries@[p]);
            old_self.lemma_position(op);
        }
        assert(self.view() =~= old_self.view().remove(kv));
    }

    /// The names held, each once.
    pub fn keys(&self) -> (r: Vec<String>)
        ensures
            r@.len() == self.size(),
            forall|i: int| 0 <= i < r@.len() ==> self.view().contains_key(#[trigger] r@[i]@),
            forall|k: Seq<char>| self.view().contains_key(k) ==> exists|i: int| 0 <= i < r@.len() && #[trigger] r@[i]@ == k,
            forall|i: int, j: int| 0 <= i < r@.len() && 0 <= j < r@.len() && i != j ==> #[trigger] r@[i]@ != #[trigger] r@[j]@,
    {
        proof {
            use_type_invariant(self);
        }
        let mut r: Vec<String> = Vec::new();
        let mut i: usize = 0;
        while i < self.entries.len()
            invariant
                self.distinct_names(),
                i <= self.entries@.len(),
                r@.len() == i,
                forall|j: int| 0 <= j < i ==> #[trigger] r@[j]@ == self.entries@[j].0@,
            decreases self.entries@.len() - i,
        {
            r.push(self.entries[i].0.clone());
            i = i + 1;
        }
        proof {
            assert forall|j: int| 0 <= j < r@.len() implies self.view().contains_key(#[trigger] r@[j]@) by {
                self.lemma_position(j);
            }
            assert forall|k: Seq<char>| self.view().contains_key(k) implies exists|j: int| 0 <= j < r@.len() && #[trigger] r@[j]@ == k by {
                let p = self.position(k);
                assert(r@[p]@ == k);
            }
            assert forall|a: int, b: int| 0 <= a < r@.len() && 0 <= b < r@.len() && a != b implies #[trigger] r@[a]@ != #[trigger] r@[b]@ by {
                assert(self.entries@[a].0@ != self.entries@[b].0@);
            }
        }
        r
    }
}

} // verus!
