//! A map keyed by 128-bit identifiers that is walked in ascending key order.
use vstd::prelude::*;

verus! {

/// Entries sorted by key, each key at most once.
pub struct IdMap<V> {
    entries: Vec<(u128, V)>,
}

impl<V> View for IdMap<V> {
    type V = Map<u128, V>;

    closed spec fn view(&self) -> Map<u128, V> {
        Map::new(
            |k: u128| exists|i: int| 0 <= i < self.entries@.len() && (#[trigger] self.entries@[i]).0 == k,
            |k: u128| self.entries@[self.position(k)].1,
        )
    }
}

impl<V> IdMap<V> {
    spec fn position(&self, k: u128) -> int {
        choose|i: int| 0 <= i < self.entries@.len() && (#[trigger] self.entries@[i]).0 == k
    }

    /// Keys ascend strictly.
    pub closed spec fn wf(&self) -> bool {
        forall|i: int, j: int|
            0 <= i < j < self.entries@.len() ==> (#[trigger] self.entries@[i]).0 < (#[trigger] self.entries@[j]).0
    }

    /// The keys in ascending order.
    pub closed spec fn keys(&self) -> Seq<u128> {
        self.entries@.map_values(|e: (u128, V)| e.0)
    }

    /// How the keys stand: as many as the length, ascending, and just those of
    /// the map.
    pub proof fn lemma_keys(&self)
        requires
            self.wf(),
        ensures
            forall|i: int, j: int| 0 <= i < j < self.keys().len() ==> self.keys()[i] < self.keys()[j],
            forall|k: u128| self@.contains_key(k) <==> self.keys().contains(k),
            forall|i: int| 0 <= i < self.keys().len() ==> self@.contains_key(#[trigger] self.keys()[i]),
    {
        assert forall|k: u128| self@.contains_key(k) implies self.keys().contains(k) by {
            let i = self.position(k);
            assert(self.keys()[i] == k);
        }
        assert forall|k: u128| self.keys().contains(k) implies self@.contains_key(k) by {
            let i = choose|i: int| 0 <= i < self.keys().len() && self.keys()[i] == k;
            assert(self.entries@[i].0 == k);
        }
        assert forall|i: int| 0 <= i < self.keys().len() implies self@.contains_key(#[trigger] self.keys()[i]) by {
            assert(self.keys().contains(self.keys()[i]));
        }
    }

    proof fn lemma_at(&self, i: int)
        requires
            self.wf(),
            0 <= i < self.entries@.len(),
        ensures
            self@.contains_key(self.entries@[i].0),
            self@[self.entries@[i].0] == self.entries@[i].1,
            self.position(self.entries@[i].0) == i,
    {
        let k = self.entries@[i].0;
        let j = self.position(k);
        assert(self.entries@[j].0 == k);
        if i < j {
            assert(self.entries@[i].0 < self.entries@[j].0);
        }
        if j < i {
            assert(self.entries@[j].0 < self.entries@[i].0);
        }
    }

    pub fn new() -> (m: Self)
        ensures
            m.wf(),
            m@ == Map::<u128, V>::empty(),
            m.keys() == Seq::<u128>::empty(),
    {
        let m = IdMap { entries: Vec::new() };
        assert(m@ =~= Map::<u128, V>::empty());
        assert(m.keys() =~= Seq::<u128>::empty());
        m
    }

    pub fn len(&self) -> (n: usize)
        ensures
            n == self.keys().len(),
    {
        self.entries.len()
    }

    /// The first position whose key is not below `k`.
    fn lower_bound(&self, k: u128) -> (p: usize)
        requires
            self.wf(),
        ensures
            p <= self.entries@.len(),
            forall|i: int| 0 <= i < p ==> (#[trigger] self.entries@[i]).0 < k,
            forall|i: int| p <= i < self.entries@.len() ==> (#[trigger] self.entries@[i]).0 >= k,
    {
        let mut lo: usize = 0;
        let mut hi: usize = self.entries.len();
        while lo < hi
            invariant
                self.wf(),
                lo <= hi <= self.entries@.len(),
                forall|i: int| 0 <= i < lo ==> (#[trigger] self.entries@[i]).0 < k,
                forall|i: int| hi <= i < self.entries@.len() ==> (#[trigger] self.entries@[i]).0 >= k,
            decreases hi - lo,
        {
            let mid: usize = lo + (hi - lo) / 2;
            if self.entries[mid].0 < k {
                lo = mid + 1;
            } else {
                hi = mid;
            }
        }
        lo
    }

    /// The place of `k` in key order, if it is there.
    pub fn find(&self, k: u128) -> (p: Option<usize>)
        requires
            self.wf(),
        ensures
            match p {
                Some(i) => i < self.keys().len() && self.keys()[i as int] == k && self@.contains_key(k),
                None => !self@.contains_key(k),
            },
    {
        let p: usize = self.lower_bound(k);
        if p < self.entries.len() && self.entries[p].0 == k {
            proof {
                self.lemma_at(p as int);
            }
            Some(p)
        } else {
            proof {
                if self@.contains_key(k) {
                    let i = self.position(k);
                    assert(self.entries@[i].0 == k);
                }
            }
            None
        }
    }

    pub fn contains(&self, k: u128) -> (r: bool)
        requires
            self.wf(),
        ensures
            r == self@.contains_key(k),
    {
        self.find(k).is_some()
    }

    pub fn get(&self, k: u128) -> (r: Option<&V>)
        requires
            self.wf(),
        ensures
            match r {
                Some(v) => self@.contains_key(k) && *v == self@[k],
                None => !self@.contains_key(k),
            },
    {
        match self.find(k) {
            Some(p) => {
                proof {
                    self.lemma_at(p as int);
                }
                Some(&self.entries[p].1)
            },
            None => None,
        }
    }

    /// The key at place `i` in key order.
    pub fn key_at(&self, i: usize) -> (k: u128)
        requires
            self.wf(),
            i < self.keys().len(),
        ensures
            k == self.keys()[i as int],
            self@.contains_key(k),
    {
        proof {
            self.lemma_at(i as int);
        }
        self.entries[i].0
    }

    /// The value at place `i` in key order.
    pub fn value_at(&self, i: usize) -> (v: &V)
        requires
            self.wf(),
            i < self.keys().len(),
        ensures
            self@.contains_key(self.keys()[i as int]),
            *v == self@[self.keys()[i as int]],
    {
        proof {
            self.lemma_at(i as int);
        }
        &self.entries[i].1
    }

    /// Sets the value of `k` and hands back the one it had.
    pub fn insert(&mut self, k: u128, v: V) -> (previous: Option<V>)
        requires
            old(self).wf(),
        ensures
            final(self).wf(),
            final(self)@ == old(self)@.insert(k, v),
            old(self)@.contains_key(k) ==> final(self).keys() == old(self).keys(),
            !old(self)@.contains_key(k) ==> final(self).keys().len() == old(self).keys().len() + 1,
            match previous {
                Some(w) => old(self)@.contains_key(k) && w == old(self)@[k],
                None => !old(self)@.contains_key(k),
            },
    {
        let p: usize = self.lower_bound(k);
        let ghost before = *self;
        if p < self.entries.len() && self.entries[p].0 == k {
            proof {
                before.lemma_at(p as int);
            }
            let mut pair: (u128, V) = (k, v);
            std::mem::swap(&mut pair, &mut self.entries[p]);
            proof {
                assert(self.entries@ =~= before.entries@.update(p as int, (k, v)));
                self.lemma_same_keys(before, p as int);
                assert(self@ =~= before@.insert(k, v));
                assert(self.keys() =~= before.keys());
            }
            Some(pair.1)
        } else {
            self.entries.insert(p, (k, v));
            proof {
                assert(self.entries@ =~= before.entries@.insert(p as int, (k, v)));
                assert(self.wf());
                if before@.contains_key(k) {
                    let i = before.position(k);
                    assert(before.entries@[i].0 == k);
                }
                self.lemma_at(p as int);
                assert forall|q: u128| #[trigger] self@.contains_key(q) == before@.insert(k, v).contains_key(q) by {
                    if self@.contains_key(q) {
                        let i = self.position(q);
                        assert(self.entries@[i].0 == q);
                        if i < p {
                            before.lemma_at(i);
                        } else if i > p {
                            before.lemma_at(i - 1);
                        }
                    }
                    if before@.contains_key(q) {
                        let i = before.position(q);
                        assert(before.entries@[i].0 == q);
                        if i < p {
                            self.lemma_at(i);
                        } else {
                            assert(self.entries@[i + 1] == before.entries@[i]);
                            self.lemma_at(i + 1);
                        }
                    }
                }
                assert forall|q: u128| #[trigger] self@.contains_key(q) implies self@[q] == before@.insert(k, v)[q] by {
                    let i = self.position(q);
                    assert(self.entries@[i].0 == q);
                    self.lemma_at(i);
                    if i < p {
                        before.lemma_at(i);
                    } else if i > p {
                        before.lemma_at(i - 1);
                    }
                }
                assert(self@ =~= before@.insert(k, v));
            }
            None
        }
    }

    proof fn lemma_same_keys(self, before: Self, p: int)
        requires
            before.wf(),
            0 <= p < before.entries@.len(),
            self.entries@.len() == before.entries@.len(),
            forall|i: int| 0 <= i < before.entries@.len() ==> (#[trigger] self.entries@[i]).0 == before.entries@[i].0,
            forall|i: int|
                0 <= i < before.entries@.len() && i != p ==> #[trigger] self.entries@[i] == before.entries@[i],
        ensures
            self.wf(),
            self@ == before@.insert(before.entries@[p].0, self.entries@[p].1),
            self.keys() == before.keys(),
    {
        let k = before.entries@[p].0;
        let w = self.entries@[p].1;
        assert forall|i: int, j: int| 0 <= i < j < self.entries@.len() implies (#[trigger] self.entries@[i]).0 < (
        #[trigger] self.entries@[j]).0 by {
            assert(before.entries@[i].0 < before.entries@[j].0);
        }
        before.lemma_at(p);
        assert forall|q: u128| #[trigger] self@.contains_key(q) == before@.insert(k, w).contains_key(q) by {
            if self@.contains_key(q) {
                let i = self.position(q);
                assert(self.entries@[i].0 == q);
                before.lemma_at(i);
            }
            if before@.contains_key(q) {
                let i = before.position(q);
                assert(before.entries@[i].0 == q);
                self.lemma_at(i);
            }
        }
        assert forall|q: u128| #[trigger] self@.contains_key(q) implies self@[q] == before@.insert(k, w)[q] by {
            let i = self.position(q);
            assert(self.entries@[i].0 == q);
            self.lemma_at(i);
            before.lemma_at(i);
        }
        assert(self@ =~= before@.insert(k, w));
        assert(self.keys() =~= before.keys());
    }

    /// Takes `k` out and hands back its value.
    pub fn remove(&mut self, k: u128) -> (removed: Option<V>)
        requires
            old(self).wf(),
        ensures
            final(self).wf(),
            final(self)@ == old(self)@.remove(k),
            match removed {
                Some(w) => old(self)@.contains_key(k) && w == old(self)@[k] && final(self).keys().len() + 1
                    == old(self).keys().len(),
                None => !old(self)@.contains_key(k) && final(self).keys() == old(self).keys(),
            },
    {
        let ghost before = *self;
        match self.find(k) {
            None => {
                assert(self@ =~= before@.remove(k));
                None
            },
            Some(p) => {
                let pair: (u128, V) = self.entries.remove(p);
                proof {
                    before.lemma_at(p as int);
                    assert(self.entries@ =~= before.entries@.remove(p as int));
                    assert(self.wf());
                    assert forall|q: u128| #[trigger] self@.contains_key(q) == before@.remove(k).contains_key(q) by {
                        if self@.contains_key(q) {
                            let i = self.position(q);
                            assert(self.entries@[i].0 == q);
                            if i < p {
                                before.lemma_at(i);
                            } else {
                                before.lemma_at(i + 1);
                                assert(before.entries@[p as int].0 < before.entries@[i + 1].0);
                            }
                        }
                        if before@.contains_key(q) && q != k {
                            let i = before.position(q);
                            assert(before.entries@[i].0 == q);
                            if i < p {
                                self.lemma_at(i);
                            } else {
                                assert(self.entries@[i - 1] == before.entries@[i]);
                                self.lemma_at(i - 1);
                            }
                        }
                    }
                    assert forall|q: u128| #[trigger] self@.contains_key(q) implies self@[q] == before@.remove(k)[q] by {
                        let i = self.position(q);
                        assert(self.entries@[i].0 == q);
                        self.lemma_at(i);
                        if i < p {
                            before.lemma_at(i);
                        } else {
                            before.lemma_at(i + 1);
                        }
                    }
                    assert(self@ =~= before@.remove(k));
                }
                Some(pair.1)
            },
        }
    }

    /// The value at place `i` in key order, for changing.
    pub fn value_mut(&mut self, i: usize) -> (v: &mut V)
        requires
            old(self).wf(),
            i < old(self).keys().len(),
        ensures
            old(self)@.contains_key(old(self).keys()[i as int]),
            *v == old(self)@[old(self).keys()[i as int]],
            final(self).wf(),
            final(self)@ == old(self)@.insert(old(self).keys()[i as int], *final(v)),
            final(self).keys() == old(self).keys(),
    {
        proof {
            self.lemma_at(i as int);
        }
        let ghost before = *self;
        let r = &mut self.entries[i].1;
        proof {
            after_borrow(*self).lemma_same_keys(before, i as int);
        }
        r
    }
}

impl<V: Copy> IdMap<V> {
    /// An equal copy.
    pub fn duplicate(&self) -> (r: Self)
        requires
            self.wf(),
        ensures
            r.wf(),
            r@ == self@,
            r.keys() == self.keys(),
    {
        let mut entries: Vec<(u128, V)> = Vec::new();
        let mut i: usize = 0;
        while i < self.entries.len()
            invariant
                i <= self.entries@.len(),
                entries@ == self.entries@.take(i as int),
            decreases self.entries@.len() - i,
        {
            proof {
                assert(self.entries@.take(i + 1) =~= self.entries@.take(i as int).push(self.entries@[i as int]));
            }
            let e: (u128, V) = (self.entries[i].0, self.entries[i].1);
            entries.push(e);
            i = i + 1;
        }
        let r = IdMap { entries };
        proof {
            assert(self.entries@.take(i as int) =~= self.entries@);
            assert(r.entries@ == self.entries@);
            assert(r.keys() =~= self.keys());
            assert forall|k: u128| #[trigger] r@.contains_key(k) == self@.contains_key(k) by {}
            assert forall|k: u128| #[trigger] r@.contains_key(k) implies r@[k] == self@[k] by {
                let a = self.position(k);
                assert(self.entries@[a].0 == k);
                self.lemma_at(a);
                r.lemma_at(a);
            }
            assert(r@ =~= self@);
        }
        r
    }
}

} // verus!
