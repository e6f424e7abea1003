//! A small map that is searched entry by entry.
use vstd::prelude::*;

verus! {

/// Keys that can be told apart.
pub trait Key: Sized + Copy {
    /// Whether two keys are the same.
    fn same(&self, other: &Self) -> (r: bool)
        ensures
            r == (*self == *other),
    ;
}

/// Entries in the order in which their keys came, each key at most once.
pub struct Table<K, V> {
    entries: Vec<(K, V)>,
}

impl<K, V> View for Table<K, V> {
    type V = Seq<(K, V)>;

    closed spec fn view(&self) -> Seq<(K, V)> {
        self.entries@
    }
}

/// Whether some entry has key `k`.
pub open spec fn keyed<K, V>(s: Seq<(K, V)>, k: K) -> bool {
    exists|i: int| 0 <= i < s.len() && (#[trigger] s[i]).0 == k
}

/// Where the entry of `k` is.
pub open spec fn place<K, V>(s: Seq<(K, V)>, k: K) -> int {
    choose|i: int| 0 <= i < s.len() && (#[trigger] s[i]).0 == k
}

/// No key stands twice.
pub open spec fn distinct<K, V>(s: Seq<(K, V)>) -> bool {
    forall|i: int, j: int| 0 <= i < j < s.len() ==> (#[trigger] s[i]).0 != (#[trigger] s[j]).0
}

pub proof fn lemma_place<K, V>(s: Seq<(K, V)>, i: int)
    requires
        distinct(s),
        0 <= i < s.len(),
    ensures
        keyed(s, s[i].0),
        place(s, s[i].0) == i,
{
    let j = place(s, s[i].0);
    assert(s[j].0 == s[i].0);
    if i < j {
        assert(s[i].0 != s[j].0);
    }
    if j < i {
        assert(s[j].0 != s[i].0);
    }
}

pub proof fn lemma_distinct_push<K, V>(s: Seq<(K, V)>, k: K, v: V)
    requires
        distinct(s),
        !keyed(s, k),
    ensures
        distinct(s.push((k, v))),
{
    let t = s.push((k, v));
    assert forall|i: int, j: int| 0 <= i < j < t.len() implies (#[trigger] t[i]).0 != (#[trigger] t[j]).0 by {
        assert(t[i] == s[i]);
        if j < s.len() {
            assert(t[j] == s[j]);
        }
    }
}

pub proof fn lemma_distinct_remove<K, V>(s: Seq<(K, V)>, at: int)
    requires
        distinct(s),
        0 <= at < s.len(),
    ensures
        distinct(s.remove(at)),
        !keyed(s.remove(at), s[at].0),
        forall|k: K| k != s[at].0 ==> keyed(s.remove(at), k) == keyed(s, k),
{
    let t = s.remove(at);
    assert forall|i: int| 0 <= i < t.len() implies #[trigger] t[i] == s[if i < at {
        i
    } else {
        i + 1
    }] by {}
    assert forall|i: int, j: int| 0 <= i < j < t.len() implies (#[trigger] t[i]).0 != (#[trigger] t[j]).0 by {
        let a = if i < at {
            i
        } else {
            i + 1
        };
        let b = if j < at {
            j
        } else {
            j + 1
        };
        assert(s[a].0 != s[b].0);
    }
    if keyed(t, s[at].0) {
        let i = place(t, s[at].0);
        let a = if i < at {
            i
        } else {
            i + 1
        };
        if a < at {
            assert(s[a].0 != s[at].0);
        } else {
            assert(s[at].0 != s[a].0);
        }
    }
    assert forall|k: K| k != s[at].0 implies keyed(t, k) == keyed(s, k) by {
        if keyed(s, k) {
            let i = place(s, k);
            let a = if i < at {
                i
            } else {
                i - 1
            };
            assert(t[a] == s[i]);
        }
        if keyed(t, k) {
            let i = place(t, k);
            let a = if i < at {
                i
            } else {
                i + 1
            };
            assert(s[a] == t[i]);
        }
    }
}

impl<K: Key, V> Table<K, V> {
    /// No key stands twice.
    pub open spec fn wf(&self) -> bool {
        distinct(self@)
    }

    pub fn new() -> (t: Self)
        ensures
            t.wf(),
            t@ == Seq::<(K, V)>::empty(),
    {
        let t = Table { entries: Vec::new() };
        assert(t@ =~= Seq::<(K, V)>::empty());
        t
    }

    pub fn len(&self) -> (n: usize)
        ensures
            n == self@.len(),
    {
        self.entries.len()
    }

    /// Where the entry of `k` is.
    pub fn find(&self, k: K) -> (p: Option<usize>)
        requires
            self.wf(),
        ensures
            match p {
                Some(i) => i < self@.len() && self@[i as int].0 == k && keyed(self@, k) && place(self@, k) == i,
                None => !keyed(self@, k),
            },
    {
        let mut i: usize = 0;
        while i < self.entries.len()
            invariant
                self.wf(),
                i <= self@.len(),
                forall|j: int| 0 <= j < i ==> (#[trigger] self@[j]).0 != k,
            decreases self@.len() - i,
        {
            if self.entries[i].0.same(&k) {
                proof {
                    lemma_place(self@, i as int);
                }
                return Some(i);
            }
            i = i + 1;
        }
        None
    }

    /// Whether some entry has key `k`.
    pub fn contains(&self, k: K) -> (r: bool)
        requires
            self.wf(),
        ensures
            r == keyed(self@, k),
    {
        match self.find(k) {
            Some(_) => true,
            None => false,
        }
    }

    pub fn key_at(&self, i: usize) -> (k: K)
        requires
            i < self@.len(),
        ensures
            k == self@[i as int].0,
    {
        self.entries[i].0
    }

    pub fn value_at(&self, i: usize) -> (v: &V)
        requires
            i < self@.len(),
        ensures
            *v == self@[i as int].1,
    {
        &self.entries[i].1
    }

    /// The value at place `i`, for changing.
    pub fn value_mut(&mut self, i: usize) -> (v: &mut V)
        requires
            i < old(self)@.len(),
        ensures
            *v == old(self)@[i as int].1,
            final(self)@ == old(self)@.update(i as int, (old(self)@[i as int].0, *final(v))),
            old(self).wf() ==> final(self).wf(),
    {
        &mut self.entries[i].1
    }

    /// Adds an entry behind the others.
    pub fn push(&mut self, k: K, v: V)
        requires
            old(self).wf(),
            !keyed(old(self)@, k),
        ensures
            final(self).wf(),
            final(self)@ == old(self)@.push((k, v)),
    {
        proof {
            lemma_distinct_push(self@, k, v);
        }
        self.entries.push((k, v));
    }

    /// Takes the entry at place `i` out.
    pub fn remove_at(&mut self, i: usize) -> (e: (K, V))
        requires
            old(self).wf(),
            i < old(self)@.len(),
        ensures
            final(self).wf(),
            e == old(self)@[i as int],
            final(self)@ == old(self)@.remove(i as int),
    {
        proof {
            lemma_distinct_remove(self@, i as int);
        }
        self.entries.remove(i)
    }
}

} // verus!
