use vstd::prelude::*;

verus! {

/// A key of a directory table: compared by its spec-level value.
pub trait TableKey: Sized {
    type Value;

    spec fn key(&self) -> Self::Value;

    fn same(&self, o: &Self) -> (r: bool)
        ensures
            r == (self.key() == o.key()),
    ;
}

/// A keyed table of the directory, at most one entry per key, in order of insertion.
pub struct Table<K, V> {
    pub entries: Vec<(K, V)>,
}

/// Whether `s` has an entry under the key value `k`.
pub open spec fn has_key<K: TableKey, V>(s: Seq<(K, V)>, k: K::Value) -> bool {
    exists|i: int| 0 <= i < s.len() && #[trigger] s[i].0.key() == k
}

impl<K: TableKey, V> Table<K, V> {
    pub open spec fn view(&self) -> Seq<(K, V)> {
        self.entries@
    }

    /// Whether the table has an entry under the key value `k`.
    pub open spec fn contains(&self, k: K::Value) -> bool {
        has_key(self@, k)
    }

    /// Whether the table holds `v` under the key value `k`.
    pub open spec fn maps(&self, k: K::Value, v: V) -> bool {
        exists|i: int| 0 <= i < self@.len() && #[trigger] self@[i].0.key() == k && self@[i].1 == v
    }

    /// No two entries share a key.
    pub open spec fn wf(&self) -> bool {
        forall|i: int, j: int|
            0 <= i < j < self@.len() ==> #[trigger] self@[i].0.key() != #[trigger] self@[j].0.key()
    }

    pub fn new() -> (r: Self)
        ensures
            r.wf(),
            r@.len() == 0,
    {
        Table { entries: Vec::new() }
    }

    /// The position of the entry under `k`, if there is one.
    pub fn find(&self, k: &K) -> (r: Option<usize>)
        ensures
            r is None <==> !self.contains(k.key()),
            r matches Some(i) ==> i < self@.len() && self@[i as int].0.key() == k.key(),
    {
        let mut i: usize = 0;
        while i < self.entries.len()
            invariant
                i <= self@.len(),
                forall|j: int| 0 <= j < i ==> self@[j].0.key() != k.key(),
            decreases self@.len() - i,
        {
            if self.entries[i].0.same(k) {
                return Some(i);
            }
            i = i + 1;
        }
        None
    }

    /// The value under `k`, if there is one.
    pub fn get(&self, k: &K) -> (r: Option<&V>)
        requires
            self.wf(),
        ensures
            r is None <==> !self.contains(k.key()),
            r matches Some(v) ==> self.maps(k.key(), *v),
            forall|v: V| self.maps(k.key(), v) ==> r == Some(&v),
    {
        match self.find(k) {
            None => None,
            Some(i) => {
                proof {
                    assert forall|v: V| self.maps(k.key(), v) implies v == self@[i as int].1 by {
                        let j = choose|j: int| 0 <= j < self@.len() && #[trigger] self@[j].0.key() == k.key() && self@[j].1 == v;
                        if j < i {
                            assert(self@[j].0.key() != self@[i as int].0.key());
                        } else if j > i {
                            assert(self@[i as int].0.key() != self@[j].0.key());
                        }
                    }
                }
                Some(&self.entries[i].1)
            },
        }
    }

    /// The value that the table holds under the key value `k`, where it holds one.
    pub open spec fn value_of(&self, k: K::Value) -> V {
        choose|v: V| self.maps(k, v)
    }

    /// Removes the entry under `k`, if there is one.
    pub fn remove(&mut self, k: &K)
        requires
            old(self).wf(),
        ensures
            final(self).wf(),
            !final(self).contains(k.key()),
            !old(self).contains(k.key()) ==> *final(self) == *old(self),
            forall|k2: K::Value, v: V| k2 != k.key() ==> (final(self).maps(k2, v) <==> old(self).maps(k2, v)),
            forall|k2: K::Value| k2 != k.key() ==> (final(self).contains(k2) <==> old(self).contains(k2)),
    {
        let _ = self.take(k);
    }

    /// Removes the entry under `k` and hands back its value, if there is one.
    pub fn take(&mut self, k: &K) -> (r: Option<V>)
        requires
            old(self).wf(),
        ensures
            final(self).wf(),
            r is None <==> !old(self).contains(k.key()),
            r matches Some(v) ==> old(self).maps(k.key(), v),
            r is None ==> *final(self) == *old(self),
            !final(self).contains(k.key()),
            forall|k2: K::Value, v: V| k2 != k.key() ==> (final(self).maps(k2, v) <==> old(self).maps(k2, v)),
            forall|k2: K::Value| k2 != k.key() ==> (final(self).contains(k2) <==> old(self).contains(k2)),
    {
        match self.find(k) {
            None => None,
            Some(p) => {
                let (_, v) = self.entries.remove(p);
                proof {
                    let o = old(self)@;
                    let n = self@;
                    assert forall|j: int| 0 <= j < n.len() implies #[trigger] n[j] == (if j < p { o[j] } else { o[j + 1] }) by {}
                    assert forall|i: int, j: int| 0 <= i < j < n.len() implies #[trigger] n[i].0.key() != #[trigger] n[j].0.key() by {
                        let oi = if i < p { i } else { i + 1 };
                        let oj = if j < p { j } else { j + 1 };
                        assert(o[oi].0.key() != o[oj].0.key());
                    }
                    assert forall|j: int| 0 <= j < n.len() implies #[trigger] n[j].0.key() != k.key() by {
                        let oj = if j < p { j } else { j + 1 };
                        if oj < p {
                            assert(o[oj].0.key() != o[p as int].0.key());
                        } else {
                            assert(o[p as int].0.key() != o[oj].0.key());
                        }
                    }
                    assert forall|k2: K::Value, v: V| k2 != k.key() && old(self).maps(k2, v) implies self.maps(k2, v) by {
                        let j = choose|j: int| 0 <= j < o.len() && #[trigger] o[j].0.key() == k2 && o[j].1 == v;
                        let nj = if j < p { j } else { j - 1 };
                        assert(n[nj] == o[j]);
                    }
                    assert forall|k2: K::Value| k2 != k.key() && old(self).contains(k2) implies self.contains(k2) by {
                        let j = choose|j: int| 0 <= j < o.len() && #[trigger] o[j].0.key() == k2;
                        let nj = if j < p { j } else { j - 1 };
                        assert(n[nj] == o[j]);
                    }
                }
                Some(v)
            },
        }
    }

    /// Puts `v` under `k`, replacing what was there.
    pub fn insert(&mut self, k: K, v: V)
        requires
            old(self).wf(),
        ensures
            final(self).wf(),
            final(self).maps(k.key(), v),
            forall|w: V| final(self).maps(k.key(), w) ==> w == v,
            forall|k2: K::Value, w: V| k2 != k.key() ==> (final(self).maps(k2, w) <==> old(self).maps(k2, w)),
            forall|k2: K::Value| k2 != k.key() ==> (final(self).contains(k2) <==> old(self).contains(k2)),
    {
        self.remove(&k);
        let ghost mid = self@;
        let ghost kk = k.key();
        self.entries.push((k, v));
        proof {
            let n = self@;
            assert(n.drop_last() == mid);
            assert forall|i: int, j: int| 0 <= i < j < n.len() implies #[trigger] n[i].0.key() != #[trigger] n[j].0.key() by {
                if j == n.len() - 1 {
                    assert(mid[i].0.key() != kk);
                } else {
                    assert(mid[i].0.key() != mid[j].0.key());
                }
            }
            assert(n[n.len() - 1].0.key() == kk);
            assert forall|w: V| self.maps(kk, w) implies w == v by {
                let j = choose|j: int| 0 <= j < n.len() && #[trigger] n[j].0.key() == kk && n[j].1 == w;
                if j < n.len() - 1 {
                    assert(mid[j].0.key() != kk);
                }
            }
            assert forall|k2: K::Value, w: V| k2 != kk && self.maps(k2, w) implies has_pair(mid, k2, w) by {
                let j = choose|j: int| 0 <= j < n.len() && #[trigger] n[j].0.key() == k2 && n[j].1 == w;
                assert(mid[j] == n[j]);
            }
            assert forall|k2: K::Value, w: V| k2 != kk && has_pair(mid, k2, w) implies self.maps(k2, w) by {
                let j = choose|j: int| 0 <= j < mid.len() && #[trigger] mid[j].0.key() == k2 && mid[j].1 == w;
                assert(mid[j] == n[j]);
            }
            assert forall|k2: K::Value| k2 != kk && self.contains(k2) implies has_key(mid, k2) by {
                let j = choose|j: int| 0 <= j < n.len() && #[trigger] n[j].0.key() == k2;
                assert(mid[j] == n[j]);
            }
            assert forall|k2: K::Value| k2 != kk && has_key(mid, k2) implies self.contains(k2) by {
                let j = choose|j: int| 0 <= j < mid.len() && #[trigger] mid[j].0.key() == k2;
                assert(mid[j] == n[j]);
            }
        }
    }
}

/// In a table without two entries under one key, the value under a key is the one it holds.
pub proof fn lemma_value_of<K: TableKey, V>(t: Table<K, V>, k: K::Value, v: V)
    requires
        t.wf(),
        t.maps(k, v),
    ensures
        t.value_of(k) == v,
{
    let w = t.value_of(k);
    let i = choose|i: int| 0 <= i < t@.len() && #[trigger] t@[i].0.key() == k && t@[i].1 == v;
    let j = choose|j: int| 0 <= j < t@.len() && #[trigger] t@[j].0.key() == k && t@[j].1 == w;
    if i < j {
        assert(t@[i].0.key() != t@[j].0.key());
    } else if j < i {
        assert(t@[j].0.key() != t@[i].0.key());
    }
}

/// A key present in a table has some value under it.
pub proof fn lemma_contains_maps<K: TableKey, V>(t: Table<K, V>, k: K::Value)
    requires
        t.contains(k),
    ensures
        t.maps(k, t.value_of(k)),
{
    let i = choose|i: int| 0 <= i < t@.len() && #[trigger] t@[i].0.key() == k;
    assert(t.maps(k, t@[i].1));
}

/// Whether `s` holds `v` under the key value `k`.
pub open spec fn has_pair<K: TableKey, V>(s: Seq<(K, V)>, k: K::Value, v: V) -> bool {
    exists|i: int| 0 <= i < s.len() && #[trigger] s[i].0.key() == k && s[i].1 == v
}

} // verus!
