//! A small map from numeric ids to values that can be walked by index.

use vstd::prelude::*;

verus! {

/// Some entry has the key `k`.
pub open spec fn has_key<V>(s: Seq<(u64, V)>, k: u64) -> bool {
    exists|i: int| 0 <= i < s.len() && (#[trigger] s[i]).0 == k
}

/// The index of an entry with the key `k`.
pub open spec fn index_of<V>(s: Seq<(u64, V)>, k: u64) -> int {
    choose|i: int| 0 <= i < s.len() && (#[trigger] s[i]).0 == k
}

/// No two entries have the same key.
pub open spec fn distinct<V>(s: Seq<(u64, V)>) -> bool {
    forall|i: int, j: int| 0 <= i < j < s.len() ==> (#[trigger] s[i]).0 != (#[trigger] s[j]).0
}

/// What entries map each key to.
pub open spec fn to_map<V>(s: Seq<(u64, V)>) -> Map<u64, V> {
    Map::new(|k: u64| has_key(s, k), |k: u64| s[index_of(s, k)].1)
}

/// The entry at an index is what its key maps to.
pub proof fn lemma_entry<V>(s: Seq<(u64, V)>, i: int)
    requires
        distinct(s),
        0 <= i < s.len(),
    ensures
        to_map(s).contains_key(s[i].0),
        to_map(s)[s[i].0] == s[i].1,
        index_of(s, s[i].0) == i,
{
    let k = s[i].0;
    assert(has_key(s, k));
    let j = index_of(s, k);
    assert(0 <= j < s.len() && s[j].0 == k);
    if i < j {
        assert(s[i].0 != s[j].0);
    } else if j < i {
        assert(s[j].0 != s[i].0);
    }
}

/// A map from ids to values.
#[derive(Debug)]
pub struct Table<V> {
    entries: Vec<(u64, V)>,
}

impl<V> View for Table<V> {
    type V = Map<u64, V>;

    open spec fn view(&self) -> Map<u64, V> {
        to_map(self.seq())
    }
}

impl<V> Table<V> {
    /// The entries in the order in which they are kept.
    pub closed spec fn seq(&self) -> Seq<(u64, V)> {
        self.entries@
    }

    /// Every key occurs once.
    pub open spec fn wf(&self) -> bool {
        distinct(self.seq())
    }

    /// An empty table.
    pub fn new() -> (r: Self)
        ensures
            r.wf(),
            r.seq() == Seq::<(u64, V)>::empty(),
            r@ == Map::<u64, V>::empty(),
    {
        let r: Table<V> = Table { entries: Vec::new() };
        assert(r@ =~= Map::empty());
        r
    }

    /// How many entries there are.
    pub fn len(&self) -> (r: usize)
        ensures
            r == self.seq().len(),
    {
        self.entries.len()
    }

    /// The key of the entry at an index.
    pub fn key_at(&self, i: usize) -> (r: u64)
        requires
            i < self.seq().len(),
        ensures
            r == self.seq()[i as int].0,
    {
        self.entries[i].0
    }

    /// The value of the entry at an index.
    pub fn value_at(&self, i: usize) -> (r: &V)
        requires
            i < self.seq().len(),
        ensures
            *r == self.seq()[i as int].1,
    {
        &self.entries[i].1
    }

    /// The index of the entry for `k`, if there is one.
    pub fn find(&self, k: u64) -> (r: Option<usize>)
        requires
            self.wf(),
        ensures
            match r {
                Some(i) => i < self.seq().len() && self.seq()[i as int].0 == k
                    && self@.contains_key(k) && self@[k] == self.seq()[i as int].1,
                None => !self@.contains_key(k) && forall|i: int|
                    0 <= i < self.seq().len() ==> (#[trigger] self.seq()[i]).0 != k,
            },
    {
        for i in 0..self.entries.len()
            invariant
                self.wf(),
                forall|j: int| 0 <= j < i ==> (#[trigger] self.seq()[j]).0 != k,
        {
            assert(self.seq()[i as int] == self.entries@[i as int]);
            if self.entries[i].0 == k {
                proof {
                    lemma_entry(self.seq(), i as int);
                }
                return Some(i);
            }
        }
        None
    }

    /// Whether `k` is mapped.
    pub fn contains_key(&self, k: u64) -> (r: bool)
        requires
            self.wf(),
        ensures
            r == self@.contains_key(k),
    {
        self.find(k).is_some()
    }

    /// What `k` is mapped to.
    pub fn get(&self, k: u64) -> (r: Option<&V>)
        requires
            self.wf(),
        ensures
            match r {
                Some(v) => self@.contains_key(k) && *v == self@[k],
                None => !self@.contains_key(k),
            },
    {
        match self.find(k) {
            Some(i) => Some(&self.entries[i].1),
            None => None,
        }
    }

    /// Map `k` to `v`, in place of what it was mapped to.
    pub fn insert(&mut self, k: u64, v: V)
        requires
            old(self).wf(),
        ensures
            final(self).wf(),
            final(self)@ == old(self)@.insert(k, v),
    {
        let ghost before = self.seq();
        match self.find(k) {
            Some(i) => {
                self.entries.set(i, (k, v));
                proof {
                    lemma_update(before, i as int, v);
                }
            },
            None => {
                self.entries.push((k, v));
                proof {
                    lemma_push(before, k, v);
                }
            },
        }
    }

    /// Drop the entry for `k` and return its value.
    pub fn remove(&mut self, k: u64) -> (r: Option<V>)
        requires
            old(self).wf(),
        ensures
            final(self).wf(),
            final(self)@ == old(self)@.remove(k),
            final(self).seq() == if old(self)@.contains_key(k) {
                old(self).seq().remove(index_of(old(self).seq(), k))
            } else {
                old(self).seq()
            },
            r == if old(self)@.contains_key(k) {
                Some(old(self)@[k])
            } else {
                None
            },
    {
        let ghost before = self.seq();
        match self.find(k) {
            Some(i) => {
                let entry = self.entries.remove(i);
                proof {
                    lemma_remove(before, i as int);
                    lemma_entry(before, i as int);
                }
                Some(entry.1)
            },
            None => {
                assert(self@ =~= self@.remove(k));
                None
            },
        }
    }

    /// Take all entries out.
    pub fn take(&mut self) -> (r: Vec<(u64, V)>)
        requires
            old(self).wf(),
        ensures
            distinct(r@),
            to_map(r@) == old(self)@,
            final(self).wf(),
            final(self)@ == Map::<u64, V>::empty(),
    {
        let mut out: Vec<(u64, V)> = Vec::new();
        out.append(&mut self.entries);
        assert(self@ =~= Map::empty());
        assert(out@ =~= old(self).seq());
        out
    }
}

/// Replacing a value maps its key to the new value.
proof fn lemma_update<V>(s: Seq<(u64, V)>, i: int, v: V)
    requires
        distinct(s),
        0 <= i < s.len(),
    ensures
        distinct(s.update(i, (s[i].0, v))),
        to_map(s.update(i, (s[i].0, v))) == to_map(s).insert(s[i].0, v),
{
    let t = s.update(i, (s[i].0, v));
    assert forall|a: int, b: int| 0 <= a < b < t.len() implies (#[trigger] t[a]).0
        != (#[trigger] t[b]).0 by {
        assert(t[a].0 == s[a].0 && t[b].0 == s[b].0);
    }
    assert forall|k: u64| to_map(t).contains_key(k) == to_map(s).insert(
        s[i].0,
        v,
    ).contains_key(k) by {
        if has_key(t, k) {
            let j = index_of(t, k);
            assert(s[j].0 == k);
        }
        if has_key(s, k) {
            let j = index_of(s, k);
            assert(t[j].0 == k);
        }
        assert(t[i].0 == s[i].0);
    }
    assert forall|k: u64| to_map(t).contains_key(k) implies to_map(t)[k] == to_map(s).insert(
        s[i].0,
        v,
    )[k] by {
        let j = index_of(t, k);
        lemma_entry(t, j);
        assert(s[j].0 == t[j].0);
        lemma_entry(s, j);
        lemma_entry(t, i);
    }
    assert(to_map(t) =~= to_map(s).insert(s[i].0, v));
}

/// A new entry maps its key and changes nothing else.
proof fn lemma_push<V>(s: Seq<(u64, V)>, k: u64, v: V)
    requires
        distinct(s),
        forall|i: int| 0 <= i < s.len() ==> (#[trigger] s[i]).0 != k,
    ensures
        distinct(s.push((k, v))),
        to_map(s.push((k, v))) == to_map(s).insert(k, v),
{
    let t = s.push((k, v));
    assert forall|a: int, b: int| 0 <= a < b < t.len() implies (#[trigger] t[a]).0
        != (#[trigger] t[b]).0 by {
        assert(t[a] == s[a]);
        if b < s.len() {
            assert(t[b] == s[b]);
        }
    }
    assert forall|q: u64| to_map(t).contains_key(q) == to_map(s).insert(k, v).contains_key(q) by {
        if has_key(t, q) {
            let j = index_of(t, q);
            if j < s.len() {
                assert(s[j].0 == q);
            }
        }
        if has_key(s, q) {
            let j = index_of(s, q);
            assert(t[j].0 == q);
        }
        assert(t[s.len() as int].0 == k);
    }
    assert forall|q: u64| to_map(t).contains_key(q) implies to_map(t)[q] == to_map(s).insert(
        k,
        v,
    )[q] by {
        let j = index_of(t, q);
        lemma_entry(t, j);
        if j < s.len() {
            lemma_entry(s, j);
        }
    }
    assert(to_map(t) =~= to_map(s).insert(k, v));
}

/// Dropping an entry drops its key and changes nothing else.
proof fn lemma_remove<V>(s: Seq<(u64, V)>, i: int)
    requires
        distinct(s),
        0 <= i < s.len(),
    ensures
        distinct(s.remove(i)),
        to_map(s.remove(i)) == to_map(s).remove(s[i].0),
{
    let t = s.remove(i);
    let back = |j: int| if j < i { j } else { j + 1 };
    assert forall|a: int, b: int| 0 <= a < b < t.len() implies (#[trigger] t[a]).0
        != (#[trigger] t[b]).0 by {
        assert(t[a] == s[back(a)] && t[b] == s[back(b)]);
    }
    assert forall|q: u64| to_map(t).contains_key(q) == to_map(s).remove(s[i].0).contains_key(
        q,
    ) by {
        if has_key(t, q) {
            let j = index_of(t, q);
            assert(t[j] == s[back(j)]);
            assert(has_key(s, q));
        }
        if has_key(s, q) && q != s[i].0 {
            let j = index_of(s, q);
            if j < i {
                assert(t[j].0 == q);
            } else {
                assert(t[j - 1].0 == q);
            }
        }
    }
    assert forall|q: u64| to_map(t).contains_key(q) implies to_map(t)[q] == to_map(s).remove(
        s[i].0,
    )[q] by {
        let j = index_of(t, q);
        lemma_entry(t, j);
        assert(t[j] == s[back(j)]);
        lemma_entry(s, back(j));
    }
    assert(to_map(t) =~= to_map(s).remove(s[i].0));
}

} // verus!
