//! Small association maps with unique keys, backed by a vector of pairs.
//! The world keeps one per shared structure: the session registry and the
//! player-to-cell index (keyed by player id) and the sparse grid (keyed by
//! cell). A vector keeps iteration order deterministic, which the fan-out
//! contracts rely on.

use vstd::prelude::*;
use crate::cell::CellId;

verus! {

/// The map an association list denotes: later entries shadow earlier ones,
/// though a well-formed list never has two entries with one key.
pub open spec fn assoc_view<K, V>(s: Seq<(K, V)>) -> Map<K, V>
    decreases s.len(),
{
    if s.len() == 0 {
        Map::empty()
    } else {
        assoc_view(s.drop_last()).insert(s.last().0, s.last().1)
    }
}

/// No two entries share a key.
pub open spec fn keys_distinct<K, V>(s: Seq<(K, V)>) -> bool {
    forall|i: int, j: int| 0 <= i < j < s.len() ==> s[i].0 != s[j].0
}

pub proof fn lemma_assoc_contains<K, V>(s: Seq<(K, V)>, k: K)
    ensures
        assoc_view(s).dom().contains(k) <==> (exists|i: int| 0 <= i < s.len() && s[i].0 == k),
    decreases s.len(),
{
    if s.len() > 0 {
        lemma_assoc_contains(s.drop_last(), k);
        if s.last().0 == k {
            assert(0 <= s.len() - 1 < s.len() && s[s.len() - 1].0 == k);
        } else if assoc_view(s).dom().contains(k) {
            let i = choose|i: int| 0 <= i < s.drop_last().len() && s.drop_last()[i].0 == k;
            assert(0 <= i < s.len() && s[i].0 == k);
        } else {
            assert forall|i: int| 0 <= i < s.len() implies s[i].0 != k by {
                if i < s.len() - 1 {
                    assert(s.drop_last()[i].0 != k);
                }
            }
        }
    }
}

pub proof fn lemma_assoc_index<K, V>(s: Seq<(K, V)>, i: int)
    requires
        keys_distinct(s),
        0 <= i < s.len(),
    ensures
        assoc_view(s).dom().contains(s[i].0),
        assoc_view(s)[s[i].0] == s[i].1,
    decreases s.len(),
{
    if i < s.len() - 1 {
        assert(s.drop_last()[i] == s[i]);
        lemma_assoc_index(s.drop_last(), i);
    }
}

pub proof fn lemma_assoc_push<K, V>(s: Seq<(K, V)>, k: K, v: V)
    ensures
        assoc_view(s.push((k, v))) == assoc_view(s).insert(k, v),
{
    assert(s.push((k, v)).drop_last() =~= s);
}

pub proof fn lemma_assoc_remove_at<K, V>(s: Seq<(K, V)>, i: int)
    requires
        keys_distinct(s),
        0 <= i < s.len(),
    ensures
        assoc_view(s.remove(i)) == assoc_view(s).remove(s[i].0),
        keys_distinct(s.remove(i)),
    decreases s.len(),
{
    let k = s[i].0;
    assert forall|a: int, b: int| 0 <= a < b < s.remove(i).len() implies
        s.remove(i)[a].0 != s.remove(i)[b].0 by {
        let a0 = if a < i { a } else { a + 1 };
        let b0 = if b < i { b } else { b + 1 };
        assert(s.remove(i)[a] == s[a0] && s.remove(i)[b] == s[b0]);
    }
    if i == s.len() - 1 {
        assert(s.remove(i) =~= s.drop_last());
        lemma_assoc_contains(s.drop_last(), k);
        assert forall|j: int| 0 <= j < s.drop_last().len() implies s.drop_last()[j].0 != k by {
            assert(s.drop_last()[j] == s[j]);
        }
        assert(!assoc_view(s.drop_last()).dom().contains(k));
        assert(assoc_view(s).remove(k) =~= assoc_view(s.drop_last()));
    } else {
        let t = s.drop_last();
        assert(t[i] == s[i]);
        lemma_assoc_remove_at(t, i);
        assert(s.remove(i).drop_last() =~= t.remove(i));
        assert(s.remove(i).last() == s.last());
        assert(assoc_view(s.remove(i)) == assoc_view(t.remove(i)).insert(s.last().0, s.last().1));
        assert(assoc_view(s).remove(k) =~=
            assoc_view(t).remove(k).insert(s.last().0, s.last().1));
    }
}

/// Association map with `i32` keys (player ids).
pub struct VecMap<V> {
    pub entries: Vec<(i32, V)>,
}

impl<V> View for VecMap<V> {
    type V = Map<i32, V>;

    open spec fn view(&self) -> Map<i32, V> {
        assoc_view(self.entries@)
    }
}

impl<V> VecMap<V> {
    /// The underlying entry sequence, for contracts about iteration order.
    pub open spec fn seq(&self) -> Seq<(i32, V)> {
        self.entries@
    }

    /// Well-formed: one entry per key.
    pub open spec fn wf(&self) -> bool {
        keys_distinct(self.entries@)
    }

    pub fn new() -> (m: VecMap<V>)
        ensures
            m.wf(),
            m@ == Map::<i32, V>::empty(),
            m.seq() == Seq::<(i32, V)>::empty(),
    {
        VecMap { entries: Vec::new() }
    }

    pub fn len(&self) -> (n: usize)
        ensures
            n == self.seq().len(),
    {
        self.entries.len()
    }

    /// Entry at a position, for iteration.
    pub fn pair_at(&self, i: usize) -> (r: &(i32, V))
        requires
            i < self.seq().len(),
        ensures
            *r == self.seq()[i as int],
            self.wf() ==> self@.dom().contains(r.0) && self@[r.0] == r.1,
    {
        proof {
            if self.wf() {
                lemma_assoc_index(self.entries@, i as int);
            }
        }
        &self.entries[i]
    }

    fn position_of(&self, k: i32) -> (r: Option<usize>)
        ensures
            match r {
                Some(i) => {
                    &&& i < self.seq().len()
                    &&& self.seq()[i as int].0 == k
                    &&& self@.dom().contains(k)
                    &&& self.wf() ==> self@[k] == self.seq()[i as int].1
                }
                None => !self@.dom().contains(k),
            },
    {
        let n = self.entries.len();
        let mut i: usize = 0;
        while i < n
            invariant
                i <= n,
                n == self.seq().len(),
                forall|j: int| 0 <= j < i ==> self.seq()[j].0 != k,
            decreases n - i,
        {
            if self.entries[i].0 == k {
                proof {
                    lemma_assoc_contains(self.entries@, k);
                    if self.wf() {
                        lemma_assoc_index(self.entries@, i as int);
                    }
                }
                return Some(i);
            }
            i = i + 1;
        }
        proof {
            lemma_assoc_contains(self.entries@, k);
        }
        None
    }

    pub fn contains_key(&self, k: i32) -> (r: bool)
        ensures
            r == self@.dom().contains(k),
    {
        self.position_of(k).is_some()
    }

    pub fn get(&self, k: i32) -> (r: Option<&V>)
        requires
            self.wf(),
        ensures
            match r {
                Some(v) => self@.dom().contains(k) && self@[k] == *v,
                None => !self@.dom().contains(k),
            },
    {
        match self.position_of(k) {
            Some(i) => Some(&self.entries[i].1),
            None => None,
        }
    }

    pub fn remove(&mut self, k: i32) -> (r: Option<V>)
        requires
            old(self).wf(),
        ensures
            final(self).wf(),
            final(self)@ == old(self)@.remove(k),
            match r {
                Some(v) => {
                    &&& old(self)@.dom().contains(k)
                    &&& old(self)@[k] == v
                    &&& final(self).seq().len() == old(self).seq().len() - 1
                }
                None => {
                    &&& !old(self)@.dom().contains(k)
                    &&& *final(self) == *old(self)
                }
            },
    {
        match self.position_of(k) {
            Some(i) => {
                proof {
                    lemma_assoc_remove_at(self.entries@, i as int);
                }
                let (_, v) = self.entries.remove(i);
                Some(v)
            }
            None => {
                proof {
                    assert(old(self)@.remove(k) =~= old(self)@);
                }
                None
            }
        }
    }

    pub fn insert(&mut self, k: i32, v: V)
        requires
            old(self).wf(),
        ensures
            final(self).wf(),
            final(self)@ == old(self)@.insert(k, v),
            final(self).seq().len() == old(self).seq().len()
                + (if old(self)@.dom().contains(k) { 0int } else { 1int }),
    {
        self.remove(k);
        proof {
            lemma_assoc_push(self.entries@, k, v);
            lemma_assoc_contains(self.entries@, k);
            assert forall|a: int, b: int| 0 <= a < b < self.entries@.push((k, v)).len() implies
                self.entries@.push((k, v))[a].0 != self.entries@.push((k, v))[b].0 by {
                if b < self.entries@.len() {
                    assert(self.entries@.push((k, v))[a] == self.entries@[a]);
                    assert(self.entries@.push((k, v))[b] == self.entries@[b]);
                } else {
                    assert(self.entries@.push((k, v))[a] == self.entries@[a]);
                    lemma_assoc_index(self.entries@, a);
                }
            }
            assert(old(self)@.remove(k).insert(k, v) =~= old(self)@.insert(k, v));
        }
        self.entries.push((k, v));
    }
}


/// Association map with cell keys: the sparse grid itself.
pub struct CellMap<V> {
    pub entries: Vec<(CellId, V)>,
}

impl<V> View for CellMap<V> {
    type V = Map<CellId, V>;

    open spec fn view(&self) -> Map<CellId, V> {
        assoc_view(self.entries@)
    }
}

impl<V> CellMap<V> {
    /// The underlying entry sequence, for contracts about iteration order.
    pub open spec fn seq(&self) -> Seq<(CellId, V)> {
        self.entries@
    }

    /// Well-formed: one entry per key.
    pub open spec fn wf(&self) -> bool {
        keys_distinct(self.entries@)
    }

    pub fn new() -> (m: CellMap<V>)
        ensures
            m.wf(),
            m@ == Map::<CellId, V>::empty(),
            m.seq() == Seq::<(CellId, V)>::empty(),
    {
        CellMap { entries: Vec::new() }
    }

    pub fn len(&self) -> (n: usize)
        ensures
            n == self.seq().len(),
    {
        self.entries.len()
    }

    /// Entry at a position, for iteration.
    pub fn pair_at(&self, i: usize) -> (r: &(CellId, V))
        requires
            i < self.seq().len(),
        ensures
            *r == self.seq()[i as int],
            self.wf() ==> self@.dom().contains(r.0) && self@[r.0] == r.1,
    {
        proof {
            if self.wf() {
                lemma_assoc_index(self.entries@, i as int);
            }
        }
        &self.entries[i]
    }

    fn position_of(&self, k: CellId) -> (r: Option<usize>)
        ensures
            match r {
                Some(i) => {
                    &&& i < self.seq().len()
                    &&& self.seq()[i as int].0 == k
                    &&& self@.dom().contains(k)
                    &&& self.wf() ==> self@[k] == self.seq()[i as int].1
                }
                None => !self@.dom().contains(k),
            },
    {
        let n = self.entries.len();
        let mut i: usize = 0;
        while i < n
            invariant
                i <= n,
                n == self.seq().len(),
                forall|j: int| 0 <= j < i ==> self.seq()[j].0 != k,
            decreases n - i,
        {
            if self.entries[i].0 == k {
                proof {
                    lemma_assoc_contains(self.entries@, k);
                    if self.wf() {
                        lemma_assoc_index(self.entries@, i as int);
                    }
                }
                return Some(i);
            }
            i = i + 1;
        }
        proof {
            lemma_assoc_contains(self.entries@, k);
        }
        None
    }

    pub fn contains_key(&self, k: CellId) -> (r: bool)
        ensures
            r == self@.dom().contains(k),
    {
        self.position_of(k).is_some()
    }

    pub fn get(&self, k: CellId) -> (r: Option<&V>)
        requires
            self.wf(),
        ensures
            match r {
                Some(v) => self@.dom().contains(k) && self@[k] == *v,
                None => !self@.dom().contains(k),
            },
    {
        match self.position_of(k) {
            Some(i) => Some(&self.entries[i].1),
            None => None,
        }
    }

    pub fn remove(&mut self, k: CellId) -> (r: Option<V>)
        requires
            old(self).wf(),
        ensures
            final(self).wf(),
            final(self)@ == old(self)@.remove(k),
            match r {
                Some(v) => {
                    &&& old(self)@.dom().contains(k)
                    &&& old(self)@[k] == v
                    &&& final(self).seq().len() == old(self).seq().len() - 1
                }
                None => {
                    &&& !old(self)@.dom().contains(k)
                    &&& *final(self) == *old(self)
                }
            },
    {
        match self.position_of(k) {
            Some(i) => {
                proof {
                    lemma_assoc_remove_at(self.entries@, i as int);
                }
                let (_, v) = self.entries.remove(i);
                Some(v)
            }
            None => {
                proof {
                    assert(old(self)@.remove(k) =~= old(self)@);
                }
                None
            }
        }
    }

    pub fn insert(&mut self, k: CellId, v: V)
        requires
            old(self).wf(),
        ensures
            final(self).wf(),
            final(self)@ == old(self)@.insert(k, v),
            final(self).seq().len() == old(self).seq().len()
                + (if old(self)@.dom().contains(k) { 0int } else { 1int }),
    {
        self.remove(k);
        proof {
            lemma_assoc_push(self.entries@, k, v);
            lemma_assoc_contains(self.entries@, k);
            assert forall|a: int, b: int| 0 <= a < b < self.entries@.push((k, v)).len() implies
                self.entries@.push((k, v))[a].0 != self.entries@.push((k, v))[b].0 by {
                if b < self.entries@.len() {
                    assert(self.entries@.push((k, v))[a] == self.entries@[a]);
                    assert(self.entries@.push((k, v))[b] == self.entries@[b]);
                } else {
                    assert(self.entries@.push((k, v))[a] == self.entries@[a]);
                    lemma_assoc_index(self.entries@, a);
                }
            }
            assert(old(self)@.remove(k).insert(k, v) =~= old(self)@.insert(k, v));
        }
        self.entries.push((k, v));
    }
}

} // verus!

