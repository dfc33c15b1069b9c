use vstd::prelude::*;

verus! {

/// Identifies a live connection.
pub type Con = u16;

/// A map keyed by connection, held as entries in strictly increasing key order, so that
/// walking it visits connections in ascending order.
#[derive(Debug)]
pub struct ConMap<T> {
    pub entries: Vec<(Con, T)>,
}

impl<T> ConMap<T> {
    pub open spec fn wf(&self) -> bool {
        forall|i: int, j: int|
            0 <= i < j < self.entries@.len() ==> (#[trigger] self.entries@[i]).0 < (
            #[trigger] self.entries@[j]).0
    }

    pub open spec fn has(&self, k: Con) -> bool {
        exists|i: int| 0 <= i < self.entries@.len() && (#[trigger] self.entries@[i]).0 == k
    }

    pub open spec fn index_of(&self, k: Con) -> int {
        choose|i: int| 0 <= i < self.entries@.len() && (#[trigger] self.entries@[i]).0 == k
    }

    /// The keys, in order.
    pub open spec fn key_seq(&self) -> Seq<Con> {
        self.entries@.map_values(|e: (Con, T)| e.0)
    }

    pub proof fn lemma_index(&self, i: int)
        requires
            self.wf(),
            0 <= i < self.entries@.len(),
        ensures
            self@.contains_key(self.entries@[i].0),
            self@[self.entries@[i].0] == self.entries@[i].1,
            self.index_of(self.entries@[i].0) == i,
    {
        let k = self.entries@[i].0;
        assert(self.has(k));
        let j = self.index_of(k);
        if j < i {
            assert(self.entries@[j].0 < self.entries@[i].0);
        } else if j > i {
            assert(self.entries@[i].0 < self.entries@[j].0);
        }
    }

    proof fn lemma_key_at_least(&self, i: int)
        requires
            self.wf(),
            0 <= i < self.entries@.len(),
        ensures
            self.entries@[i].0 >= i,
        decreases i,
    {
        if i > 0 {
            self.lemma_key_at_least(i - 1);
            assert(self.entries@[i - 1].0 < self.entries@[i].0);
        }
    }

    /// Keys are distinct `u16`s, so there are at most 65536 of them.
    pub proof fn lemma_len_bound(&self)
        requires
            self.wf(),
        ensures
            self.entries@.len() <= 0x10000,
    {
        if self.entries@.len() > 0x10000 {
            self.lemma_key_at_least(0x10000);
        }
    }

    pub proof fn lemma_dom(&self)
        requires
            self.wf(),
        ensures
            self@.dom() == self.key_seq().to_set(),
            self.key_seq().no_duplicates(),
            self@.dom().finite(),
            self@.dom().len() == self.entries@.len(),
    {
        assert(self@.dom() =~= self.key_seq().to_set()) by {
            assert forall|k: Con| self@.dom().contains(k) implies self.key_seq().to_set().contains(k) by {
                let i = self.index_of(k);
                assert(self.key_seq()[i] == k);
            }
            assert forall|k: Con| self.key_seq().to_set().contains(k) implies self@.dom().contains(k) by {
                let i = choose|i: int| 0 <= i < self.key_seq().len() && self.key_seq()[i] == k;
                assert(self.entries@[i].0 == k);
            }
        }
        assert(self.key_seq().no_duplicates()) by {
            assert forall|i: int, j: int|
                0 <= i < self.key_seq().len() && 0 <= j < self.key_seq().len() && i != j implies
                self.key_seq()[i] != self.key_seq()[j] by {
                if i < j {
                    assert(self.entries@[i].0 < self.entries@[j].0);
                } else {
                    assert(self.entries@[j].0 < self.entries@[i].0);
                }
            }
        }
        self.key_seq().unique_seq_to_set();
    }

    pub fn new() -> (r: ConMap<T>)
        ensures
            r.wf(),
            r@ == Map::<Con, T>::empty(),
    {
        let r = ConMap { entries: Vec::new() };
        assert(r@ =~= Map::<Con, T>::empty());
        r
    }

    pub fn len(&self) -> (r: usize)
        requires
            self.wf(),
        ensures
            r == self@.len(),
            r == self.entries@.len(),
    {
        proof {
            self.lemma_dom();
        }
        self.entries.len()
    }

    pub fn is_empty(&self) -> (r: bool)
        requires
            self.wf(),
        ensures
            r == (self@.len() == 0),
            r == (self@.dom() == Set::<Con>::empty()),
    {
        proof {
            self.lemma_dom();
            if self.entries@.len() > 0 {
                self.lemma_index(0);
                assert(self@.dom().contains(self.entries@[0].0));
            } else {
                assert(self@.dom() =~= Set::<Con>::empty());
            }
        }
        self.entries.len() == 0
    }

    /// Where `k` stands, or where it would be inserted.
    fn find(&self, k: Con) -> (r: Result<usize, usize>)
        requires
            self.wf(),
        ensures
            r matches Ok(i) ==> i < self.entries@.len() && self.entries@[i as int].0 == k,
            r matches Err(i) ==> i <= self.entries@.len() && (forall|j: int|
                0 <= j < i ==> (#[trigger] self.entries@[j]).0 < k) && (forall|j: int|
                i <= j < self.entries@.len() ==> (#[trigger] self.entries@[j]).0 > k),
            r is Err ==> !self@.contains_key(k),
    {
        let mut i: usize = 0;
        while i < self.entries.len()
            invariant
                self.wf(),
                i <= self.entries@.len(),
                forall|j: int| 0 <= j < i ==> (#[trigger] self.entries@[j]).0 < k,
            decreases self.entries@.len() - i,
        {
            let e = self.entries[i].0;
            if e == k {
                return Ok(i);
            }
            if e > k {
                assert forall|j: int| i <= j < self.entries@.len() implies (
                #[trigger] self.entries@[j]).0 > k by {
                    if j > i {
                        assert(self.entries@[i as int].0 < self.entries@[j].0);
                    }
                }
                assert(!self.has(k)) by {
                    if self.has(k) {
                        let j = self.index_of(k);
                        if j < i {
                            assert(self.entries@[j].0 < k);
                        } else {
                            assert(self.entries@[j].0 > k);
                        }
                    }
                }
                return Err(i);
            }
            i = i + 1;
        }
        assert(!self.has(k)) by {
            if self.has(k) {
                let j = self.index_of(k);
                assert(self.entries@[j].0 < k);
            }
        }
        Err(i)
    }

    /// Where `k` stands among the entries, if present.
    pub fn position(&self, k: Con) -> (r: Option<usize>)
        requires
            self.wf(),
        ensures
            r is Some == self@.contains_key(k),
            r matches Some(i) ==> i < self.entries@.len() && self.entries@[i as int].0 == k
                && self.index_of(k) == i,
    {
        match self.find(k) {
            Ok(i) => {
                proof {
                    self.lemma_index(i as int);
                }
                Some(i)
            },
            Err(_) => None,
        }
    }

    pub fn contains_key(&self, k: Con) -> (r: bool)
        requires
            self.wf(),
        ensures
            r == self@.contains_key(k),
    {
        match self.find(k) {
            Ok(i) => {
                proof {
                    self.lemma_index(i as int);
                }
                true
            },
            Err(_) => false,
        }
    }

    pub fn get(&self, k: Con) -> (r: Option<&T>)
        requires
            self.wf(),
        ensures
            r is Some == self@.contains_key(k),
            r matches Some(v) ==> *v == self@[k],
    {
        match self.find(k) {
            Ok(i) => {
                proof {
                    self.lemma_index(i as int);
                }
                Some(&self.entries[i].1)
            },
            Err(_) => None,
        }
    }

    pub fn insert(&mut self, k: Con, v: T)
        requires
            old(self).wf(),
        ensures
            final(self).wf(),
            final(self)@ == old(self)@.insert(k, v),
    {
        let ghost o = self.entries@;
        let ghost om = old(self)@;
        match self.find(k) {
            Ok(i) => {
                self.entries.set(i, (k, v));
                let ghost n = self.entries@;
                assert(self.wf()) by {
                    assert forall|a: int, b: int| 0 <= a < b < n.len() implies (
                    #[trigger] n[a]).0 < (#[trigger] n[b]).0 by {
                        assert(o[a].0 < o[b].0);
                    }
                }
                assert(self@ =~= om.insert(k, v)) by {
                    assert forall|q: Con| #[trigger] self@.contains_key(q) <==> om.insert(k, v).contains_key(q) by {
                        if self@.contains_key(q) {
                            let j = self.index_of(q);
                            if j != i {
                                old(self).lemma_index(j);
                            }
                        }
                        if om.contains_key(q) {
                            let j = old(self).index_of(q);
                            assert(n[j].0 == q);
                        }
                        if q == k {
                            assert(n[i as int].0 == q);
                        }
                    }
                    assert forall|q: Con| #[trigger] self@.contains_key(q) implies self@[q] == om.insert(k, v)[q] by {
                        let j = self.index_of(q);
                        self.lemma_index(j);
                        if j != i {
                            old(self).lemma_index(j);
                        }
                    }
                }
            },
            Err(i) => {
                self.entries.insert(i, (k, v));
                let ghost n = self.entries@;
                assert(forall|a: int| 0 <= a < i ==> n[a] == o[a]);
                assert(forall|a: int| i < a < n.len() ==> n[a] == o[a - 1]);
                assert(self.wf()) by {
                    assert forall|a: int, b: int| 0 <= a < b < n.len() implies (
                    #[trigger] n[a]).0 < (#[trigger] n[b]).0 by {
                        if a < i && b < i {
                            assert(o[a].0 < o[b].0);
                        } else if a < i && b == i {
                            assert(o[a].0 < k);
                        } else if a < i {
                            assert(o[a].0 < o[b - 1].0);
                        } else if a == i {
                            assert(o[b - 1].0 > k);
                        } else {
                            assert(o[a - 1].0 < o[b - 1].0);
                        }
                    }
                }
                assert(self@ =~= om.insert(k, v)) by {
                    assert forall|q: Con| #[trigger] self@.contains_key(q) <==> om.insert(k, v).contains_key(q) by {
                        if self@.contains_key(q) {
                            let j = self.index_of(q);
                            if j < i {
                                old(self).lemma_index(j);
                            } else if j > i {
                                old(self).lemma_index(j - 1);
                            }
                        }
                        if om.contains_key(q) {
                            let j = old(self).index_of(q);
                            if j < i {
                                assert(n[j].0 == q);
                            } else {
                                assert(n[j + 1].0 == q);
                            }
                        }
                        if q == k {
                            assert(n[i as int].0 == q);
                        }
                    }
                    assert forall|q: Con| #[trigger] self@.contains_key(q) implies self@[q] == om.insert(k, v)[q] by {
                        let j = self.index_of(q);
                        self.lemma_index(j);
                        if j < i {
                            old(self).lemma_index(j);
                        } else if j > i {
                            old(self).lemma_index(j - 1);
                        }
                    }
                }
            },
        }
    }

    pub fn remove(&mut self, k: Con) -> (r: Option<T>)
        requires
            old(self).wf(),
        ensures
            final(self).wf(),
            final(self)@ == old(self)@.remove(k),
            r is Some == old(self)@.contains_key(k),
            r matches Some(v) ==> v == old(self)@[k],
    {
        let ghost o = self.entries@;
        let ghost om = old(self)@;
        match self.find(k) {
            Ok(i) => {
                proof {
                    old(self).lemma_index(i as int);
                }
                let e = self.entries.remove(i);
                let ghost n = self.entries@;
                assert(forall|a: int| 0 <= a < i ==> n[a] == o[a]);
                assert(forall|a: int| i <= a < n.len() ==> n[a] == o[a + 1]);
                assert(self.wf()) by {
                    assert forall|a: int, b: int| 0 <= a < b < n.len() implies (
                    #[trigger] n[a]).0 < (#[trigger] n[b]).0 by {
                        if b < i {
                            assert(o[a].0 < o[b].0);
                        } else if a < i {
                            assert(o[a].0 < o[b + 1].0);
                        } else {
                            assert(o[a + 1].0 < o[b + 1].0);
                        }
                    }
                }
                assert(self@ =~= om.remove(k)) by {
                    assert forall|q: Con| #[trigger] self@.contains_key(q) <==> om.remove(k).contains_key(q) by {
                        if self@.contains_key(q) {
                            let j = self.index_of(q);
                            if j < i {
                                old(self).lemma_index(j);
                                assert(o[j].0 < o[i as int].0);
                            } else {
                                old(self).lemma_index(j + 1);
                                assert(o[i as int].0 < o[j + 1].0);
                            }
                        }
                        if om.remove(k).contains_key(q) {
                            let j = old(self).index_of(q);
                            if j < i {
                                assert(n[j].0 == q);
                            } else {
                                assert(j != i);
                                assert(n[j - 1].0 == q);
                            }
                        }
                    }
                    assert forall|q: Con| #[trigger] self@.contains_key(q) implies self@[q] == om.remove(k)[q] by {
                        let j = self.index_of(q);
                        self.lemma_index(j);
                        if j < i {
                            old(self).lemma_index(j);
                        } else {
                            old(self).lemma_index(j + 1);
                        }
                    }
                }
                Some(e.1)
            },
            Err(_) => {
                assert(om.remove(k) =~= om);
                None
            },
        }
    }

    /// The keys, in ascending order.
    pub fn keys(&self) -> (r: Vec<Con>)
        requires
            self.wf(),
        ensures
            r@ == self.key_seq(),
            r@.to_set() == self@.dom(),
            r@.no_duplicates(),
            r@.len() == self@.len(),
    {
        let mut r: Vec<Con> = Vec::new();
        let mut i: usize = 0;
        while i < self.entries.len()
            invariant
                i <= self.entries@.len(),
                r@ == self.key_seq().subrange(0, i as int),
            decreases self.entries@.len() - i,
        {
            r.push(self.entries[i].0);
            proof {
                assert(r@ =~= self.key_seq().subrange(0, i + 1));
            }
            i = i + 1;
        }
        proof {
            assert(r@ =~= self.key_seq());
            self.lemma_dom();
        }
        r
    }
}

impl<T> View for ConMap<T> {
    type V = Map<Con, T>;

    open spec fn view(&self) -> Map<Con, T> {
        Map::new(|k: Con| self.has(k), |k: Con| self.entries@[self.index_of(k)].1)
    }
}

} // verus!
