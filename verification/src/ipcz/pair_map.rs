//! A map whose keys are pairs of numbers.

use vstd::prelude::*;

verus! {

/// A key with its value.
pub struct PairEntry<V> {
    /// The first number of the key.
    pub a: u64,
    /// The second number of the key.
    pub b: u64,
    /// The value.
    pub value: V,
}

/// A map from pairs of numbers to values.
pub struct PairMap<V> {
    /// The entries, one for each key.
    pub entries: Vec<PairEntry<V>>,
}

/// Whether entry `i` has the key `k`.
pub open spec fn has_key<V>(s: Seq<PairEntry<V>>, i: int, k: (u64, u64)) -> bool {
    &&& 0 <= i < s.len()
    &&& s[i].a == k.0
    &&& s[i].b == k.1
}

impl<V> View for PairMap<V> {
    type V = Map<(u64, u64), V>;

    open spec fn view(&self) -> Map<(u64, u64), V> {
        Map::new(
            |k: (u64, u64)| exists|i: int| has_key(self.entries@, i, k),
            |k: (u64, u64)| self.entries@[choose|i: int| has_key(self.entries@, i, k)].value,
        )
    }
}

impl<V> PairMap<V> {
    /// The validity of a map: no key occurs twice.
    pub open spec fn wf(&self) -> bool {
        forall|i: int, j: int, k: (u64, u64)|
            has_key(self.entries@, i, k) && has_key(self.entries@, j, k) ==> i == j
    }

    /// What an entry says of the map.
    proof fn lemma_entry(&self, i: int)
        requires
            self.wf(),
            0 <= i < self.entries@.len(),
        ensures
            ({
                let e = self.entries@[i];
                self@.contains_key((e.a, e.b)) && self@[(e.a, e.b)] == e.value
            }),
    {
        let k = (self.entries@[i].a, self.entries@[i].b);
        assert(has_key(self.entries@, i, k));
    }

    /// A map without entries.
    pub fn new() -> (r: PairMap<V>)
        ensures
            r.wf(),
            r@ == Map::<(u64, u64), V>::empty(),
    {
        let r = PairMap { entries: Vec::new() };
        assert(r@ =~= Map::<(u64, u64), V>::empty());
        r
    }

    fn find(&self, a: u64, b: u64) -> (r: Option<usize>)
        requires
            self.wf(),
        ensures
            match r {
                Some(i) => has_key(self.entries@, i as int, (a, b)),
                None => !self@.contains_key((a, b)),
            },
    {
        let mut i: usize = 0;
        while i < self.entries.len()
            invariant
                i <= self.entries.len(),
                forall|j: int| 0 <= j < i ==> !#[trigger] has_key(self.entries@, j, (a, b)),
            decreases self.entries.len() - i,
        {
            if self.entries[i].a == a && self.entries[i].b == b {
                return Some(i);
            }
            i = i + 1;
        }
        None
    }

    /// The value of a key, if there is one.
    pub fn get(&self, a: u64, b: u64) -> (r: Option<&V>)
        requires
            self.wf(),
        ensures
            match r {
                Some(v) => self@.contains_key((a, b)) && *v == self@[(a, b)],
                None => !self@.contains_key((a, b)),
            },
    {
        match self.find(a, b) {
            Some(i) => {
                proof {
                    self.lemma_entry(i as int);
                }
                Some(&self.entries[i].value)
            },
            None => None,
        }
    }

    /// Set the value of a key.
    pub fn insert(&mut self, a: u64, b: u64, v: V)
        requires
            old(self).wf(),
        ensures
            final(self).wf(),
            final(self)@ == old(self)@.insert((a, b), v),
    {
        let e = PairEntry { a, b, value: v };
        match self.find(a, b) {
            Some(i) => {
                self.entries.set(i, e);
                let ghost s = self.entries@;
                let ghost o = old(self).entries@;
                assert forall|j: int, k: (u64, u64)| has_key(s, j, k) == has_key(o, j, k) by {}
                assert forall|k: (u64, u64)| #[trigger] self@.contains_key(k) implies self@[k]
                    == old(self)@.insert((a, b), v)[k] by {
                    let j = choose|j: int| has_key(s, j, k);
                    assert(has_key(o, j, k));
                    old(self).lemma_entry(j);
                    self.lemma_entry(j);
                }
                assert forall|k: (u64, u64)|
                    old(self)@.insert((a, b), v).contains_key(k) implies #[trigger] self@.contains_key(
                    k,
                ) by {
                    if k == (a, b) {
                        assert(has_key(s, i as int, k));
                    } else {
                        let j = choose|j: int| has_key(o, j, k);
                        assert(has_key(s, j, k));
                    }
                }
            },
            None => {
                self.entries.push(e);
                let ghost s = self.entries@;
                let ghost o = old(self).entries@;
                assert forall|j: int, k: (u64, u64)|
                    has_key(s, j, k) && j < o.len() implies has_key(o, j, k) by {}
                assert forall|j: int, k: (u64, u64)| has_key(o, j, k) implies has_key(s, j, k) by {}
                assert(has_key(s, o.len() as int, (a, b)));
                assert forall|k: (u64, u64)| #[trigger] self@.contains_key(k) implies self@[k]
                    == old(self)@.insert((a, b), v)[k] by {
                    let j = choose|j: int| has_key(s, j, k);
                    self.lemma_entry(j);
                    if j < o.len() {
                        assert(has_key(o, j, k));
                        old(self).lemma_entry(j);
                    }
                }
            },
        }
        assert(self@ =~= old(self)@.insert((a, b), v));
    }

    fn remove_at(&mut self, i: usize) -> (r: V)
        requires
            old(self).wf(),
            i < old(self).entries@.len(),
        ensures
            final(self).wf(),
            final(self).entries@ == old(self).entries@.remove(i as int),
            ({
                let e = old(self).entries@[i as int];
                &&& r == e.value
                &&& old(self)@.contains_key((e.a, e.b))
                &&& old(self)@[(e.a, e.b)] == e.value
                &&& final(self)@ == old(self)@.remove((e.a, e.b))
            }),
    {
        let e = self.entries.remove(i);
        let ghost s = self.entries@;
        let ghost o = old(self).entries@;
        let ghost gone = (e.a, e.b);
        proof {
            old(self).lemma_entry(i as int);
            assert(has_key(o, i as int, gone));
            assert forall|j: int, k: (u64, u64)| has_key(s, j, k) implies has_key(
                o,
                if j < i {
                    j
                } else {
                    j + 1
                },
                k,
            ) && k != gone by {
                let m = if j < i {
                    j
                } else {
                    j + 1
                };
                assert(has_key(o, m, k));
                if k == gone {
                    assert(m == i);
                }
            }
            assert forall|k: (u64, u64)| #[trigger] self@.contains_key(k) implies self@[k]
                == old(self)@.remove(gone)[k] && old(self)@.remove(gone).contains_key(k) by {
                let j = choose|j: int| has_key(s, j, k);
                let m = if j < i {
                    j
                } else {
                    j + 1
                };
                assert(has_key(o, m, k));
                old(self).lemma_entry(m);
                self.lemma_entry(j);
            }
            assert forall|k: (u64, u64)|
                old(self)@.remove(gone).contains_key(k) implies #[trigger] self@.contains_key(k) by {
                let m = choose|m: int| has_key(o, m, k);
                let j = if m < i {
                    m
                } else {
                    m - 1
                };
                assert(m != i);
                assert(has_key(s, j, k));
            }
            assert(self@ =~= old(self)@.remove(gone));
        }
        e.value
    }

    /// Take the value of a key out of the map.
    pub fn remove(&mut self, a: u64, b: u64) -> (r: Option<V>)
        requires
            old(self).wf(),
        ensures
            final(self).wf(),
            final(self)@ == old(self)@.remove((a, b)),
            match r {
                Some(v) => old(self)@.contains_key((a, b)) && v == old(self)@[(a, b)],
                None => !old(self)@.contains_key((a, b)),
            },
    {
        match self.find(a, b) {
            Some(i) => Some(self.remove_at(i)),
            None => {
                assert(self@ =~= old(self)@.remove((a, b)));
                None
            },
        }
    }
}

/// The map without the entries that have the value `v`.
pub open spec fn without_value(m: Map<(u64, u64), u64>, v: u64) -> Map<(u64, u64), u64> {
    Map::new(|k: (u64, u64)| m.contains_key(k) && m[k] != v, |k: (u64, u64)| m[k])
}

impl PairMap<u64> {
    /// Remove every entry that has the value `v`.
    pub fn remove_value(&mut self, v: u64)
        requires
            old(self).wf(),
        ensures
            final(self).wf(),
            final(self)@ == without_value(old(self)@, v),
    {
        let ghost before = self@;
        let mut i: usize = 0;
        while i < self.entries.len()
            invariant
                i <= self.entries.len(),
                self.wf(),
                without_value(self@, v) == without_value(before, v),
                forall|j: int| 0 <= j < i ==> (#[trigger] self.entries@[j]).value != v,
            decreases self.entries.len() - i,
        {
            if self.entries[i].value == v {
                let ghost mid = self@;
                self.remove_at(i);
                assert(without_value(self@, v) =~= without_value(mid, v));
            } else {
                i = i + 1;
            }
        }
        assert forall|k: (u64, u64)| #[trigger] self@.contains_key(k) implies self@[k] != v by {
            let j = choose|j: int| has_key(self.entries@, j, k);
            assert(has_key(self.entries@, j, k));
            self.lemma_entry(j);
        }
        assert(self@ =~= without_value(self@, v));
    }
}

} // verus!
