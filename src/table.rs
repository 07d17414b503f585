//! A table keyed by claim identifier: at most one value per key, entries kept
//! in the order in which their keys first arrived.
use vstd::prelude::*;

verus! {

/// The position of key `k` in `entries`.
pub open spec fn position_of<V>(entries: Seq<(String, V)>, k: Seq<char>) -> int {
    choose|i: int| 0 <= i < entries.len() && entries[i].0@ == k
}

/// No key occurs twice in `entries`.
pub open spec fn keys_distinct<V>(entries: Seq<(String, V)>) -> bool {
    forall|i: int, j: int|
        0 <= i < entries.len() && 0 <= j < entries.len() && i != j ==> #[trigger] entries[i].0@
            != #[trigger] entries[j].0@
}

/// The map that `entries` stands for.
pub open spec fn map_of<V>(entries: Seq<(String, V)>) -> Map<Seq<char>, V> {
    Map::new(
        |k: Seq<char>| exists|i: int| 0 <= i < entries.len() && entries[i].0@ == k,
        |k: Seq<char>| entries[position_of(entries, k)].1,
    )
}

proof fn lemma_position_unique<V>(entries: Seq<(String, V)>, k: Seq<char>, j: int)
    requires
        keys_distinct(entries),
        0 <= j < entries.len(),
        entries[j].0@ == k,
    ensures
        position_of(entries, k) == j,
{
    let p = position_of(entries, k);
    assert(0 <= p < entries.len() && entries[p].0@ == k);
}

/// Values keyed by claim identifier. Its view is the map from each key to
/// its value; `keys` gives the order in which the keys arrived.
pub struct KeyedTable<V> {
    entries: Vec<(String, V)>,
}

impl<V> View for KeyedTable<V> {
    type V = Map<Seq<char>, V>;

    closed spec fn view(&self) -> Map<Seq<char>, V> {
        map_of(self.entries@)
    }
}

impl<V> KeyedTable<V> {
    /// Well-formed: no key occurs twice.
    pub closed spec fn wf(&self) -> bool {
        keys_distinct(self.entries@)
    }

    /// The keys, in the order in which they first arrived.
    pub closed spec fn keys(&self) -> Seq<Seq<char>> {
        self.entries@.map_values(|e: (String, V)| e.0@)
    }

    /// The keys occur once each, and they are exactly the keys of the map.
    pub proof fn lemma_keys(&self)
        requires
            self.wf(),
        ensures
            self.keys().no_duplicates(),
            forall|i: int| 0 <= i < self.keys().len() ==> self@.contains_key(#[trigger] self.keys()[i]),
            forall|k: Seq<char>| #[trigger] self@.contains_key(k) ==> self.keys().contains(k),
            self@.dom() == self.keys().to_set(),
            self@.dom().finite(),
    {
        assert forall|k: Seq<char>| #[trigger] self@.contains_key(k) implies self.keys().contains(
            k,
        ) by {
            let i = choose|i: int| 0 <= i < self.entries@.len() && self.entries@[i].0@ == k;
            assert(self.keys()[i] == k);
        }
        assert forall|i: int| 0 <= i < self.keys().len() implies self@.contains_key(
            #[trigger] self.keys()[i],
        ) by {
            assert(self.entries@[i].0@ == self.keys()[i]);
        }
        assert forall|i: int, j: int|
            0 <= i < self.keys().len() && 0 <= j < self.keys().len() && i != j implies self.keys()[i]
            != self.keys()[j] by {
            assert(self.entries@[i].0@ != self.entries@[j].0@);
        }
        assert(self@.dom() =~= self.keys().to_set());
        vstd::seq_lib::seq_to_set_is_finite(self.keys());
    }

    pub fn new() -> (r: Self)
        ensures
            r.wf(),
            r@ == Map::<Seq<char>, V>::empty(),
            r.keys() == Seq::<Seq<char>>::empty(),
    {
        let r = KeyedTable { entries: Vec::new() };
        assert(r@ =~= Map::<Seq<char>, V>::empty());
        assert(r.keys() =~= Seq::<Seq<char>>::empty());
        r
    }

    pub fn len(&self) -> (r: usize)
        ensures
            r == self.keys().len(),
    {
        self.entries.len()
    }

    /// The key at position `i` of the arrival order, and its value.
    pub fn entry_at(&self, i: usize) -> (r: (&String, &V))
        requires
            self.wf(),
            i < self.keys().len(),
        ensures
            r.0@ == self.keys()[i as int],
            self@.contains_key(r.0@),
            *r.1 == self@[r.0@],
    {
        proof {
            lemma_position_unique(self.entries@, self.entries@[i as int].0@, i as int);
        }
        let e = &self.entries[i];
        (&e.0, &e.1)
    }

    fn position(&self, k: &String) -> (r: Option<usize>)
        ensures
            match r {
                Some(i) => i < self.entries@.len() && self.entries@[i as int].0@ == k@,
                None => !self@.contains_key(k@),
            },
    {
        let n = self.entries.len();
        for i in 0..n
            invariant
                n == self.entries@.len(),
                forall|j: int| 0 <= j < i ==> self.entries@[j].0@ != k@,
        {
            if self.entries[i].0 == *k {
                return Some(i);
            }
        }
        None
    }

    pub fn contains_key(&self, k: &String) -> (r: bool)
        ensures
            r == self@.contains_key(k@),
    {
        self.position(k).is_some()
    }

    pub fn get(&self, k: &String) -> (r: Option<&V>)
        requires
            self.wf(),
        ensures
            match r {
                Some(v) => self@.contains_key(k@) && *v == self@[k@],
                None => !self@.contains_key(k@),
            },
    {
        match self.position(k) {
            Some(i) => {
                proof {
                    lemma_position_unique(self.entries@, k@, i as int);
                }
                Some(&self.entries[i].1)
            },
            None => None,
        }
    }

    /// Sets the value of `k`, replacing any earlier one. A new key goes last
    /// in the arrival order; a known key keeps its place.
    pub fn insert(&mut self, k: String, v: V)
        requires
            old(self).wf(),
        ensures
            final(self).wf(),
            final(self)@ == old(self)@.insert(k@, v),
            old(self)@.contains_key(k@) ==> final(self).keys() == old(self).keys(),
            !old(self)@.contains_key(k@) ==> final(self).keys() == old(self).keys().push(k@),
    {
        let ghost old_entries = self.entries@;
        let ghost key = k@;
        match self.position(&k) {
            Some(i) => {
                self.entries.set(i, (k, v));
                proof {
                    let ne = self.entries@;
                    assert(ne == old_entries.update(i as int, (ne[i as int].0, v)));
                    assert(keys_distinct(ne));
                    lemma_position_unique(ne, key, i as int);
                    assert forall|k2: Seq<char>| k2 != key && #[trigger] map_of(old_entries).contains_key(
                        k2,
                    ) implies map_of(ne)[k2] == map_of(old_entries)[k2] by {
                        let j = position_of(old_entries, k2);
                        assert(j != i);
                        assert(ne[j] == old_entries[j]);
                        lemma_position_unique(ne, k2, j);
                    }
                    assert forall|k2: Seq<char>| #[trigger] map_of(ne).contains_key(k2) <==> map_of(
                        old_entries,
                    ).insert(key, v).contains_key(k2) by {
                        if map_of(ne).contains_key(k2) {
                            let j = choose|j: int| 0 <= j < ne.len() && ne[j].0@ == k2;
                            assert(ne[j].0@ == old_entries[j].0@);
                        }
                        if map_of(old_entries).contains_key(k2) {
                            let j = choose|j: int| 0 <= j < old_entries.len() && old_entries[j].0@ == k2;
                            assert(ne[j].0@ == old_entries[j].0@);
                        }
                    }
                    assert(map_of(ne) =~= map_of(old_entries).insert(key, v));
                    assert(self.keys() =~= old(self).keys());
                }
            },
            None => {
                self.entries.push((k, v));
                proof {
                    let ne = self.entries@;
                    assert(ne == old_entries.push(ne[old_entries.len() as int]));
                    assert(keys_distinct(ne));
                    lemma_position_unique(ne, key, old_entries.len() as int);
                    assert forall|k2: Seq<char>| k2 != key && #[trigger] map_of(old_entries).contains_key(
                        k2,
                    ) implies map_of(ne)[k2] == map_of(old_entries)[k2] by {
                        let j = position_of(old_entries, k2);
                        assert(ne[j] == old_entries[j]);
                        lemma_position_unique(ne, k2, j);
                    }
                    assert forall|k2: Seq<char>| #[trigger] map_of(ne).contains_key(k2) <==> map_of(
                        old_entries,
                    ).insert(key, v).contains_key(k2) by {
                        if map_of(ne).contains_key(k2) && k2 != key {
                            let j = choose|j: int| 0 <= j < ne.len() && ne[j].0@ == k2;
                            assert(ne[j] == old_entries[j]);
                        }
                        if map_of(old_entries).contains_key(k2) {
                            let j = choose|j: int| 0 <= j < old_entries.len() && old_entries[j].0@ == k2;
                            assert(ne[j] == old_entries[j]);
                        }
                    }
                    assert(map_of(ne) =~= map_of(old_entries).insert(key, v));
                    assert(self.keys() =~= old(self).keys().push(key));
                }
            },
        }
    }

    /// Takes the value of `k` out of the table, if there is one.
    pub fn remove(&mut self, k: &String) -> (r: Option<V>)
        requires
            old(self).wf(),
        ensures
            final(self).wf(),
            match r {
                Some(v) => old(self)@.contains_key(k@) && v == old(self)@[k@] && final(self)@
                    == old(self)@.remove(k@),
                None => !old(self)@.contains_key(k@) && final(self)@ == old(self)@,
            },
    {
        let ghost old_entries = self.entries@;
        match self.position(k) {
            Some(i) => {
                proof {
                    lemma_position_unique(old_entries, k@, i as int);
                }
                let (_, v) = self.entries.remove(i);
                proof {
                    let ne = self.entries@;
                    assert(ne == old_entries.remove(i as int));
                    assert forall|k2: Seq<char>| k2 != k@ && #[trigger] map_of(old_entries).contains_key(
                        k2,
                    ) implies map_of(ne).contains_key(k2) && map_of(ne)[k2] == map_of(
                        old_entries,
                    )[k2] by {
                        let j = position_of(old_entries, k2);
                        assert(j != i);
                        let nj = if j < i {
                            j
                        } else {
                            j - 1
                        };
                        assert(ne[nj] == old_entries[j]);
                        lemma_position_unique(ne, k2, nj);
                    }
                    assert forall|k2: Seq<char>| #[trigger] map_of(ne).contains_key(
                        k2,
                    ) implies k2 != k@ && map_of(old_entries).contains_key(k2) by {
                        let j = choose|j: int| 0 <= j < ne.len() && ne[j].0@ == k2;
                        let oj = if j < i {
                            j
                        } else {
                            j + 1
                        };
                        assert(ne[j] == old_entries[oj]);
                    }
                    assert(map_of(ne) =~= map_of(old_entries).remove(k@));
                }
                Some(v)
            },
            None => None,
        }
    }
}

} // verus!
