//! A small map keyed by names (libvirt domain names), standing in for the
//! `HashMap<String, _>` caches: no name occurs twice, and the map's view is
//! a `Map` from the name's characters to the stored value.

use vstd::prelude::*;

verus! {

/// A finite map from names to values.
pub struct NameMap<V> {
    entries: Vec<(String, V)>,
}

impl<V> NameMap<V> {
    /// No name occurs twice.
    #[verifier::type_invariant]
    closed spec fn distinct(self) -> bool {
        forall|i: int, j: int|
            0 <= i < self.entries@.len() && 0 <= j < self.entries@.len() && i != j
                ==> #[trigger] self.entries@[i].0@ != #[trigger] self.entries@[j].0@
    }

    closed spec fn has_index(self, k: Seq<char>, i: int) -> bool {
        0 <= i < self.entries@.len() && self.entries@[i].0@ == k
    }

    /// The map from names to values.
    pub closed spec fn view(self) -> Map<Seq<char>, V> {
        Map::new(
            |k: Seq<char>| exists|i: int| self.has_index(k, i),
            |k: Seq<char>| self.entries@[choose|i: int| self.has_index(k, i)].1,
        )
    }

    proof fn lemma_at(self, i: int)
        requires
            self.distinct(),
            0 <= i < self.entries@.len(),
        ensures
            self@.contains_key(self.entries@[i].0@),
            self@[self.entries@[i].0@] == self.entries@[i].1,
    {
        let k = self.entries@[i].0@;
        assert(self.has_index(k, i));
        let j = choose|j: int| self.has_index(k, j);
        assert(self.entries@[j].0@ == self.entries@[i].0@);
    }

    proof fn lemma_absent(self, k: Seq<char>)
        requires
            forall|i: int| 0 <= i < self.entries@.len() ==> self.entries@[i].0@ != k,
        ensures
            !self@.contains_key(k),
    {
    }

    /// An empty map.
    pub fn new() -> (r: Self)
        ensures
            r@ == Map::<Seq<char>, V>::empty(),
    {
        let r = NameMap { entries: Vec::new() };
        assert(r@ =~= Map::<Seq<char>, V>::empty());
        r
    }

    /// Number of names in the map.
    pub fn len(&self) -> (n: usize)
        ensures
            n == self@.len(),
    {
        proof {
            use_type_invariant(self);
            self.lemma_len();
        }
        self.entries.len()
    }

    proof fn lemma_len(self)
        requires
            self.distinct(),
        ensures
            self@.len() == self.entries@.len(),
            self@.dom().finite(),
        decreases self.entries@.len(),
    {
        let keys = self.entries@.map_values(|e: (String, V)| e.0@);
        assert(self@.dom() =~= keys.to_set()) by {
            assert forall|k: Seq<char>| self@.dom().contains(k) implies keys.to_set().contains(k) by {
                let i = choose|i: int| self.has_index(k, i);
                assert(keys[i] == k);
            }
            assert forall|k: Seq<char>| keys.to_set().contains(k) implies self@.dom().contains(k) by {
                let i = choose|i: int| 0 <= i < keys.len() && keys[i] == k;
                assert(self.has_index(k, i));
            }
        }
        assert(keys.no_duplicates()) by {
            assert forall|i: int, j: int| 0 <= i < keys.len() && 0 <= j < keys.len() && i != j
                implies keys[i] != keys[j] by {
                assert(self.entries@[i].0@ != self.entries@[j].0@);
            }
        }
        keys.unique_seq_to_set();
    }

    fn index_of(&self, key: &String) -> (r: Option<usize>)
        ensures
            match r {
                Some(i) => i < self.entries@.len() && self.entries@[i as int].0@ == key@,
                None => forall|i: int| 0 <= i < self.entries@.len() ==> self.entries@[i].0@ != key@,
            },
    {
        let mut i: usize = 0;
        while i < self.entries.len()
            invariant
                i <= self.entries@.len(),
                forall|j: int| 0 <= j < i ==> self.entries@[j].0@ != key@,
            decreases self.entries@.len() - i,
        {
            if self.entries[i].0 == *key {
                return Some(i);
            }
            i += 1;
        }
        None
    }

    /// The value stored under `key`, if any.
    pub fn get(&self, key: &String) -> (r: Option<&V>)
        ensures
            match r {
                Some(v) => self@.contains_key(key@) && self@[key@] == *v,
                None => !self@.contains_key(key@),
            },
    {
        proof {
            use_type_invariant(self);
        }
        match self.index_of(key) {
            Some(i) => {
                proof {
                    self.lemma_at(i as int);
                }
                Some(&self.entries[i].1)
            },
            None => {
                proof {
                    self.lemma_absent(key@);
                }
                None
            },
        }
    }

    /// Stores `value` under `key`, replacing any earlier value.
    pub fn insert(&mut self, key: String, value: V)
        ensures
            final(self)@ == old(self)@.insert(key@, value),
    {
        proof {
            use_type_invariant(&*self);
        }
        let ghost old_self = *self;
        let found = self.index_of(&key);
        let mut entries = Vec::new();
        std::mem::swap(&mut entries, &mut self.entries);
        match found {
            Some(i) => {
                entries.set(i, (key, value));
            },
            None => {
                entries.push((key, value));
            },
        }
        let ghost new_entries = entries@;
        self.entries = entries;
        proof {
            let n = NameMap { entries: self.entries };
            assert(n.distinct());
            assert(self@ =~= old_self@.insert(key@, value)) by {
                assert forall|k: Seq<char>| #![trigger self@.contains_key(k)]
                    self@.contains_key(k) <==> old_self@.insert(key@, value).contains_key(k) by {
                    if self@.contains_key(k) {
                        let j = choose|j: int| self.has_index(k, j);
                        if k != key@ {
                            assert(old_self.has_index(k, j));
                        }
                    }
                    if old_self@.contains_key(k) && k != key@ {
                        let j = choose|j: int| old_self.has_index(k, j);
                        assert(self.has_index(k, j));
                    }
                    if k == key@ {
                        match found {
                            Some(i) => assert(self.has_index(k, i as int)),
                            None => assert(self.has_index(k, old_self.entries@.len() as int)),
                        }
                    }
                }
                assert forall|k: Seq<char>| #[trigger] self@.contains_key(k) implies self@[k]
                    == old_self@.insert(key@, value)[k] by {
                    let j = choose|j: int| self.has_index(k, j);
                    self.lemma_at(j);
                    if k != key@ {
                        assert(old_self.has_index(k, j));
                        old_self.lemma_at(j);
                    }
                }
            }
        }
    }

    /// Keeps only the names that occur in `keep`.
    pub fn retain_names(&mut self, keep: &Vec<String>)
        ensures
            final(self)@ == old(self)@.restrict(names_set(keep@)),
    {
        proof {
            use_type_invariant(&*self);
        }
        let ghost old_self = *self;
        let mut entries = Vec::new();
        std::mem::swap(&mut entries, &mut self.entries);
        let mut kept: Vec<(String, V)> = Vec::new();
        let ghost mut origin: Seq<int> = Seq::empty();
        while entries.len() > 0
            invariant
                entries@.len() <= old_self.entries@.len(),
                entries@ == old_self.entries@.subrange(0, entries@.len() as int),
                kept@.len() == origin.len(),
                forall|a: int| 0 <= a < origin.len() ==> entries@.len() <= #[trigger] origin[a]
                    < old_self.entries@.len(),
                forall|a: int, b: int| 0 <= a < b < origin.len() ==> #[trigger] origin[a]
                    > #[trigger] origin[b],
                forall|a: int| 0 <= a < origin.len() ==> kept@[a] == old_self.entries@[#[trigger] origin[a]],
                forall|j: int| entries@.len() <= j < old_self.entries@.len() ==> (names_set(keep@).contains(
                    old_self.entries@[j].0@) <==> exists|a: int| 0 <= a < origin.len() && #[trigger] origin[a] == j),
                old_self.distinct(),
            decreases entries@.len(),
        {
            let ghost before = entries@;
            let e = entries.pop().unwrap();
            let ghost j = entries@.len() as int;
            assert(e == old_self.entries@[j]);
            let ghost old_origin = origin;
            assert(entries@ =~= old_self.entries@.subrange(0, entries@.len() as int));
            if contains_name(keep, &e.0) {
                kept.push(e);
                proof {
                    origin = origin.push(j);
                }
            }
            proof {
                assert forall|jj: int| entries@.len() <= jj < old_self.entries@.len() implies (names_set(keep@).contains(
                    old_self.entries@[jj].0@) <==> exists|a: int| 0 <= a < origin.len() && #[trigger] origin[a] == jj) by {
                    if jj == j {
                        if names_set(keep@).contains(old_self.entries@[jj].0@) {
                            assert(origin[origin.len() - 1] == jj);
                        } else {
                            assert forall|a: int| 0 <= a < origin.len() implies #[trigger] origin[a] != jj by {
                                assert(origin[a] >= j + 1);
                            }
                        }
                    } else {
                        assert(origin.len() >= old_origin.len());
                        assert(forall|a: int| 0 <= a < old_origin.len() ==> origin[a] == old_origin[a]);
                        if exists|a: int| 0 <= a < origin.len() && #[trigger] origin[a] == jj {
                            let a = choose|a: int| 0 <= a < origin.len() && #[trigger] origin[a] == jj;
                            assert(a < old_origin.len());
                            assert(old_origin[a] == jj);
                        }
                        if exists|a: int| 0 <= a < old_origin.len() && #[trigger] old_origin[a] == jj {
                            let a = choose|a: int| 0 <= a < old_origin.len() && #[trigger] old_origin[a] == jj;
                            assert(origin[a] == jj);
                        }
                    }
                }
            }
        }
        proof {
            assert forall|a: int, b: int|
                0 <= a < kept@.len() && 0 <= b < kept@.len() && a != b
                implies #[trigger] kept@[a].0@ != #[trigger] kept@[b].0@ by {
                if a < b {
                    assert(origin[a] > origin[b]);
                } else {
                    assert(origin[b] > origin[a]);
                }
                assert(old_self.entries@[origin[a]].0@ != old_self.entries@[origin[b]].0@);
            }
        }
        self.entries = kept;
        proof {
            let target = old_self@.restrict(names_set(keep@));
            assert forall|k: Seq<char>| #![trigger self@.contains_key(k)]
                self@.contains_key(k) <==> target.contains_key(k) by {
                if self@.contains_key(k) {
                    let a = choose|a: int| self.has_index(k, a);
                    assert(old_self.has_index(k, origin[a]));
                    assert(exists|x: int| 0 <= x < origin.len() && #[trigger] origin[x] == origin[a]);
                }
                if target.contains_key(k) {
                    let j = choose|j: int| old_self.has_index(k, j);
                    let a = choose|a: int| 0 <= a < origin.len() && #[trigger] origin[a] == j;
                    assert(self.has_index(k, a));
                }
            }
            assert forall|k: Seq<char>| #[trigger] self@.contains_key(k) implies self@[k] == target[k] by {
                let a = choose|a: int| self.has_index(k, a);
                self.lemma_at(a);
                old_self.lemma_at(origin[a]);
            }
            assert(self@ =~= target);
        }
    }
}

/// The set of names (as characters) in `names`.
pub open spec fn names_set(names: Seq<String>) -> Set<Seq<char>> {
    Set::new(|k: Seq<char>| exists|i: int| 0 <= i < names.len() && #[trigger] names[i]@ == k)
}

/// Whether `name` occurs in `names`.
pub fn contains_name(names: &Vec<String>, name: &String) -> (r: bool)
    ensures
        r == names_set(names@).contains(name@),
{
    let mut i: usize = 0;
    while i < names.len()
        invariant
            i <= names@.len(),
            forall|j: int| 0 <= j < i ==> names@[j]@ != name@,
        decreases names@.len() - i,
    {
        if names[i] == *name {
            assert(names@[i as int]@ == name@);
            return true;
        }
        i += 1;
    }
    false
}

} // verus!
