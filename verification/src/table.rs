//! A map from strings to values that keeps its entries in the order of insertion.

use vstd::prelude::*;

verus! {

/// A map keyed by strings. No key occurs twice; a new key goes to the end.
#[derive(Debug)]
pub struct Table<V: View> {
    entries: Vec<(String, V)>,
}

/// The keys of a list of entries, in order.
pub closed spec fn entry_keys<V: View>(entries: Seq<(String, V)>) -> Seq<Seq<char>> {
    entries.map_values(|e: (String, V)| e.0@)
}

/// The map that a list of entries stands for.
pub closed spec fn entry_map<V: View>(entries: Seq<(String, V)>) -> Map<Seq<char>, V::V> {
    Map::new(
        |k: Seq<char>| entry_keys(entries).contains(k),
        |k: Seq<char>| entries[entry_keys(entries).index_of(k)].1@,
    )
}

/// Whether no key occurs twice.
closed spec fn keys_differ<V: View>(entries: Seq<(String, V)>) -> bool {
    entry_keys(entries).no_duplicates()
}

proof fn entry_at<V: View>(entries: Seq<(String, V)>, i: int)
    requires
        keys_differ(entries),
        0 <= i < entries.len(),
    ensures
        entry_map(entries).contains_key(entries[i].0@),
        entry_map(entries)[entries[i].0@] == entries[i].1@,
{
    assert(entry_keys(entries)[i] == entries[i].0@);
}

impl<V: View> Table<V> {
    #[verifier::type_invariant]
    spec fn well_formed(self) -> bool {
        keys_differ(self.entries@)
    }

    /// The keys, in the order in which they were first inserted.
    pub closed spec fn keys(self) -> Seq<Seq<char>> {
        entry_keys(self.entries@)
    }

    /// An empty table.
    pub fn new() -> (r: Self)
        ensures
            r@ == Map::<Seq<char>, V::V>::empty(),
            r.keys() == Seq::<Seq<char>>::empty(),
    {
        let entries: Vec<(String, V)> = Vec::new();
        proof {
            assert(entry_keys(entries@) =~= Seq::<Seq<char>>::empty());
            assert(entry_map(entries@) =~= Map::<Seq<char>, V::V>::empty());
        }
        Table { entries }
    }

    /// The position of a key.
    fn position(&self, key: &str) -> (r: Option<usize>)
        ensures
            match r {
                Some(i) => i < self.entries@.len() && self.entries@[i as int].0@ == key@,
                None => !self@.contains_key(key@),
            },
    {
        let wanted = key.to_owned();
        let mut i: usize = 0;
        while i < self.entries.len()
            invariant
                i <= self.entries@.len(),
                wanted@ == key@,
                forall|j: int| 0 <= j < i ==> (#[trigger] self.entries@[j]).0@ != key@,
            decreases self.entries.len() - i,
        {
            if self.entries[i].0 == wanted {
                return Some(i);
            }
            i += 1;
        }
        proof {
            if self@.contains_key(key@) {
                let j = entry_keys(self.entries@).index_of(key@);
                assert(self.entries@[j].0@ == key@);
            }
        }
        None
    }

    /// The value under a key.
    pub fn get(&self, key: &str) -> (r: Option<&V>)
        ensures
            match r {
                Some(v) => self@.contains_key(key@) && v@ == self@[key@],
                None => !self@.contains_key(key@),
            },
    {
        proof {
            use_type_invariant(self);
        }
        match self.position(key) {
            Some(i) => {
                proof {
                    entry_at(self.entries@, i as int);
                }
                Some(&self.entries[i].1)
            },
            None => None,
        }
    }

    /// Whether a key is in the table.
    pub fn contains_key(&self, key: &str) -> (r: bool)
        ensures
            r == self@.contains_key(key@),
    {
        self.get(key).is_some()
    }

    /// The number of entries. The keys are those of the map, each once.
    pub fn len(&self) -> (r: usize)
        ensures
            r == self.keys().len(),
            r == self@.dom().len(),
            self@.dom().finite(),
            self.keys().no_duplicates(),
            forall|k: Seq<char>| self.keys().contains(k) == self@.contains_key(k),
    {
        proof {
            use_type_invariant(self);
            let keys = entry_keys(self.entries@);
            keys.unique_seq_to_set();
            assert(self@.dom() =~= keys.to_set());
        }
        self.entries.len()
    }

    /// The key at a position.
    pub fn key_at(&self, i: usize) -> (r: &String)
        requires
            i < self.keys().len(),
        ensures
            r@ == self.keys()[i as int],
    {
        &self.entries[i].0
    }

    /// The value at a position.
    pub fn value_at(&self, i: usize) -> (r: &V)
        requires
            i < self.keys().len(),
        ensures
            r@ == self@[self.keys()[i as int]],
    {
        proof {
            use_type_invariant(self);
            entry_at(self.entries@, i as int);
        }
        &self.entries[i].1
    }

    /// Puts a value under a key, in place of an earlier one.
    pub fn insert(&mut self, key: String, value: V)
        ensures
            final(self)@ == old(self)@.insert(key@, value@),
            final(self).keys() == if old(self)@.contains_key(key@) {
                old(self).keys()
            } else {
                old(self).keys().push(key@)
            },
    {
        proof {
            use_type_invariant(&*self);
        }
        let found = self.position(key.as_str());
        let mut entries: Vec<(String, V)> = Vec::new();
        std::mem::swap(&mut entries, &mut self.entries);
        let ghost before = entries@;
        match found {
            Some(i) => {
                proof {
                    entry_at(before, i as int);
                }
                entries.set(i, (key, value));
                proof {
                    assert(entry_keys(entries@) =~= entry_keys(before));
                    assert forall|k: Seq<char>| entry_keys(before).contains(k) implies entry_map(
                        entries@,
                    )[k] == entry_map(before).insert(key@, value@)[k] by {
                        let j = entry_keys(before).index_of(k);
                        assert(entry_keys(before)[j] == k);
                        assert(entry_keys(before)[i as int] == key@);
                    }
                    assert(entry_map(entries@) =~= entry_map(before).insert(key@, value@));
                }
            },
            None => {
                entries.push((key, value));
                proof {
                    assert(entry_keys(entries@) =~= entry_keys(before).push(key@));
                    assert(!entry_keys(before).contains(key@));
                    assert(keys_differ(entries@));
                    assert forall|k: Seq<char>| entry_keys(entries@).contains(k) implies entry_map(
                        entries@,
                    )[k] == entry_map(before).insert(key@, value@)[k] by {
                        let j = entry_keys(entries@).index_of(k);
                        assert(entry_keys(entries@)[j] == k);
                        entry_at(entries@, j);
                        if j < before.len() {
                            assert(entries@[j] == before[j]);
                            entry_at(before, j);
                        }
                    }
                    assert forall|k: Seq<char>| #[trigger]
                        entry_keys(before).contains(k) implies entry_keys(entries@).contains(k) by {
                        let j = entry_keys(before).index_of(k);
                        assert(entry_keys(entries@)[j] == k);
                    }
                    assert(entry_keys(entries@)[before.len() as int] == key@);
                    assert(entry_map(entries@) =~= entry_map(before).insert(key@, value@));
                }
            },
        }
        self.entries = entries;
    }

    /// Takes the entry of a key out of the table.
    pub fn remove(&mut self, key: &str) -> (r: Option<V>)
        ensures
            final(self)@ == old(self)@.remove(key@),
            final(self).keys() == if old(self)@.contains_key(key@) {
                old(self).keys().remove(old(self).keys().index_of(key@))
            } else {
                old(self).keys()
            },
            match r {
                Some(v) => old(self)@.contains_key(key@) && v@ == old(self)@[key@],
                None => !old(self)@.contains_key(key@),
            },
    {
        proof {
            use_type_invariant(&*self);
        }
        match self.position(key) {
            Some(i) => {
                let mut entries: Vec<(String, V)> = Vec::new();
                std::mem::swap(&mut entries, &mut self.entries);
                let ghost before = entries@;
                proof {
                    entry_at(before, i as int);
                }
                let (_, value) = entries.remove(i);
                proof {
                    let left = entry_keys(entries@);
                    let all = entry_keys(before);
                    assert(left =~= all.remove(i as int));
                    assert(all[i as int] == key@);
                    assert(all.index_of(key@) == i as int);
                    assert(keys_differ(entries@));
                    assert forall|k: Seq<char>| #[trigger] left.contains(k) implies all.contains(k)
                        && k != key@ && entry_map(entries@)[k] == entry_map(before)[k] by {
                        let j = left.index_of(k);
                        let old_j = if j < i {
                            j
                        } else {
                            j + 1
                        };
                        assert(all[old_j] == k);
                        entry_at(before, old_j);
                        entry_at(entries@, j);
                        assert(entries@[j] == before[old_j]);
                    }
                    assert forall|k: Seq<char>| #[trigger]
                        all.contains(k) && k != key@ implies left.contains(k) by {
                        let j = all.index_of(k);
                        let new_j = if j < i {
                            j
                        } else {
                            j - 1
                        };
                        assert(left[new_j] == k);
                    }
                    assert(entry_map(entries@) =~= entry_map(before).remove(key@));
                }
                self.entries = entries;
                Some(value)
            },
            None => {
                proof {
                    assert(self@.remove(key@) =~= self@);
                }
                None
            },
        }
    }
}

impl<V: View> View for Table<V> {
    type V = Map<Seq<char>, V::V>;

    closed spec fn view(&self) -> Map<Seq<char>, V::V> {
        entry_map(self.entries@)
    }
}

} // verus!
