//! A map from texts to values, kept as a list of entries with distinct keys.

use vstd::prelude::*;

use crate::text::same_text;

verus! {

/// A map with text keys. Its view is the map; `keys` and `values` give its entries
/// in the order in which their keys were first inserted.
#[derive(Debug)]
pub struct TextMap<V> {
    entries: Vec<(String, V)>,
}

impl<V> View for TextMap<V> {
    type V = Map<Seq<char>, V>;

    closed spec fn view(&self) -> Map<Seq<char>, V> {
        Map::new(
            |k: Seq<char>| self.keys().contains(k),
            |k: Seq<char>| self.values()[self.keys().index_of(k)],
        )
    }
}

impl<V> TextMap<V> {
    /// The keys in entry order.
    pub closed spec fn keys(self) -> Seq<Seq<char>> {
        self.entries@.map_values(|e: (String, V)| e.0@)
    }

    /// The values in entry order.
    pub closed spec fn values(self) -> Seq<V> {
        self.entries@.map_values(|e: (String, V)| e.1)
    }

    /// No key occurs twice.
    pub closed spec fn wf(self) -> bool {
        self.keys().no_duplicates()
    }

    /// The map holds exactly its entries.
    pub proof fn lemma_entries(self)
        requires
            self.wf(),
        ensures
            self.keys().no_duplicates(),
            self.keys().len() == self.values().len(),
            forall|i: int|
                0 <= i < self.keys().len() ==> self@.dom().contains(#[trigger] self.keys()[i])
                    && self@[self.keys()[i]] == self.values()[i],
            forall|k: Seq<char>| #[trigger]
                self@.dom().contains(k) ==> exists|i: int|
                    0 <= i < self.keys().len() && self.keys()[i] == k,
            self@.dom().finite(),
            self@.dom().len() == self.keys().len(),
    {
        assert(self@.dom() =~= self.keys().to_set());
        self.keys().unique_seq_to_set();
        assert forall|i: int| 0 <= i < self.keys().len() implies self@.dom().contains(
            #[trigger] self.keys()[i],
        ) && self@[self.keys()[i]] == self.values()[i] by {
            let k = self.keys()[i];
            assert(self.keys().contains(k));
            let j = self.keys().index_of(k);
            assert(0 <= j < self.keys().len() && self.keys()[j] == k);
            assert(j == i);
        }
    }

    /// An empty map.
    pub fn new() -> (r: Self)
        ensures
            r.wf(),
            r@ == Map::<Seq<char>, V>::empty(),
            r.keys().len() == 0,
    {
        let r = TextMap { entries: Vec::new() };
        assert(r@ =~= Map::<Seq<char>, V>::empty());
        r
    }

    /// The number of entries.
    pub fn len(&self) -> (n: usize)
        ensures
            n == self.keys().len(),
    {
        self.entries.len()
    }

    /// The key of an entry.
    pub fn key_at(&self, i: usize) -> (key: &str)
        requires
            i < self.keys().len(),
        ensures
            key@ == self.keys()[i as int],
    {
        self.entries[i].0.as_str()
    }

    /// The value of an entry.
    pub fn value_at(&self, i: usize) -> (value: &V)
        requires
            i < self.keys().len(),
        ensures
            *value == self.values()[i as int],
    {
        &self.entries[i].1
    }

    /// The position of a key.
    fn position(&self, key: &str) -> (r: Option<usize>)
        requires
            self.wf(),
        ensures
            match r {
                Some(i) => i < self.keys().len() && self.keys()[i as int] == key@,
                None => !self.keys().contains(key@),
            },
    {
        let mut i: usize = 0;
        while i < self.entries.len()
            invariant
                i <= self.entries.len(),
                forall|j: int| 0 <= j < i ==> self.keys()[j] != key@,
            decreases self.entries.len() - i,
        {
            if same_text(self.entries[i].0.as_str(), key) {
                return Some(i);
            }
            i = i + 1;
        }
        None
    }

    /// The value of a key.
    pub fn get(&self, key: &str) -> (r: Option<&V>)
        requires
            self.wf(),
        ensures
            match r {
                Some(value) => self@.dom().contains(key@) && *value == self@[key@],
                None => !self@.dom().contains(key@),
            },
    {
        match self.position(key) {
            Some(i) => {
                proof {
                    self.lemma_entries();
                }
                Some(&self.entries[i].1)
            },
            None => None,
        }
    }

    /// Sets the value of a key.
    pub fn insert(&mut self, key: String, value: V)
        requires
            old(self).wf(),
        ensures
            final(self).wf(),
            final(self)@ == old(self)@.insert(key@, value),
            old(self)@.dom().contains(key@) ==> final(self).keys() == old(self).keys(),
            !old(self)@.dom().contains(key@) ==> final(self).keys() == old(self).keys().push(key@),
    {
        proof {
            self.lemma_entries();
        }
        match self.position(key.as_str()) {
            Some(i) => {
                let ghost at = key@;
                self.entries.set(i, (key, value));
                proof {
                    assert(self.keys() =~= old(self).keys());
                    assert(self.values() =~= old(self).values().update(i as int, value));
                    self.lemma_entries();
                    assert(self@ =~= old(self)@.insert(at, value)) by {
                        assert forall|k: Seq<char>| #[trigger]
                            self@.dom().contains(k) implies self@[k] == old(self)@.insert(
                            at,
                            value,
                        )[k] by {
                            let j = choose|j: int|
                                0 <= j < self.keys().len() && self.keys()[j] == k;
                            assert(old(self).keys()[j] == k);
                        }
                    }
                }
            },
            None => {
                let ghost at = key@;
                self.entries.push((key, value));
                proof {
                    assert(self.keys() =~= old(self).keys().push(at));
                    assert(self.values() =~= old(self).values().push(value));
                    self.lemma_entries();
                    assert(self.keys()[self.keys().len() - 1] == at);
                    assert(self@ =~= old(self)@.insert(at, value)) by {
                        assert forall|k: Seq<char>| old(self)@.insert(at, value).dom().contains(
                            k,
                        ) implies #[trigger] self@.dom().contains(k) by {
                            if k != at {
                                let j = choose|j: int|
                                    0 <= j < old(self).keys().len() && old(self).keys()[j] == k;
                                assert(self.keys()[j] == k);
                            }
                        }
                        assert forall|k: Seq<char>| #[trigger]
                            self@.dom().contains(k) implies old(self)@.insert(
                            at,
                            value,
                        ).dom().contains(k) && self@[k] == old(self)@.insert(at, value)[k] by {
                            let j = choose|j: int|
                                0 <= j < self.keys().len() && self.keys()[j] == k;
                            if k != at {
                                assert(old(self).keys()[j] == k);
                            }
                        }
                    }
                }
            },
        }
    }

    /// Removes an entry by its position.
    pub fn remove_at(&mut self, i: usize) -> (r: V)
        requires
            old(self).wf(),
            i < old(self).keys().len(),
        ensures
            final(self).wf(),
            r == old(self).values()[i as int],
            final(self)@ == old(self)@.remove(old(self).keys()[i as int]),
            final(self).keys() == old(self).keys().remove(i as int),
            final(self).values() == old(self).values().remove(i as int),
    {
        let ghost at = self.keys()[i as int];
        proof {
            self.lemma_entries();
        }
        let (_, value) = self.entries.remove(i);
        proof {
            assert(self.keys() =~= old(self).keys().remove(i as int));
            assert(self.values() =~= old(self).values().remove(i as int));
            self.lemma_entries();
            assert(self@ =~= old(self)@.remove(at)) by {
                assert forall|k: Seq<char>| old(self)@.remove(at).dom().contains(
                    k,
                ) implies #[trigger] self@.dom().contains(k) by {
                    let j = choose|j: int|
                        0 <= j < old(self).keys().len() && old(self).keys()[j] == k;
                    let m = if j < i {
                        j
                    } else {
                        j - 1
                    };
                    assert(self.keys()[m] == k);
                }
                assert forall|k: Seq<char>| #[trigger]
                    self@.dom().contains(k) implies old(self)@.remove(at).dom().contains(k)
                    && self@[k] == old(self)@.remove(at)[k] by {
                    let j = choose|j: int| 0 <= j < self.keys().len() && self.keys()[j] == k;
                    let m = if j < i {
                        j
                    } else {
                        j + 1
                    };
                    assert(old(self).keys()[m] == k);
                }
            }
        }
        value
    }

    /// Removes a key and reports whether it was there.
    pub fn remove(&mut self, key: &str) -> (r: bool)
        requires
            old(self).wf(),
        ensures
            final(self).wf(),
            r == old(self)@.dom().contains(key@),
            final(self)@ == old(self)@.remove(key@),
    {
        proof {
            self.lemma_entries();
        }
        match self.position(key) {
            Some(i) => {
                self.remove_at(i);
                true
            },
            None => {
                assert(self@ =~= old(self)@.remove(key@));
                false
            },
        }
    }
}

} // verus!
