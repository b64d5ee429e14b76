//! A map from strings to values, kept as a list of entries with distinct keys.

use vstd::prelude::*;
use vstd::pervasive::VecAdditionalExecFns;

verus! {

/// A finite map keyed by strings. Its view is the mathematical map from each
/// key's characters to the value stored under it.
pub struct StrMap<T> {
    keys: Vec<String>,
    vals: Vec<T>,
}

impl<T> View for StrMap<T> {
    type V = Map<Seq<char>, T>;

    open spec fn view(&self) -> Map<Seq<char>, T> {
        Map::new(|k: Seq<char>| self.keys().contains(k), |k: Seq<char>| self.values()[self.slot(k)])
    }
}

impl<T> StrMap<T> {
    /// The keys, in the order of their entries.
    pub closed spec fn keys(&self) -> Seq<Seq<char>> {
        Seq::new(self.keys@.len(), |i: int| self.keys@[i]@)
    }

    /// The values, in the order of their entries.
    pub closed spec fn values(&self) -> Seq<T> {
        self.vals@
    }

    /// The position of the entry that holds `k`.
    pub open spec fn slot(&self, k: Seq<char>) -> int {
        choose|i: int| 0 <= i < self.keys().len() && self.keys()[i] == k
    }

    /// Every entry has a key and a value, and no key occurs twice.
    pub open spec fn wf(&self) -> bool {
        &&& self.keys().len() == self.values().len()
        &&& self.keys().no_duplicates()
    }

    /// The entry at position `i` is what the map holds under that entry's key.
    pub proof fn lemma_entry(&self, i: int)
        requires
            self.wf(),
            0 <= i < self.keys().len(),
        ensures
            self@.contains_key(self.keys()[i]),
            self@[self.keys()[i]] == self.values()[i],
            self.slot(self.keys()[i]) == i,
    {
        let k = self.keys()[i];
        assert(self.keys().contains(k));
        let j = self.slot(k);
        assert(0 <= j < self.keys().len() && self.keys()[j] == k);
    }

    /// A key of the map sits at its slot, which is a position of the list.
    pub proof fn lemma_slot(&self, k: Seq<char>)
        requires
            self.wf(),
            self@.contains_key(k),
        ensures
            0 <= self.slot(k) < self.keys().len(),
            self.keys()[self.slot(k)] == k,
            self.values()[self.slot(k)] == self@[k],
    {
        assert(self.keys().contains(k));
    }

    /// The map has as many keys as the list has entries.
    pub proof fn lemma_len(&self)
        requires
            self.wf(),
        ensures
            self@.dom().finite(),
            self@.dom().len() == self.keys().len(),
    {
        assert(self@.dom() =~= self.keys().to_set());
        self.keys().unique_seq_to_set();
    }

    /// The empty map.
    pub fn new() -> (m: Self)
        ensures
            m.wf(),
            m@ == Map::<Seq<char>, T>::empty(),
            m.keys().len() == 0,
    {
        let m = StrMap { keys: Vec::new(), vals: Vec::new() };
        assert(m@ =~= Map::<Seq<char>, T>::empty());
        m
    }

    /// The number of entries.
    pub fn len(&self) -> (n: usize)
        requires
            self.wf(),
        ensures
            n == self.keys().len(),
    {
        self.keys.len()
    }

    /// Where `key` is stored, if it is.
    pub fn position(&self, key: &str) -> (r: Option<usize>)
        requires
            self.wf(),
        ensures
            match r {
                Some(i) => i < self.keys().len() && self.keys()[i as int] == key@,
                None => !self@.contains_key(key@),
            },
    {
        let wanted: String = key.to_owned();
        let mut i: usize = 0;
        while i < self.keys.len()
            invariant
                i <= self.keys@.len(),
                wanted@ == key@,
                forall|j: int| 0 <= j < i ==> self.keys()[j] != key@,
            decreases self.keys@.len() - i,
        {
            if self.keys[i] == wanted {
                return Some(i);
            }
            i += 1;
        }
        None
    }

    /// Whether `key` is in the map.
    pub fn contains_key(&self, key: &str) -> (r: bool)
        requires
            self.wf(),
        ensures
            r == self@.contains_key(key@),
    {
        match self.position(key) {
            Some(i) => {
                proof {
                    self.lemma_entry(i as int);
                }
                true
            },
            None => false,
        }
    }

    /// The value stored under `key`, if there is one.
    pub fn get(&self, key: &str) -> (r: Option<&T>)
        requires
            self.wf(),
        ensures
            match r {
                Some(v) => self@.contains_key(key@) && *v == self@[key@],
                None => !self@.contains_key(key@),
            },
    {
        match self.position(key) {
            Some(i) => {
                proof {
                    self.lemma_entry(i as int);
                }
                Some(&self.vals[i])
            },
            None => None,
        }
    }

    /// The key of the entry at position `i`.
    pub fn key_at(&self, i: usize) -> (k: &String)
        requires
            self.wf(),
            i < self.keys().len(),
        ensures
            k@ == self.keys()[i as int],
    {
        &self.keys[i]
    }

    /// The value of the entry at position `i`.
    pub fn value_at(&self, i: usize) -> (v: &T)
        requires
            self.wf(),
            i < self.keys().len(),
        ensures
            *v == self.values()[i as int],
    {
        &self.vals[i]
    }

    /// Replaces the value of the entry at position `i`.
    pub fn set_value_at(&mut self, i: usize, value: T)
        requires
            old(self).wf(),
            i < old(self).keys().len(),
        ensures
            final(self).wf(),
            final(self).keys() == old(self).keys(),
            final(self).values() == old(self).values().update(i as int, value),
            final(self)@ == old(self)@.insert(old(self).keys()[i as int], value),
    {
        let _ = self.replace_value_at(i, value);
    }

    /// Stores `value` under `key` and returns the value that was there.
    pub fn insert(&mut self, key: String, value: T) -> (r: Option<T>)
        requires
            old(self).wf(),
        ensures
            final(self).wf(),
            final(self)@ == old(self)@.insert(key@, value),
            r == (if old(self)@.contains_key(key@) {
                Some(old(self)@[key@])
            } else {
                None
            }),
    {
        match self.position(key.as_str()) {
            Some(i) => {
                proof {
                    self.lemma_entry(i as int);
                }
                Some(self.replace_value_at(i, value))
            },
            None => {
                self.push_new(key, value);
                None
            },
        }
    }

    /// Adds an entry for a key that the map does not hold yet.
    pub fn push_new(&mut self, key: String, value: T)
        requires
            old(self).wf(),
            !old(self)@.contains_key(key@),
        ensures
            final(self).wf(),
            final(self)@ == old(self)@.insert(key@, value),
            final(self).keys() == old(self).keys().push(key@),
            final(self).values() == old(self).values().push(value),
    {
        self.keys.push(key);
        self.vals.push(value);
        proof {
            assert(self.keys() =~= old(self).keys().push(key@));
            assert(!old(self).keys().contains(key@));
            let n = old(self).keys().len() as int;
            assert(self.keys().no_duplicates());
            assert forall|k: Seq<char>| self@.contains_key(k) implies #[trigger] self@[k] == old(
                self,
            )@.insert(key@, value)[k] by {
                self.lemma_slot(k);
                if k != key@ {
                    assert(self.slot(k) != n);
                    assert(old(self).keys()[self.slot(k)] == k);
                    old(self).lemma_entry(self.slot(k));
                }
            }
            assert forall|k: Seq<char>| old(self)@.insert(key@, value).contains_key(
                k,
            ) implies #[trigger] self@.contains_key(k) by {
                if k == key@ {
                    assert(self.keys()[n] == k);
                } else {
                    old(self).lemma_slot(k);
                    assert(self.keys()[old(self).slot(k)] == k);
                }
            }
            assert(self@ =~= old(self)@.insert(key@, value));
        }
    }

    /// Swaps `value` in for the value of the entry at position `i` and returns
    /// the value that was there.
    pub fn replace_value_at(&mut self, i: usize, value: T) -> (r: T)
        requires
            old(self).wf(),
            i < old(self).keys().len(),
        ensures
            final(self).wf(),
            r == old(self).values()[i as int],
            final(self).keys() == old(self).keys(),
            final(self).values() == old(self).values().update(i as int, value),
            final(self)@ == old(self)@.insert(old(self).keys()[i as int], value),
    {
        let mut value = value;
        let ghost given = value;
        self.vals.set_and_swap(i, &mut value);
        proof {
            assert(self.keys() == old(self).keys());
            let key = self.keys()[i as int];
            assert forall|k: Seq<char>| self@.contains_key(k) implies #[trigger] self@[k] == old(
                self,
            )@.insert(key, given)[k] by {
                self.lemma_slot(k);
                old(self).lemma_slot(k);
                old(self).lemma_entry(i as int);
            }
            assert(old(self).keys().contains(key));
            assert(self@ =~= old(self)@.insert(key, given));
        }
        value
    }

    /// Takes the entry at position `i` out of the map. The last entry moves
    /// into its place; the entries before position `i` stay where they are.
    pub fn remove_at(&mut self, i: usize) -> (r: (String, T))
        requires
            old(self).wf(),
            i < old(self).keys().len(),
        ensures
            final(self).wf(),
            r.0@ == old(self).keys()[i as int],
            r.1 == old(self).values()[i as int],
            final(self)@ == old(self)@.remove(r.0@),
            final(self).keys() == old(self).keys().update(
                i as int,
                old(self).keys().last(),
            ).drop_last(),
            final(self).values() == old(self).values().update(
                i as int,
                old(self).values().last(),
            ).drop_last(),
    {
        let key = self.keys.swap_remove(i);
        let value = self.vals.swap_remove(i);
        proof {
            let n = old(self).keys().len() as int;
            assert(self.keys() =~= old(self).keys().update(
                i as int,
                old(self).keys().last(),
            ).drop_last());
            assert forall|a: int| 0 <= a < n - 1 implies #[trigger] self.keys()[a] == old(
                self,
            ).keys()[if a == i { n - 1 } else { a }] by {}
            assert(self.keys().no_duplicates()) by {
                assert forall|a: int, b: int|
                    0 <= a < self.keys().len() && 0 <= b < self.keys().len() && a
                        != b implies self.keys()[a] != self.keys()[b] by {
                    let a0 = if a == i { n - 1 } else { a };
                    let b0 = if b == i { n - 1 } else { b };
                    assert(self.keys()[a] == old(self).keys()[a0]);
                    assert(self.keys()[b] == old(self).keys()[b0]);
                }
            }
            old(self).lemma_entry(i as int);
            assert forall|k: Seq<char>| self@.contains_key(k) implies old(self)@.remove(
                key@,
            ).contains_key(k) && #[trigger] self@[k] == old(self)@.remove(key@)[k] by {
                self.lemma_slot(k);
                let j = self.slot(k);
                let j0 = if j == i { n - 1 } else { j };
                assert(old(self).keys()[j0] == k);
                old(self).lemma_entry(j0);
            }
            assert forall|k: Seq<char>| old(self)@.remove(key@).contains_key(
                k,
            ) implies #[trigger] self@.contains_key(k) by {
                old(self).lemma_slot(k);
                let j0 = old(self).slot(k);
                assert(j0 != i);
                let j = if j0 == n - 1 { i as int } else { j0 };
                assert(self.keys()[j] == k);
            }
            assert(self@ =~= old(self)@.remove(key@));
        }
        (key, value)
    }

    /// Takes `key` and its value out of the map and returns the value.
    pub fn remove(&mut self, key: &str) -> (r: Option<T>)
        requires
            old(self).wf(),
        ensures
            final(self).wf(),
            final(self)@ == old(self)@.remove(key@),
            r == (if old(self)@.contains_key(key@) {
                Some(old(self)@[key@])
            } else {
                None
            }),
    {
        match self.position(key) {
            Some(i) => {
                proof {
                    self.lemma_entry(i as int);
                }
                let (_, value) = self.remove_at(i);
                Some(value)
            },
            None => {
                assert(self@ =~= self@.remove(key@));
                None
            },
        }
    }
}

} // verus!
