//! A small map from string keys to values, kept as a list of entries in
//! insertion order with no key twice.
use vstd::prelude::*;

verus! {

/// Entries `(key, value)`; `wf` holds when no key occurs twice.
pub struct KeyMap<V> {
    pub entries: Vec<(String, V)>,
}

impl<V> KeyMap<V> {
    /// The keys, in entry order.
    pub open spec fn keys(&self) -> Seq<Seq<char>> {
        self.entries@.map_values(|e: (String, V)| e.0@)
    }

    /// No key occurs twice.
    pub open spec fn wf(&self) -> bool {
        self.keys().no_duplicates()
    }

    /// The value stored under `k`, when there is one.
    pub open spec fn view(&self) -> Map<Seq<char>, V> {
        Map::new(
            |k: Seq<char>| self.keys().contains(k),
            |k: Seq<char>| self.entries@[self.keys().index_of(k)].1,
        )
    }

    pub proof fn lemma_entry(&self, i: int)
        requires
            self.wf(),
            0 <= i < self.entries@.len(),
        ensures
            self.keys()[i] == self.entries@[i].0@,
            self.keys().index_of(self.keys()[i]) == i,
            self@.contains_key(self.entries@[i].0@),
            self@[self.entries@[i].0@] == self.entries@[i].1,
    {
        let k = self.keys()[i];
        assert(self.keys().contains(k));
        let j = self.keys().index_of(k);
        assert(self.keys()[j] == k);
    }

    pub fn new() -> (m: Self)
        ensures
            m.wf(),
            m.entries@.len() == 0,
            m@ == Map::<Seq<char>, V>::empty(),
    {
        let m = KeyMap { entries: Vec::new() };
        assert(m@ =~= Map::<Seq<char>, V>::empty());
        m
    }

    pub fn len(&self) -> (n: usize)
        ensures
            n == self.entries@.len(),
    {
        self.entries.len()
    }

    /// The position of `k` among the entries.
    pub fn position(&self, k: &String) -> (r: Option<usize>)
        requires
            self.wf(),
        ensures
            match r {
                Some(i) => i < self.entries@.len() && self.entries@[i as int].0@ == k@
                    && self.keys().index_of(k@) == i,
                None => !self@.contains_key(k@),
            },
    {
        let n = self.entries.len();
        let mut i: usize = 0;
        while i < n
            invariant
                self.wf(),
                n == self.entries@.len(),
                i <= n,
                forall|j: int| 0 <= j < i ==> self.entries@[j].0@ != k@,
            decreases n - i,
        {
            if self.entries[i].0 == *k {
                proof {
                    self.lemma_entry(i as int);
                }
                return Some(i);
            }
            i = i + 1;
        }
        proof {
            if self.keys().contains(k@) {
                let j = self.keys().index_of(k@);
                assert(self.keys()[j] == self.entries@[j].0@);
            }
        }
        None
    }

    pub fn contains_key(&self, k: &String) -> (b: bool)
        requires
            self.wf(),
        ensures
            b == self@.contains_key(k@),
    {
        match self.position(k) {
            Some(i) => {
                proof {
                    self.lemma_entry(i as int);
                }
                true
            },
            None => false,
        }
    }

    pub fn get(&self, k: &String) -> (r: Option<&V>)
        requires
            self.wf(),
        ensures
            r == (if self@.contains_key(k@) {
                Some(&self@[k@])
            } else {
                None::<&V>
            }),
    {
        match self.position(k) {
            Some(i) => {
                proof {
                    self.lemma_entry(i as int);
                }
                Some(&self.entries[i].1)
            },
            None => None,
        }
    }

    /// Sets the value under `k`: in place when `k` is present, as a new last
    /// entry otherwise.
    pub fn insert(&mut self, k: String, v: V)
        requires
            old(self).wf(),
        ensures
            final(self).wf(),
            final(self)@ == old(self)@.insert(k@, v),
            old(self)@.contains_key(k@) ==> final(self).keys() == old(self).keys(),
            !old(self)@.contains_key(k@) ==> final(self).keys() == old(self).keys().push(k@),
    {
        let ghost k_view = k@;
        match self.position(&k) {
            Some(i) => {
                proof {
                    self.lemma_entry(i as int);
                }
                let ghost before = self.entries@;
                self.entries.set(i, (k, v));
                assert(self.keys() =~= old(self).keys());
                assert(self@ =~= old(self)@.insert(k_view, v)) by {
                    assert forall|key: Seq<char>| #[trigger] self@.contains_key(key) implies self@[key]
                        == old(self)@.insert(k_view, v)[key] by {
                        let j = self.keys().index_of(key);
                        assert(self.keys().contains(key));
                        assert(self.keys()[j] == key);
                        old(self).lemma_entry(j);
                        self.lemma_entry(j);
                    }
                }
            },
            None => {
                self.entries.push((k, v));
                assert(self.keys() =~= old(self).keys().push(k_view));
                assert(self.wf()) by {
                    assert forall|a: int, b: int|
                        0 <= a < b < self.keys().len() implies self.keys()[a] != self.keys()[b] by {
                        if b == self.keys().len() - 1 {
                            assert(old(self).keys().contains(self.keys()[a]));
                        }
                    }
                }
                assert(self@ =~= old(self)@.insert(k_view, v)) by {
                    assert forall|key: Seq<char>| #[trigger] self@.contains_key(key) implies self@[key]
                        == old(self)@.insert(k_view, v)[key] by {
                        let j = self.keys().index_of(key);
                        assert(self.keys().contains(key));
                        assert(self.keys()[j] == key);
                        self.lemma_entry(j);
                        if j < old(self).keys().len() {
                            old(self).lemma_entry(j);
                        }
                    }
                    assert forall|key: Seq<char>|
                        old(self)@.insert(k_view, v).contains_key(key) implies #[trigger] self@.contains_key(key) by {
                        if key != k_view {
                            assert(old(self).keys().contains(key));
                            let j = old(self).keys().index_of(key);
                            assert(self.keys()[j] == key);
                        } else {
                            assert(self.keys()[self.keys().len() - 1] == key);
                        }
                    }
                }
            },
        }
    }
}

impl<T> KeyMap<Vec<T>> {
    /// Each key's list, as a sequence.
    pub open spec fn lists(&self) -> Map<Seq<char>, Seq<T>> {
        self@.map_values(|v: Vec<T>| v@)
    }

    /// The list under `k`, empty when `k` is absent.
    pub open spec fn list_of(&self, k: Seq<char>) -> Seq<T> {
        if self@.contains_key(k) {
            self@[k]@
        } else {
            Seq::empty()
        }
    }

    /// Appends `item` to the list under `k`, starting a new list (as a new
    /// last entry) when `k` is absent.
    pub fn push_value(&mut self, k: String, item: T)
        requires
            old(self).wf(),
        ensures
            final(self).wf(),
            final(self)@.dom() == old(self)@.dom().insert(k@),
            final(self)@[k@]@ == old(self).list_of(k@).push(item),
            forall|other: Seq<char>| other != k@ && old(self)@.contains_key(other) ==> final(self)@[other]
                == old(self)@[other],
    {
        let ghost k_view = k@;
        match self.position(&k) {
            Some(i) => {
                proof {
                    self.lemma_entry(i as int);
                }
                let (kk, mut list) = self.entries.remove(i);
                list.push(item);
                let ghost new_list = list;
                self.entries.insert(i, (kk, list));
                assert(self.entries@ =~= old(self).entries@.update(i as int, (kk, new_list)));
                assert(self.keys() =~= old(self).keys());
                assert forall|key: Seq<char>| #[trigger] self@.contains_key(key) implies self@[key] == (
                if key == k_view {
                    new_list
                } else {
                    old(self)@[key]
                }) by {
                    let j = self.keys().index_of(key);
                    assert(self.keys().contains(key));
                    assert(self.keys()[j] == key);
                    old(self).lemma_entry(j);
                    self.lemma_entry(j);
                }
                assert(self@.dom() =~= old(self)@.dom().insert(k_view));
            },
            None => {
                let mut list: Vec<T> = Vec::new();
                list.push(item);
                let ghost new_list = list;
                self.entries.push((k, list));
                assert(self.keys() =~= old(self).keys().push(k_view));
                assert(self.wf()) by {
                    assert forall|a: int, b: int|
                        0 <= a < b < self.keys().len() implies self.keys()[a] != self.keys()[b] by {
                        if b == self.keys().len() - 1 {
                            assert(old(self).keys().contains(self.keys()[a]));
                        }
                    }
                }
                assert forall|key: Seq<char>| #[trigger] self@.contains_key(key) implies self@[key] == (
                if key == k_view {
                    new_list
                } else {
                    old(self)@[key]
                }) by {
                    let j = self.keys().index_of(key);
                    assert(self.keys().contains(key));
                    assert(self.keys()[j] == key);
                    self.lemma_entry(j);
                    if j < old(self).keys().len() {
                        old(self).lemma_entry(j);
                    }
                }
                assert forall|key: Seq<char>|
                    old(self)@.dom().insert(k_view).contains(key) implies #[trigger] self@.contains_key(key) by {
                    if key != k_view {
                        assert(old(self).keys().contains(key));
                        let j = old(self).keys().index_of(key);
                        assert(self.keys()[j] == key);
                    } else {
                        assert(self.keys()[self.keys().len() - 1] == key);
                    }
                }
                assert(self@.dom() =~= old(self)@.dom().insert(k_view));
            },
        }
    }
}

} // verus!
