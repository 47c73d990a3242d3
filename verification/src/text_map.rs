//! A map with string keys.

use vstd::prelude::*;

use crate::text;

verus! {

/// A map from strings to values. Its entries are held one after the other, so
/// it is meant for the few keys that one cell has.
pub struct TextMap<V> {
    entries: Vec<(String, V)>,
}

spec fn holds<V>(entries: Seq<(String, V)>, key: Seq<char>, i: int) -> bool {
    0 <= i < entries.len() && entries[i].0@ == key
}

spec fn as_map<V>(entries: Seq<(String, V)>) -> Map<Seq<char>, V> {
    Map::new(
        |key: Seq<char>| exists|i: int| holds(entries, key, i),
        |key: Seq<char>| entries[choose|i: int| holds(entries, key, i)].1,
    )
}

spec fn distinct<V>(entries: Seq<(String, V)>) -> bool {
    forall|i: int, j: int|
        0 <= i < j < entries.len() ==> #[trigger] entries[i].0@ != #[trigger] entries[j].0@
}

proof fn lemma_entry<V>(entries: Seq<(String, V)>, i: int)
    requires
        distinct(entries),
        0 <= i < entries.len(),
    ensures
        as_map(entries).dom().contains(entries[i].0@),
        as_map(entries)[entries[i].0@] == entries[i].1,
{
    let key = entries[i].0@;
    assert(holds(entries, key, i));
    let k = choose|k: int| holds(entries, key, k);
    assert(holds(entries, key, k));
    assert(k == i);
}

proof fn lemma_same_map<V>(entries: Seq<(String, V)>, m: Map<Seq<char>, V>)
    requires
        distinct(entries),
        forall|i: int| #![trigger entries[i]]
            0 <= i < entries.len() ==> m.dom().contains(entries[i].0@) && m[entries[i].0@]
                == entries[i].1,
        forall|key: Seq<char>| #[trigger]
            m.dom().contains(key) ==> exists|i: int| holds(entries, key, i),
    ensures
        as_map(entries) == m,
{
    assert forall|key: Seq<char>| #[trigger] as_map(entries).dom().contains(key) implies m.dom().contains(
        key,
    ) && as_map(entries)[key] == m[key] by {
        let k = choose|k: int| holds(entries, key, k);
        assert(holds(entries, key, k));
        lemma_entry(entries, k);
    }
    assert(as_map(entries) =~= m);
}

impl<V> TextMap<V> {
    pub closed spec fn view(&self) -> Map<Seq<char>, V> {
        as_map(self.entries@)
    }

    /// The keys in the order in which the entries are held.
    pub closed spec fn keys(&self) -> Seq<Seq<char>> {
        self.entries@.map_values(|e: (String, V)| e.0@)
    }

    /// Each key is held once.
    pub closed spec fn wf(&self) -> bool {
        distinct(self.entries@)
    }

    pub fn new() -> (map: Self)
        ensures
            map.wf(),
            map@ == Map::<Seq<char>, V>::empty(),
    {
        let map = TextMap { entries: Vec::new() };
        proof {
            lemma_same_map(map.entries@, Map::<Seq<char>, V>::empty());
        }
        map
    }

    fn find(&self, key: &str) -> (at: Option<usize>)
        requires
            self.wf(),
        ensures
            match at {
                Some(i) => i < self.entries@.len() && self.entries@[i as int].0@ == key@
                    && self@.dom().contains(key@) && self@[key@] == self.entries@[i as int].1,
                None => !self@.dom().contains(key@),
            },
    {
        let mut i: usize = 0;
        while i < self.entries.len()
            invariant
                self.wf(),
                i <= self.entries@.len(),
                forall|j: int| 0 <= j < i ==> self.entries@[j].0@ != key@,
            decreases self.entries@.len() - i,
        {
            if text::same_text(&self.entries[i].0, key) {
                proof {
                    lemma_entry(self.entries@, i as int);
                }
                return Some(i);
            }
            i = i + 1;
        }
        None
    }

    pub fn contains_key(&self, key: &str) -> (answer: bool)
        requires
            self.wf(),
        ensures
            answer == self@.dom().contains(key@),
    {
        self.find(key).is_some()
    }

    pub fn get(&self, key: &str) -> (value: Option<&V>)
        requires
            self.wf(),
        ensures
            match value {
                Some(value) => self@.dom().contains(key@) && *value == self@[key@],
                None => !self@.dom().contains(key@),
            },
    {
        match self.find(key) {
            Some(i) => Some(&self.entries[i].1),
            None => None,
        }
    }

    /// Set the value of a key. Answers the value that it had.
    pub fn insert(&mut self, key: &str, value: V) -> (previous: Option<V>)
        requires
            old(self).wf(),
        ensures
            final(self).wf(),
            final(self)@ == old(self)@.insert(key@, value),
            previous == (if old(self)@.dom().contains(key@) {
                Some(old(self)@[key@])
            } else {
                None
            }),
    {
        let previous = self.remove(key);
        let ghost before = self.entries@;
        let ghost m = self@;
        self.entries.push((key.to_owned(), value));
        proof {
            let after = self.entries@;
            let n = before.len() as int;
            assert forall|i: int, j: int| 0 <= i < j < after.len() implies #[trigger] after[i].0@
                != #[trigger] after[j].0@ by {
                if j == n {
                    lemma_entry(before, i);
                }
            }
            assert forall|i: int| #![trigger after[i]] 0 <= i < after.len() implies m.insert(
                key@,
                value,
            ).dom().contains(after[i].0@) && m.insert(key@, value)[after[i].0@] == after[i].1 by {
                if i < n {
                    lemma_entry(before, i);
                }
            }
            assert forall|k: Seq<char>| #[trigger]
                m.insert(key@, value).dom().contains(k) implies exists|i: int|
                holds(after, k, i) by {
                if k == key@ {
                    assert(holds(after, k, n));
                } else {
                    let i = choose|i: int| holds(before, k, i);
                    assert(holds(before, k, i));
                    assert(holds(after, k, i));
                }
            }
            lemma_same_map(after, m.insert(key@, value));
            assert(m.insert(key@, value) =~= old(self)@.insert(key@, value));
        }
        previous
    }

    /// Drop a key. Answers the value that it had.
    pub fn remove(&mut self, key: &str) -> (value: Option<V>)
        requires
            old(self).wf(),
        ensures
            final(self).wf(),
            final(self)@ == old(self)@.remove(key@),
            final(self).keys().len() == old(self).keys().len() - (if old(self)@.dom().contains(
                key@,
            ) {
                1int
            } else {
                0int
            }),
            value == (if old(self)@.dom().contains(key@) {
                Some(old(self)@[key@])
            } else {
                None
            }),
    {
        match self.find(key) {
            None => {
                assert(self@ =~= old(self)@.remove(key@));
                None
            },
            Some(at) => {
                let ghost before = self.entries@;
                let ghost m = self@;
                let (_, value) = self.entries.remove(at);
                proof {
                    let after = self.entries@;
                    assert forall|i: int, j: int| 0 <= i < j < after.len() implies #[trigger] after[i].0@
                        != #[trigger] after[j].0@ by {
                        let x = if i < at {
                            i
                        } else {
                            i + 1
                        };
                        let y = if j < at {
                            j
                        } else {
                            j + 1
                        };
                        assert(after[i] == before[x] && after[j] == before[y]);
                    }
                    assert forall|i: int| #![trigger after[i]] 0 <= i < after.len() implies m.remove(
                        key@,
                    ).dom().contains(after[i].0@) && m.remove(key@)[after[i].0@] == after[i].1 by {
                        let x = if i < at {
                            i
                        } else {
                            i + 1
                        };
                        assert(after[i] == before[x]);
                        assert(before[x].0@ != before[at as int].0@);
                        lemma_entry(before, x);
                    }
                    assert forall|k: Seq<char>| #[trigger]
                        m.remove(key@).dom().contains(k) implies exists|i: int|
                        holds(after, k, i) by {
                        let i = choose|i: int| holds(before, k, i);
                        assert(holds(before, k, i));
                        if i < at {
                            assert(holds(after, k, i));
                        } else {
                            assert(holds(after, k, i - 1));
                        }
                    }
                    lemma_same_map(after, m.remove(key@));
                }
                Some(value)
            },
        }
    }

    /// Whether the map has no entry.
    pub fn is_empty(&self) -> (answer: bool)
        requires
            self.wf(),
        ensures
            answer == (self@ == Map::<Seq<char>, V>::empty()),
    {
        if self.entries.len() > 0 {
            proof {
                lemma_entry(self.entries@, 0);
            }
            return false;
        }
        assert(self@ =~= Map::<Seq<char>, V>::empty());
        true
    }

    /// The number of entries.
    pub fn len(&self) -> (n: usize)
        ensures
            n == self.keys().len(),
    {
        self.entries.len()
    }

    /// The key of the entry held at `i`.
    pub fn key(&self, i: usize) -> (key: &String)
        requires
            self.wf(),
            i < self.keys().len(),
        ensures
            key@ == self.keys()[i as int],
            self@.dom().contains(key@),
    {
        proof {
            lemma_entry(self.entries@, i as int);
        }
        &self.entries[i].0
    }

    /// Every key is held somewhere.
    pub proof fn lemma_keys(&self)
        requires
            self.wf(),
        ensures
            self.keys().no_duplicates(),
            forall|key: Seq<char>|
                self@.dom().contains(key) <==> #[trigger] self.keys().contains(key),
    {
        assert forall|i: int, j: int|
            0 <= i < self.keys().len() && 0 <= j < self.keys().len() && i
                != j implies #[trigger] self.keys()[i] != #[trigger] self.keys()[j] by {
            assert(self.keys()[i] == self.entries@[i].0@);
            assert(self.keys()[j] == self.entries@[j].0@);
        }
        assert forall|key: Seq<char>|
            self@.dom().contains(key) <==> #[trigger] self.keys().contains(key) by {
            if self@.dom().contains(key) {
                let i = choose|i: int| holds(self.entries@, key, i);
                assert(holds(self.entries@, key, i));
                assert(self.keys()[i] == key);
            }
            if self.keys().contains(key) {
                let i = choose|i: int| 0 <= i < self.keys().len() && self.keys()[i] == key;
                lemma_entry(self.entries@, i);
            }
        }
    }
}

} // verus!
