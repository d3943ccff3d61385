//! A map from texts to values, in a vector.

use vstd::prelude::*;

verus! {

/// Whether each key has one entry.
spec fn distinct_keys<T>(entries: Seq<(String, T)>) -> bool {
    forall|i: int, j: int|
        0 <= i < j < entries.len() ==> #[trigger] entries[i].0@ != #[trigger] entries[j].0@
}

/// The map that entries stand for.
spec fn map_of<T: View>(entries: Seq<(String, T)>) -> Map<Seq<char>, T::V> {
    Map::new(
        |key: Seq<char>| exists|i: int| 0 <= i < entries.len() && #[trigger] entries[i].0@ == key,
        |key: Seq<char>|
            entries[choose|i: int| 0 <= i < entries.len() && #[trigger] entries[i].0@ == key].1@,
    )
}

proof fn lemma_entry<T: View>(entries: Seq<(String, T)>, i: int)
    requires
        distinct_keys(entries),
        0 <= i < entries.len(),
    ensures
        map_of(entries).contains_key(entries[i].0@),
        map_of(entries)[entries[i].0@] == entries[i].1@,
{
    let key = entries[i].0@;
    let k = choose|k: int| 0 <= k < entries.len() && #[trigger] entries[k].0@ == key;
    if k < i {
        assert(entries[k].0@ != entries[i].0@);
    } else if i < k {
        assert(entries[i].0@ != entries[k].0@);
    }
}

/// A map that holds every entry and has an entry for each of its keys is the one they stand for.
proof fn lemma_map_of<T: View>(entries: Seq<(String, T)>, expected: Map<Seq<char>, T::V>)
    requires
        distinct_keys(entries),
        forall|i: int|
            0 <= i < entries.len() ==> {
                &&& expected.contains_key((#[trigger] entries[i]).0@)
                &&& expected[entries[i].0@] == entries[i].1@
            },
        forall|key: Seq<char>| #[trigger]
            expected.contains_key(key) ==> exists|i: int|
                0 <= i < entries.len() && #[trigger] entries[i].0@ == key,
    ensures
        map_of(entries) == expected,
{
    assert forall|key: Seq<char>| #[trigger] expected.contains_key(key) implies map_of(entries)[key]
        == expected[key] by {
        let i = choose|i: int| 0 <= i < entries.len() && #[trigger] entries[i].0@ == key;
        lemma_entry(entries, i);
        assert(expected[entries[i].0@] == entries[i].1@);
    }
    assert forall|key: Seq<char>| #[trigger] map_of(entries).contains_key(key) implies
        expected.contains_key(key) by {
        let i = choose|i: int| 0 <= i < entries.len() && #[trigger] entries[i].0@ == key;
        assert(expected.contains_key(entries[i].0@));
    }
    assert(map_of(entries) =~= expected);
}

/// Replacing the entry of a key, or adding one for a new key, sets the value of the key.
proof fn lemma_entry_set<T: View>(
    before: Seq<(String, T)>,
    after: Seq<(String, T)>,
    at: int,
)
    requires
        distinct_keys(before),
        0 <= at < after.len(),
        after == before.update(at, after[at]) && before[at].0@ == after[at].0@ && at < before.len()
            || after == before.push(after[at]) && at == before.len() && !map_of(
            before,
        ).contains_key(after[at].0@),
    ensures
        distinct_keys(after),
        map_of(after) == map_of(before).insert(after[at].0@, after[at].1@),
{
    let entry = after[at];
    let expected = map_of(before).insert(entry.0@, entry.1@);
    assert forall|k: int| 0 <= k < after.len() && k != at implies (#[trigger] after[k])
        == before[k] && after[k].0@ != entry.0@ by {
        assert(after[k] == before[k]);
        if at < before.len() {
            if k < at {
                assert(before[k].0@ != before[at].0@);
            } else {
                assert(before[at].0@ != before[k].0@);
            }
        }
    }
    assert forall|a: int, b: int| 0 <= a < b < after.len() implies #[trigger] after[a].0@
        != #[trigger] after[b].0@ by {
        if a != at && b != at {
            assert(after[a] == before[a] && after[b] == before[b]);
            assert(before[a].0@ != before[b].0@);
        }
    }
    assert forall|i: int| 0 <= i < after.len() implies {
        &&& expected.contains_key((#[trigger] after[i]).0@)
        &&& expected[after[i].0@] == after[i].1@
    } by {
        if i != at {
            lemma_entry(before, i);
        }
    }
    assert forall|key: Seq<char>| #[trigger] expected.contains_key(key) implies exists|i: int|
        0 <= i < after.len() && #[trigger] after[i].0@ == key by {
        if key == entry.0@ {
            assert(after[at].0@ == key);
        } else {
            assert(map_of(before).contains_key(key));
            let i = choose|i: int| 0 <= i < before.len() && #[trigger] before[i].0@ == key;
            assert(after[i].0@ == key);
        }
    }
    lemma_map_of(after, expected);
}

/// Taking the entry of a key out takes the key out.
proof fn lemma_entry_removed<T: View>(before: Seq<(String, T)>, at: int)
    requires
        distinct_keys(before),
        0 <= at < before.len(),
    ensures
        distinct_keys(before.remove(at)),
        map_of(before.remove(at)) == map_of(before).remove(before[at].0@),
{
    let after = before.remove(at);
    let expected = map_of(before).remove(before[at].0@);
    assert forall|a: int, b: int| 0 <= a < b < after.len() implies #[trigger] after[a].0@
        != #[trigger] after[b].0@ by {
        let from_a = if a < at {
            a
        } else {
            a + 1
        };
        let from_b = if b < at {
            b
        } else {
            b + 1
        };
        assert(before[from_a].0@ != before[from_b].0@);
    }
    assert forall|i: int| 0 <= i < after.len() implies {
        &&& expected.contains_key((#[trigger] after[i]).0@)
        &&& expected[after[i].0@] == after[i].1@
    } by {
        let from = if i < at {
            i
        } else {
            i + 1
        };
        assert(after[i] == before[from]);
        lemma_entry(before, from);
        if from < at {
            assert(before[from].0@ != before[at].0@);
        } else {
            assert(before[at].0@ != before[from].0@);
        }
    }
    assert forall|key: Seq<char>| #[trigger] expected.contains_key(key) implies exists|i: int|
        0 <= i < after.len() && #[trigger] after[i].0@ == key by {
        assert(map_of(before).contains_key(key));
        let i = choose|i: int| 0 <= i < before.len() && #[trigger] before[i].0@ == key;
        let to = if i < at {
            i
        } else {
            i - 1
        };
        assert(after[to] == before[i]);
        assert(after[to].0@ == key);
    }
    lemma_map_of(after, expected);
}

/// A map from texts to values.
pub struct TextMap<T> {
    entries: Vec<(String, T)>,
}

impl<T: View> View for TextMap<T> {
    type V = Map<Seq<char>, T::V>;

    closed spec fn view(&self) -> Map<Seq<char>, T::V> {
        map_of(self.entries@)
    }
}

impl<T> TextMap<T> {
    #[verifier::type_invariant]
    spec fn well_formed(self) -> bool {
        distinct_keys(self.entries@)
    }
}

impl<T: View> TextMap<T> {
    /// A map without keys.
    pub fn new() -> (map: TextMap<T>)
        ensures
            map@ == Map::<Seq<char>, T::V>::empty(),
    {
        let map = TextMap { entries: Vec::new() };
        assert(map@ =~= Map::<Seq<char>, T::V>::empty());
        map
    }

    /// The keys and their values.
    pub fn entries(&self) -> (entries: &Vec<(String, T)>)
        ensures
            forall|i: int|
                0 <= i < entries@.len() ==> {
                    &&& self@.contains_key((#[trigger] entries@[i]).0@)
                    &&& self@[entries@[i].0@] == entries@[i].1@
                },
            forall|key: Seq<char>| #[trigger]
                self@.contains_key(key) ==> exists|i: int|
                    0 <= i < entries@.len() && #[trigger] entries@[i].0@ == key,
            forall|i: int, j: int|
                0 <= i < j < entries@.len() ==> #[trigger] entries@[i].0@
                    != #[trigger] entries@[j].0@,
    {
        proof {
            use_type_invariant(self);
            assert forall|i: int| 0 <= i < self.entries@.len() implies {
                &&& self@.contains_key((#[trigger] self.entries@[i]).0@)
                &&& self@[self.entries@[i].0@] == self.entries@[i].1@
            } by {
                lemma_entry(self.entries@, i);
            }
        }
        &self.entries
    }

    fn position(&self, key: &String) -> (position: Option<usize>)
        ensures
            position matches Some(i) ==> {
                &&& i < self.entries@.len()
                &&& self.entries@[i as int].0@ == key@
            },
            position is None ==> !self@.contains_key(key@),
    {
        let mut i: usize = 0;
        while i < self.entries.len()
            invariant
                0 <= i <= self.entries@.len(),
                forall|k: int| 0 <= k < i ==> #[trigger] self.entries@[k].0@ != key@,
            decreases self.entries.len() - i,
        {
            if self.entries[i].0 == *key {
                return Some(i);
            }
            i = i + 1;
        }
        None
    }

    /// The value of `key`.
    pub fn get(&self, key: &str) -> (value: Option<&T>)
        ensures
            value is Some == self@.contains_key(key@),
            value matches Some(v) ==> v@ == self@[key@],
    {
        let key = key.to_string();
        match self.position(&key) {
            Some(i) => {
                proof {
                    use_type_invariant(self);
                    lemma_entry(self.entries@, i as int);
                }
                Some(&self.entries[i].1)
            },
            None => None,
        }
    }

    /// Sets the value of `key`.
    pub fn insert(&mut self, key: &str, value: T)
        ensures
            final(self)@ == old(self)@.insert(key@, value@),
    {
        proof {
            use_type_invariant(&*self);
        }
        let key = key.to_string();
        let position = self.position(&key);
        let mut entries: Vec<(String, T)> = Vec::new();
        std::mem::swap(&mut entries, &mut self.entries);
        let ghost before = entries@;
        match position {
            Some(i) => {
                entries.set(i, (key, value));
                proof {
                    lemma_entry_set(before, entries@, i as int);
                }
            },
            None => {
                entries.push((key, value));
                proof {
                    lemma_entry_set(before, entries@, before.len() as int);
                }
            },
        }
        self.entries = entries;
    }

    /// Takes `key` out.
    pub fn remove(&mut self, key: &str)
        ensures
            final(self)@ == old(self)@.remove(key@),
    {
        proof {
            use_type_invariant(&*self);
        }
        let key = key.to_string();
        match self.position(&key) {
            Some(i) => {
                let mut entries: Vec<(String, T)> = Vec::new();
                std::mem::swap(&mut entries, &mut self.entries);
                proof {
                    lemma_entry_removed(entries@, i as int);
                }
                entries.remove(i);
                self.entries = entries;
            },
            None => {
                assert(self@.remove(key@) =~= self@);
            },
        }
    }
}

} // verus!
