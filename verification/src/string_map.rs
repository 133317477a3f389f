//! A map from text to values.

use crate::text::{same_text, texts};
use vstd::prelude::*;

verus! {

/// Entries with distinct keys, in no particular order.
#[derive(Debug)]
pub struct StringMap<V> {
    entries: Vec<(String, V)>,
}

spec fn distinct_keys<V>(entries: Seq<(String, V)>) -> bool {
    forall|i: int, j: int|
        0 <= i < j < entries.len() ==> (#[trigger] entries[i]).0@ != (#[trigger] entries[j]).0@
}

/// `entries` has an entry for `key`.
spec fn has_key<V>(entries: Seq<(String, V)>, key: Seq<char>) -> bool {
    exists|i: int| 0 <= i < entries.len() && (#[trigger] entries[i]).0@ == key
}

/// The place of the entry for `key`.
spec fn place<V>(entries: Seq<(String, V)>, key: Seq<char>) -> int {
    choose|i: int| 0 <= i < entries.len() && (#[trigger] entries[i]).0@ == key
}

spec fn contents<V: View>(entries: Seq<(String, V)>) -> Map<Seq<char>, V::V> {
    Map::new(|key: Seq<char>| has_key(entries, key), |key: Seq<char>| entries[place(entries, key)].1@)
}

/// What a list of entries holds.
pub open spec fn entry_views<V: View>(entries: Seq<(String, V)>) -> Seq<(Seq<char>, V::V)> {
    entries.map_values(|entry: (String, V)| (entry.0@, entry.1@))
}

/// `entries` lists `map`: every key of it once, with its value.
pub open spec fn lists_map<T>(entries: Seq<(Seq<char>, T)>, map: Map<Seq<char>, T>) -> bool {
    &&& forall|i: int, j: int|
        0 <= i < j < entries.len() ==> (#[trigger] entries[i]).0 != (#[trigger] entries[j]).0
    &&& forall|i: int|
        0 <= i < entries.len() ==> map.contains_key((#[trigger] entries[i]).0) && map[entries[i].0]
            == entries[i].1
    &&& forall|key: Seq<char>| #[trigger]
        map.contains_key(key) ==> exists|i: int|
            0 <= i < entries.len() && (#[trigger] entries[i]).0 == key
}

proof fn lemma_entry<V: View>(entries: Seq<(String, V)>, i: int)
    requires
        distinct_keys(entries),
        0 <= i < entries.len(),
    ensures
        contents(entries).contains_key(entries[i].0@),
        contents(entries)[entries[i].0@] == entries[i].1@,
{
    let key = entries[i].0@;
    assert(has_key(entries, key));
    let j = place(entries, key);
    assert(i == j);
}

/// The place of the entry for `key`, if there is one.
fn find<V>(entries: &Vec<(String, V)>, key: &str) -> (found: Option<usize>)
    ensures
        match found {
            Some(i) => i < entries@.len() && entries@[i as int].0@ == key@,
            None => !has_key(entries@, key@),
        },
{
    let mut i: usize = 0;
    while i < entries.len()
        invariant
            i <= entries@.len(),
            forall|j: int| 0 <= j < i ==> (#[trigger] entries@[j]).0@ != key@,
        decreases entries@.len() - i,
    {
        if same_text(entries[i].0.as_str(), key) {
            return Some(i);
        }
        i = i + 1;
    }
    None
}

impl<V: View> View for StringMap<V> {
    type V = Map<Seq<char>, V::V>;

    closed spec fn view(&self) -> Map<Seq<char>, V::V> {
        contents(self.entries@)
    }
}

impl<V> StringMap<V> {
    #[verifier::type_invariant]
    spec fn keys_are_distinct(&self) -> bool {
        distinct_keys(self.entries@)
    }
}

impl<V: View> StringMap<V> {
    /// The empty map.
    pub fn new() -> (map: Self)
        ensures
            map@ == Map::<Seq<char>, V::V>::empty(),
    {
        let map = StringMap { entries: Vec::new() };
        assert(map@ =~= Map::<Seq<char>, V::V>::empty());
        map
    }

    /// The value stored under `key`.
    pub fn get(&self, key: &str) -> (value: Option<&V>)
        ensures
            match value {
                Some(v) => self@.contains_key(key@) && v@ == self@[key@],
                None => !self@.contains_key(key@),
            },
    {
        proof {
            use_type_invariant(self);
        }
        match find(&self.entries, key) {
            Some(i) => {
                proof {
                    lemma_entry(self.entries@, i as int);
                }
                Some(&self.entries[i].1)
            },
            None => None,
        }
    }

    /// Stores `value` under `key`, in place of what was stored there.
    pub fn insert(&mut self, key: String, value: V)
        ensures
            final(self)@ == old(self)@.insert(key@, value@),
    {
        proof {
            use_type_invariant(&*self);
        }
        let mut entries: Vec<(String, V)> = Vec::new();
        std::mem::swap(&mut entries, &mut self.entries);
        let ghost before = entries@;
        let ghost k = key@;
        let ghost v = value@;
        match find(&entries, key.as_str()) {
            Some(i) => {
                entries.set(i, (key, value));
                proof {
                    lemma_replaced(before, entries@, i as int);
                }
            },
            None => {
                entries.push((key, value));
                proof {
                    assert(entries@.drop_last() =~= before);
                    lemma_appended(before, entries@);
                }
            },
        }
        self.entries = entries;
        assert(self@ == old(self)@.insert(k, v));
    }

    /// Drops what is stored under `key`.
    pub fn remove(&mut self, key: &str)
        ensures
            final(self)@ == old(self)@.remove(key@),
    {
        proof {
            use_type_invariant(&*self);
        }
        let mut entries: Vec<(String, V)> = Vec::new();
        std::mem::swap(&mut entries, &mut self.entries);
        let ghost before = entries@;
        match find(&entries, key) {
            Some(i) => {
                entries.remove(i);
                proof {
                    lemma_removed(before, entries@, i as int);
                }
            },
            None => {
                assert(contents(before).remove(key@) =~= contents(before));
            },
        }
        self.entries = entries;
    }

    /// The keys, each once.
    pub fn keys(&self) -> (keys: Vec<String>)
        ensures
            texts(keys@).no_duplicates(),
            forall|key: Seq<char>| texts(keys@).contains(key) <==> self@.contains_key(key),
            forall|i: int, j: int|
                0 <= i < j < keys@.len() ==> (#[trigger] keys@[i])@ != (#[trigger] keys@[j])@,
            forall|i: int| 0 <= i < keys@.len() ==> self@.contains_key((#[trigger] keys@[i])@),
            forall|key: Seq<char>| #[trigger]
                self@.contains_key(key) ==> exists|i: int| 0 <= i < keys@.len() && (#[trigger] keys@[i])@ == key,
    {
        proof {
            use_type_invariant(self);
        }
        let mut keys: Vec<String> = Vec::new();
        let mut i: usize = 0;
        while i < self.entries.len()
            invariant
                i <= self.entries@.len(),
                keys@.len() == i,
                forall|j: int| 0 <= j < i ==> (#[trigger] keys@[j])@ == self.entries@[j].0@,
            decreases self.entries@.len() - i,
        {
            keys.push(self.entries[i].0.clone());
            i = i + 1;
        }
        proof {
            let entries = self.entries@;
            let listed = texts(keys@);
            assert(forall|j: int| 0 <= j < listed.len() ==> #[trigger] listed[j] == entries[j].0@);
            assert forall|key: Seq<char>| listed.contains(key) == self@.contains_key(key) by {
                if self@.contains_key(key) {
                    let j = place(entries, key);
                    assert(listed[j] == key);
                }
                if listed.contains(key) {
                    let j = choose|j: int| 0 <= j < listed.len() && listed[j] == key;
                    assert(entries[j].0@ == key);
                }
            }
            assert forall|i: int| 0 <= i < keys@.len() implies self@.contains_key((#[trigger] keys@[i])@) by {
                lemma_entry(entries, i);
            }
            assert forall|key: Seq<char>| #[trigger] self@.contains_key(key) implies exists|i: int|
                0 <= i < keys@.len() && (#[trigger] keys@[i])@ == key by {
                assert(keys@[place(entries, key)]@ == key);
            }
        }
        keys
    }

    /// The entries, one for each key.
    pub fn into_entries(self) -> (entries: Vec<(String, V)>)
        ensures
            lists_map(entry_views(entries@), self@),
            forall|i: int, j: int|
                0 <= i < j < entries@.len() ==> (#[trigger] entries@[i]).0@ != (#[trigger] entries@[j]).0@,
            forall|i: int|
                0 <= i < entries@.len() ==> self@.contains_key((#[trigger] entries@[i]).0@)
                    && self@[entries@[i].0@] == entries@[i].1@,
            forall|key: Seq<char>| #[trigger]
                self@.contains_key(key) ==> exists|i: int|
                    0 <= i < entries@.len() && (#[trigger] entries@[i]).0@ == key,
    {
        proof {
            use_type_invariant(&self);
            let views = entry_views(self.entries@);
            assert forall|i: int| 0 <= i < views.len() implies self@.contains_key(
                (#[trigger] views[i]).0,
            ) && self@[views[i].0] == views[i].1 by {
                lemma_entry(self.entries@, i);
            }
            assert forall|key: Seq<char>| #[trigger]
                self@.contains_key(key) implies exists|i: int|
                0 <= i < views.len() && (#[trigger] views[i]).0 == key by {
                let i = place(self.entries@, key);
                assert(views[i].0 == key);
            }
            assert forall|i: int| 0 <= i < self.entries@.len() implies self@.contains_key(
                (#[trigger] self.entries@[i]).0@,
            ) && self@[self.entries@[i].0@] == self.entries@[i].1@ by {
                lemma_entry(self.entries@, i);
            }
        }
        self.entries
    }
}

impl<V: View + Clone> Clone for StringMap<V> {
    fn clone(&self) -> (copy: Self)
        ensures
            copy@.dom() == self@.dom(),
            forall|key: Seq<char>| #[trigger]
                self@.contains_key(key) ==> exists|a: V, b: V|
                    a@ == self@[key] && b@ == copy@[key] && #[trigger] cloned(a, b),
    {
        proof {
            use_type_invariant(self);
        }
        let mut entries: Vec<(String, V)> = Vec::new();
        let mut i: usize = 0;
        while i < self.entries.len()
            invariant
                i <= self.entries@.len(),
                entries@.len() == i,
                distinct_keys(self.entries@),
                forall|j: int|
                    0 <= j < i ==> (#[trigger] entries@[j]).0@ == self.entries@[j].0@ && cloned(
                        self.entries@[j].1,
                        entries@[j].1,
                    ),
            decreases self.entries@.len() - i,
        {
            let entry = &self.entries[i];
            entries.push((entry.0.clone(), entry.1.clone()));
            i = i + 1;
        }
        let copy = StringMap { entries };
        proof {
            let (ours, theirs) = (self.entries@, copy.entries@);
            assert forall|key: Seq<char>| has_key(ours, key) == has_key(theirs, key) by {
                if has_key(ours, key) {
                    assert(theirs[place(ours, key)].0@ == key);
                }
                if has_key(theirs, key) {
                    assert(ours[place(theirs, key)].0@ == key);
                }
            }
            assert(copy@.dom() =~= self@.dom());
            assert forall|key: Seq<char>| #[trigger] self@.contains_key(key) implies exists|a: V, b: V|
                a@ == self@[key] && b@ == copy@[key] && #[trigger] cloned(a, b) by {
                let j = place(ours, key);
                lemma_entry(ours, j);
                lemma_entry(theirs, j);
                assert(cloned(ours[j].1, theirs[j].1));
            }
        }
        copy
    }
}

/// A map holds finitely many keys.
pub proof fn lemma_string_map_is_finite<V: View>(map: StringMap<V>)
    ensures
        map@.dom().finite(),
{
    let keys = map.entries@.map_values(|entry: (String, V)| entry.0@);
    assert forall|key: Seq<char>| map@.dom().contains(key) implies keys.to_set().contains(key) by {
        let i = place(map.entries@, key);
        assert(keys[i] == key);
    }
    assert forall|key: Seq<char>| keys.to_set().contains(key) implies map@.dom().contains(key) by {
        let i = choose|i: int| 0 <= i < keys.len() && keys[i] == key;
        assert(map.entries@[i].0@ == key);
    }
    assert(map@.dom() =~= keys.to_set());
    vstd::seq_lib::seq_to_set_is_finite(keys);
}

proof fn lemma_appended<V: View>(before: Seq<(String, V)>, after: Seq<(String, V)>)
    requires
        distinct_keys(before),
        after.len() == before.len() + 1,
        after.drop_last() == before,
        !has_key(before, after.last().0@),
    ensures
        distinct_keys(after),
        contents(after) == contents(before).insert(after.last().0@, after.last().1@),
{
    assert(forall|i: int| 0 <= i < before.len() ==> #[trigger] after[i] == before[i]);
    let expected = contents(before).insert(after.last().0@, after.last().1@);
    assert forall|key: Seq<char>| contents(after).contains_key(key) == expected.contains_key(key) by {
        if has_key(before, key) {
            assert(after[place(before, key)].0@ == key);
        }
        if has_key(after, key) && key != after.last().0@ {
            assert(before[place(after, key)].0@ == key);
        }
        if key == after.last().0@ {
            assert(after[before.len() as int].0@ == key);
        }
    }
    assert forall|key: Seq<char>| #[trigger] contents(after).contains_key(key) implies contents(after)[key]
        == expected[key] by {
        let i = place(after, key);
        lemma_entry(after, i);
        if i < before.len() {
            assert(before[i] == after[i]);
            lemma_entry(before, i);
        }
    }
    assert(contents(after) =~= expected);
}

proof fn lemma_replaced<V: View>(before: Seq<(String, V)>, after: Seq<(String, V)>, at: int)
    requires
        distinct_keys(before),
        0 <= at < before.len(),
        after == before.update(at, after[at]),
        after[at].0@ == before[at].0@,
    ensures
        distinct_keys(after),
        contents(after) == contents(before).insert(after[at].0@, after[at].1@),
{
    assert(forall|i: int| 0 <= i < before.len() && i != at ==> #[trigger] after[i] == before[i]);
    let expected = contents(before).insert(after[at].0@, after[at].1@);
    assert forall|key: Seq<char>| contents(after).contains_key(key) == expected.contains_key(key) by {
        if has_key(before, key) {
            assert(after[place(before, key)].0@ == key);
        }
        if has_key(after, key) {
            assert(before[place(after, key)].0@ == key);
        }
    }
    assert forall|key: Seq<char>| #[trigger] contents(after).contains_key(key) implies contents(after)[key]
        == expected[key] by {
        let i = place(after, key);
        lemma_entry(after, i);
        lemma_entry(before, i);
    }
    assert(contents(after) =~= expected);
}

proof fn lemma_removed<V: View>(before: Seq<(String, V)>, after: Seq<(String, V)>, at: int)
    requires
        distinct_keys(before),
        0 <= at < before.len(),
        after == before.remove(at),
    ensures
        distinct_keys(after),
        contents(after) == contents(before).remove(before[at].0@),
{
    assert(forall|i: int| 0 <= i < after.len() ==> #[trigger] after[i] == before[if i < at { i } else { i + 1 }]);
    let expected = contents(before).remove(before[at].0@);
    assert forall|key: Seq<char>| contents(after).contains_key(key) == expected.contains_key(key) by {
        if has_key(before, key) && key != before[at].0@ {
            let i = place(before, key);
            assert(after[if i < at { i } else { i - 1 }].0@ == key);
        }
        if has_key(after, key) {
            let i = place(after, key);
            assert(before[if i < at { i } else { i + 1 }].0@ == key);
        }
    }
    assert forall|key: Seq<char>| #[trigger] contents(after).contains_key(key) implies contents(after)[key]
        == expected[key] by {
        let i = place(after, key);
        lemma_entry(after, i);
        lemma_entry(before, if i < at { i } else { i + 1 });
    }
    assert(contents(after) =~= expected);
}

} // verus!
