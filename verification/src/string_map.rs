//! A small map from strings to strings, kept as a list of entries whose keys
//! are pairwise distinct. It carries the labels of a watched object and the
//! correlation data of the controller.

use vstd::prelude::*;

verus! {

/// One association of a [`StringMap`].
#[derive(Debug)]
struct Entry {
    key: String,
    value: String,
}

/// Whether some entry of `entries` is filed under `key`.
spec fn has_key(entries: Seq<Entry>, key: Seq<char>) -> bool {
    exists|i: int| 0 <= i < entries.len() && (#[trigger] entries[i]).key@ == key
}

/// The place of an entry filed under `key`.
spec fn place_of(entries: Seq<Entry>, key: Seq<char>) -> int {
    choose|i: int| 0 <= i < entries.len() && (#[trigger] entries[i]).key@ == key
}

/// No two entries are filed under the same key.
spec fn distinct_keys(entries: Seq<Entry>) -> bool {
    forall|i: int, j: int|
        0 <= i < j < entries.len() ==> (#[trigger] entries[i]).key@ != (#[trigger] entries[j]).key@
}

/// The map that a list of entries stands for.
spec fn entries_map(entries: Seq<Entry>) -> Map<Seq<char>, Seq<char>> {
    Map::new(
        |key: Seq<char>| has_key(entries, key),
        |key: Seq<char>| entries[place_of(entries, key)].value@,
    )
}

/// With distinct keys, the entry at `i` is the one its key leads to.
proof fn lemma_place_of(entries: Seq<Entry>, i: int)
    requires
        distinct_keys(entries),
        0 <= i < entries.len(),
    ensures
        has_key(entries, entries[i].key@),
        place_of(entries, entries[i].key@) == i,
{
    let key = entries[i].key@;
    let j = place_of(entries, key);
    assert(0 <= j < entries.len() && entries[j].key@ == key);
    if j < i {
        assert(entries[j].key@ != entries[i].key@);
    } else if i < j {
        assert(entries[i].key@ != entries[j].key@);
    }
}

/// The keys under which the entries are filed.
spec fn keys_of(entries: Seq<Entry>) -> Seq<Seq<char>> {
    entries.map_values(|e: Entry| e.key@)
}

/// With distinct keys, the map has as many keys as there are entries.
proof fn lemma_size(entries: Seq<Entry>)
    requires
        distinct_keys(entries),
    ensures
        entries_map(entries).dom().finite(),
        entries_map(entries).dom().len() == entries.len(),
{
    let keys = keys_of(entries);
    assert forall|i: int, j: int| 0 <= i < keys.len() && 0 <= j < keys.len() && i != j implies keys[i]
        != keys[j] by {
        if i < j {
            assert(entries[i].key@ != entries[j].key@);
        } else {
            assert(entries[j].key@ != entries[i].key@);
        }
    }
    keys.unique_seq_to_set();
    vstd::seq_lib::seq_to_set_is_finite(keys);
    assert forall|k: Seq<char>| keys.to_set().contains(k) == entries_map(entries).dom().contains(
        k,
    ) by {
        if keys.contains(k) {
            let i = choose|i: int| 0 <= i < keys.len() && keys[i] == k;
            assert(entries[i].key@ == k);
        }
        if has_key(entries, k) {
            let i = place_of(entries, k);
            assert(keys[i] == k);
        }
    }
    assert(keys.to_set() =~= entries_map(entries).dom());
}

/// A finite map from strings to strings.
#[derive(Debug)]
pub struct StringMap {
    entries: Vec<Entry>,
}

impl View for StringMap {
    type V = Map<Seq<char>, Seq<char>>;

    closed spec fn view(&self) -> Map<Seq<char>, Seq<char>> {
        entries_map(self.entries@)
    }
}

impl StringMap {
    #[verifier::type_invariant]
    spec fn well_formed(&self) -> bool {
        distinct_keys(self.entries@)
    }

    /// The empty map.
    pub fn new() -> (map: StringMap)
        ensures
            map@ == Map::<Seq<char>, Seq<char>>::empty(),
    {
        let map = StringMap { entries: Vec::new() };
        assert(map@ =~= Map::<Seq<char>, Seq<char>>::empty());
        map
    }

    /// The number of keys.
    pub fn len(&self) -> (n: usize)
        ensures
            self@.dom().finite(),
            n == self@.len(),
    {
        proof {
            use_type_invariant(self);
            lemma_size(self.entries@);
        }
        self.entries.len()
    }

    /// Whether the map holds nothing.
    pub fn is_empty(&self) -> (empty: bool)
        ensures
            empty == (self@ == Map::<Seq<char>, Seq<char>>::empty()),
    {
        proof {
            if self.entries@.len() > 0 {
                assert(has_key(self.entries@, self.entries@[0].key@));
                assert(self@.contains_key(self.entries@[0].key@));
            } else {
                assert(self@ =~= Map::<Seq<char>, Seq<char>>::empty());
            }
        }
        self.entries.len() == 0
    }

    /// The place of the entry filed under `key`, if there is one.
    fn find(&self, key: &String) -> (found: Option<usize>)
        ensures
            match found {
                Some(i) => i < self.entries@.len() && self.entries@[i as int].key@ == key@,
                None => !has_key(self.entries@, key@),
            },
    {
        let mut i: usize = 0;
        while i < self.entries.len()
            invariant
                i <= self.entries@.len(),
                forall|j: int| 0 <= j < i ==> (#[trigger] self.entries@[j]).key@ != key@,
            decreases self.entries@.len() - i,
        {
            if self.entries[i].key == *key {
                return Some(i);
            }
            i += 1;
        }
        None
    }

    /// The value filed under `key`, if the map holds one.
    pub fn get(&self, key: &str) -> (value: Option<&String>)
        ensures
            match value {
                Some(v) => self@.contains_key(key@) && v@ == self@[key@],
                None => !self@.contains_key(key@),
            },
    {
        proof {
            use_type_invariant(self);
        }
        let needle = key.to_owned();
        match self.find(&needle) {
            Some(i) => {
                proof {
                    lemma_place_of(self.entries@, i as int);
                }
                Some(&self.entries[i].value)
            },
            None => None,
        }
    }

    /// Whether the map holds a value under `key`.
    pub fn contains_key(&self, key: &str) -> (held: bool)
        ensures
            held == self@.contains_key(key@),
    {
        let needle = key.to_owned();
        self.find(&needle).is_some()
    }

    /// Files `value` under `key`, in place of the value that was there, and
    /// returns the value it replaced.
    pub fn insert(&mut self, key: String, value: String) -> (previous: Option<String>)
        ensures
            final(self)@ == old(self)@.insert(key@, value@),
            match previous {
                Some(v) => old(self)@.contains_key(key@) && v@ == old(self)@[key@],
                None => !old(self)@.contains_key(key@),
            },
    {
        proof {
            use_type_invariant(&*self);
        }
        let found = self.find(&key);
        let ghost before = self.entries@;
        let ghost k = key@;
        let ghost v = value@;
        let mut entries: Vec<Entry> = Vec::new();
        std::mem::swap(&mut entries, &mut self.entries);
        let previous = match found {
            Some(i) => {
                proof {
                    lemma_place_of(before, i as int);
                }
                let mut entry = Entry { key, value };
                std::mem::swap(&mut entry, &mut entries[i]);
                proof {
                    let after = entries@;
                    assert(after == before.update(i as int, after[i as int]));
                    assert(distinct_keys(after)) by {
                        assert forall|a: int, b: int| 0 <= a < b < after.len() implies (
                        #[trigger] after[a]).key@ != (#[trigger] after[b]).key@ by {
                            assert(before[a].key@ != before[b].key@);
                        }
                    }
                    assert forall|q: Seq<char>| has_key(after, q) == has_key(before, q) by {
                        if has_key(before, q) {
                            let j = place_of(before, q);
                            assert(after[j].key@ == q);
                        }
                        if has_key(after, q) {
                            let j = place_of(after, q);
                            assert(before[j].key@ == q);
                        }
                    }
                    assert forall|q: Seq<char>| has_key(after, q) implies #[trigger] entries_map(
                        after,
                    )[q] == entries_map(before).insert(k, v)[q] by {
                        let j = place_of(after, q);
                        lemma_place_of(after, j);
                        lemma_place_of(before, j);
                    }
                    assert(entries_map(after) =~= entries_map(before).insert(k, v));
                }
                Some(entry.value)
            },
            None => {
                entries.push(Entry { key, value });
                proof {
                    let after = entries@;
                    let last = before.len() as int;
                    assert(after == before.push(after[last]));
                    assert(distinct_keys(after)) by {
                        assert forall|a: int, b: int| 0 <= a < b < after.len() implies (
                        #[trigger] after[a]).key@ != (#[trigger] after[b]).key@ by {
                            if b < last {
                                assert(before[a].key@ != before[b].key@);
                            } else {
                                assert(before[a].key@ != k);
                            }
                        }
                    }
                    assert forall|q: Seq<char>| has_key(after, q) == (q == k || has_key(before, q)) by {
                        if has_key(before, q) {
                            let j = place_of(before, q);
                            assert(after[j].key@ == q);
                        }
                        if q == k {
                            assert(after[last].key@ == q);
                        }
                        if has_key(after, q) {
                            let j = place_of(after, q);
                            if j < last {
                                assert(before[j].key@ == q);
                            }
                        }
                    }
                    assert forall|q: Seq<char>| has_key(after, q) implies #[trigger] entries_map(
                        after,
                    )[q] == entries_map(before).insert(k, v)[q] by {
                        let j = place_of(after, q);
                        lemma_place_of(after, j);
                        if j < last {
                            lemma_place_of(before, j);
                        }
                    }
                    assert(entries_map(after) =~= entries_map(before).insert(k, v));
                }
                None
            },
        };
        self.entries = entries;
        previous
    }

    /// Takes out what is filed under `key`, and returns the value that was
    /// there.
    pub fn remove(&mut self, key: &str) -> (previous: Option<String>)
        ensures
            final(self)@ == old(self)@.remove(key@),
            match previous {
                Some(v) => old(self)@.contains_key(key@) && v@ == old(self)@[key@],
                None => !old(self)@.contains_key(key@),
            },
    {
        proof {
            use_type_invariant(&*self);
        }
        let needle = key.to_owned();
        let ghost before = self.entries@;
        let ghost k = key@;
        match self.find(&needle) {
            None => {
                assert(entries_map(before) =~= entries_map(before).remove(k));
                None
            },
            Some(i) => {
                let mut entries: Vec<Entry> = Vec::new();
                std::mem::swap(&mut entries, &mut self.entries);
                let entry = entries.remove(i);
                proof {
                    lemma_place_of(before, i as int);
                    let after = entries@;
                    assert(after == before.remove(i as int));
                    assert(distinct_keys(after)) by {
                        assert forall|a: int, b: int| 0 <= a < b < after.len() implies (
                        #[trigger] after[a]).key@ != (#[trigger] after[b]).key@ by {
                            let pa = if a < i { a } else { a + 1 };
                            let pb = if b < i { b } else { b + 1 };
                            assert(before[pa].key@ != before[pb].key@);
                        }
                    }
                    assert forall|q: Seq<char>| has_key(after, q) == (q != k && has_key(before, q)) by {
                        if has_key(after, q) {
                            let j = place_of(after, q);
                            let pj = if j < i { j } else { j + 1 };
                            assert(before[pj].key@ == q);
                            if pj < i {
                                assert(before[pj].key@ != before[i as int].key@);
                            } else {
                                assert(before[i as int].key@ != before[pj].key@);
                            }
                        }
                        if q != k && has_key(before, q) {
                            let j = place_of(before, q);
                            let aj = if j < i { j } else { j - 1 };
                            assert(after[aj].key@ == q);
                        }
                    }
                    assert forall|q: Seq<char>| has_key(after, q) implies #[trigger] entries_map(
                        after,
                    )[q] == entries_map(before)[q] by {
                        let j = place_of(after, q);
                        let pj = if j < i { j } else { j + 1 };
                        lemma_place_of(after, j);
                        lemma_place_of(before, pj);
                    }
                    assert(entries_map(after) =~= entries_map(before).remove(k));
                }
                self.entries = entries;
                Some(entry.value)
            },
        }
    }
}

impl Clone for StringMap {
    /// A map with the same keys and values.
    fn clone(&self) -> (copy: StringMap)
        ensures
            copy@ == self@,
    {
        proof {
            use_type_invariant(self);
        }
        let mut entries: Vec<Entry> = Vec::new();
        let mut i: usize = 0;
        while i < self.entries.len()
            invariant
                i <= self.entries@.len(),
                entries@ == self.entries@.subrange(0, i as int),
            decreases self.entries@.len() - i,
        {
            let entry = Entry {
                key: self.entries[i].key.clone(),
                value: self.entries[i].value.clone(),
            };
            entries.push(entry);
            i += 1;
            assert(entries@ =~= self.entries@.subrange(0, i as int));
        }
        assert(entries@ =~= self.entries@);
        StringMap { entries }
    }
}

} // verus!
