//! One layer of the store: a finite map from string keys to `u32` values,
//! kept as a list of entries in which no key occurs twice.
//!
//! A lookup walks the list, so every operation takes time linear in the
//! number of keys that the layer holds.

use crate::model::Contents;
use vstd::prelude::*;

verus! {

/// `true` when some entry of `entries` has the key `key`.
spec fn has_key(entries: Seq<(String, u32)>, key: Seq<char>) -> bool {
    exists|i: int| 0 <= i < entries.len() && (#[trigger] entries[i]).0@ == key
}

/// The position of an entry with the key `key`, if there is one.
spec fn position_of(entries: Seq<(String, u32)>, key: Seq<char>) -> int {
    choose|i: int| 0 <= i < entries.len() && (#[trigger] entries[i]).0@ == key
}

/// No two entries share a key.
spec fn distinct_keys(entries: Seq<(String, u32)>) -> bool {
    forall|i: int, j: int|
        0 <= i < j < entries.len() ==> (#[trigger] entries[i]).0@ != (#[trigger] entries[j]).0@
}

/// The map that a list of entries stands for.
spec fn contents_of(entries: Seq<(String, u32)>) -> Contents {
    Map::new(|k: Seq<char>| has_key(entries, k), |k: Seq<char>| entries[position_of(entries, k)].1)
}

/// A mapping from string keys to `u32` values.
pub struct Layer {
    entries: Vec<(String, u32)>,
}

impl View for Layer {
    type V = Contents;

    closed spec fn view(&self) -> Contents {
        contents_of(self.entries@)
    }
}

impl Layer {
    #[verifier::type_invariant]
    spec fn keys_are_distinct(self) -> bool {
        distinct_keys(self.entries@)
    }

    /// Creates a layer without entries.
    pub fn new() -> (layer: Layer)
        ensures
            layer@ == Map::<Seq<char>, u32>::empty(),
    {
        let layer = Layer { entries: Vec::new() };
        assert(layer@ =~= Map::<Seq<char>, u32>::empty());
        layer
    }

    /// The position of the entry for `key`, or `None` when no entry has that key.
    fn find(&self, key: &String) -> (found: Option<usize>)
        ensures
            match found {
                Some(i) => i < self.entries@.len() && self.entries@[i as int].0@ == key@,
                None => forall|j: int|
                    0 <= j < self.entries@.len() ==> (#[trigger] self.entries@[j]).0@ != key@,
            },
    {
        let mut i: usize = 0;
        while i < self.entries.len()
            invariant
                i <= self.entries.len(),
                forall|j: int| 0 <= j < i ==> (#[trigger] self.entries@[j]).0@ != key@,
            decreases self.entries.len() - i,
        {
            if self.entries[i].0 == *key {
                return Some(i);
            }
            i += 1;
        }
        None
    }

    /// Looks up the value stored under `key`.
    pub fn get(&self, key: &String) -> (found: Option<&u32>)
        ensures
            match found {
                Some(value) => self@.contains_key(key@) && self@[key@] == *value,
                None => !self@.contains_key(key@),
            },
    {
        proof {
            use_type_invariant(self);
        }
        match self.find(key) {
            Some(i) => {
                proof {
                    lemma_entry_is_mapped(self.entries@, i as int);
                }
                Some(&self.entries[i].1)
            },
            None => None,
        }
    }

    /// Stores `value` under `key`, replacing what was stored there.
    pub fn insert(&mut self, key: String, value: u32)
        ensures
            final(self)@ == old(self)@.insert(key@, value),
    {
        proof {
            use_type_invariant(&*self);
        }
        let found = self.find(&key);
        let mut entries: Vec<(String, u32)> = Vec::new();
        std::mem::swap(&mut entries, &mut self.entries);
        match found {
            Some(i) => {
                proof {
                    lemma_replace(entries@, i as int, key, value);
                }
                entries.set(i, (key, value));
            },
            None => {
                proof {
                    lemma_append(entries@, key, value);
                }
                entries.push((key, value));
            },
        }
        self.entries = entries;
    }

    /// Removes the entry for `key`; a layer without such an entry stays as it is.
    pub fn remove(&mut self, key: &String)
        ensures
            final(self)@ == old(self)@.remove(key@),
    {
        proof {
            use_type_invariant(&*self);
        }
        match self.find(key) {
            Some(i) => {
                let mut entries: Vec<(String, u32)> = Vec::new();
                std::mem::swap(&mut entries, &mut self.entries);
                proof {
                    lemma_swap_remove(entries@, i as int);
                }
                entries.swap_remove(i);
                self.entries = entries;
            },
            None => {
                assert(!has_key(self.entries@, key@));
                assert(self@ =~= old(self)@.remove(key@));
            },
        }
    }
}

impl Clone for Layer {
    /// An independent copy with the same contents.
    fn clone(&self) -> (copy: Layer)
        ensures
            copy@ == self@,
    {
        proof {
            use_type_invariant(self);
        }
        let mut entries: Vec<(String, u32)> = Vec::new();
        let mut i: usize = 0;
        while i < self.entries.len()
            invariant
                i <= self.entries.len(),
                entries@ == self.entries@.subrange(0, i as int),
            decreases self.entries.len() - i,
        {
            let key = self.entries[i].0.clone();
            let value = self.entries[i].1;
            entries.push((key, value));
            assert(entries@ =~= self.entries@.subrange(0, i + 1));
            i += 1;
        }
        assert(entries@ =~= self.entries@);
        Layer { entries }
    }
}

/// In a list with distinct keys, the map holds each entry's value under its key.
proof fn lemma_entry_is_mapped(entries: Seq<(String, u32)>, i: int)
    requires
        distinct_keys(entries),
        0 <= i < entries.len(),
    ensures
        contents_of(entries).contains_key(entries[i].0@),
        contents_of(entries)[entries[i].0@] == entries[i].1,
{
    let key = entries[i].0@;
    assert(has_key(entries, key));
    assert(position_of(entries, key) == i);
}

/// Overwriting the value of the entry at `i` is an insertion under that entry's key.
proof fn lemma_replace(entries: Seq<(String, u32)>, i: int, key: String, value: u32)
    requires
        distinct_keys(entries),
        0 <= i < entries.len(),
        entries[i].0@ == key@,
    ensures
        distinct_keys(entries.update(i, (key, value))),
        contents_of(entries.update(i, (key, value))) == contents_of(entries).insert(key@, value),
{
    let after = entries.update(i, (key, value));
    assert forall|a: int, b: int| 0 <= a < b < after.len() implies
        (#[trigger] after[a]).0@ != (#[trigger] after[b]).0@ by {
        assert(after[a].0@ == entries[a].0@);
        assert(after[b].0@ == entries[b].0@);
    }
    assert forall|k: Seq<char>| has_key(after, k) == (has_key(entries, k) || k == key@) by {
        if has_key(after, k) {
            assert(entries[position_of(after, k)].0@ == k);
        }
        if has_key(entries, k) {
            assert(after[position_of(entries, k)].0@ == k);
        }
        if k == key@ {
            assert(after[i].0@ == k);
        }
    }
    assert forall|k: Seq<char>| has_key(after, k) implies
        #[trigger] contents_of(after)[k] == contents_of(entries).insert(key@, value)[k] by {
        let p = position_of(after, k);
        lemma_entry_is_mapped(after, p);
        if k != key@ {
            assert(entries[p].0@ == k);
            lemma_entry_is_mapped(entries, p);
        }
    }
    assert(contents_of(after) =~= contents_of(entries).insert(key@, value));
}

/// Appending an entry with a key that is not yet present is an insertion.
proof fn lemma_append(entries: Seq<(String, u32)>, key: String, value: u32)
    requires
        distinct_keys(entries),
        forall|j: int| 0 <= j < entries.len() ==> (#[trigger] entries[j]).0@ != key@,
    ensures
        distinct_keys(entries.push((key, value))),
        contents_of(entries.push((key, value))) == contents_of(entries).insert(key@, value),
{
    let after = entries.push((key, value));
    let n = entries.len() as int;
    assert forall|a: int, b: int| 0 <= a < b < after.len() implies
        (#[trigger] after[a]).0@ != (#[trigger] after[b]).0@ by {
        assert(after[a] == entries[a]);
        if b < n {
            assert(after[b] == entries[b]);
        }
    }
    assert forall|k: Seq<char>| has_key(after, k) == (has_key(entries, k) || k == key@) by {
        if has_key(after, k) {
            let p = position_of(after, k);
            if p < n {
                assert(entries[p].0@ == k);
            }
        }
        if has_key(entries, k) {
            assert(after[position_of(entries, k)].0@ == k);
        }
        if k == key@ {
            assert(after[n].0@ == k);
        }
    }
    assert forall|k: Seq<char>| has_key(after, k) implies
        #[trigger] contents_of(after)[k] == contents_of(entries).insert(key@, value)[k] by {
        let p = position_of(after, k);
        lemma_entry_is_mapped(after, p);
        if p < n {
            assert(entries[p] == after[p]);
            lemma_entry_is_mapped(entries, p);
        }
    }
    assert(contents_of(after) =~= contents_of(entries).insert(key@, value));
}

/// Moving the last entry into position `i` and shortening the list by one
/// removes exactly the key that stood at `i`.
proof fn lemma_swap_remove(entries: Seq<(String, u32)>, i: int)
    requires
        distinct_keys(entries),
        0 <= i < entries.len(),
    ensures
        distinct_keys(entries.update(i, entries.last()).drop_last()),
        contents_of(entries.update(i, entries.last()).drop_last())
            == contents_of(entries).remove(entries[i].0@),
{
    let after = entries.update(i, entries.last()).drop_last();
    let last = entries.len() - 1;
    let key = entries[i].0@;
    // Where each entry of `after` stood in `entries`.
    let origin = |a: int| if a == i { last } else { a };
    assert forall|a: int, b: int| 0 <= a < b < after.len() implies
        (#[trigger] after[a]).0@ != (#[trigger] after[b]).0@ by {
        assert(after[a] == entries[origin(a)]);
        assert(after[b] == entries[origin(b)]);
    }
    assert forall|k: Seq<char>| has_key(after, k) == (has_key(entries, k) && k != key) by {
        if has_key(after, k) {
            let p = position_of(after, k);
            assert(entries[origin(p)].0@ == k);
        }
        if has_key(entries, k) && k != key {
            let p = position_of(entries, k);
            if p == last {
                assert(after[i].0@ == k);
            } else {
                assert(after[p].0@ == k);
            }
        }
    }
    assert forall|k: Seq<char>| has_key(after, k) implies
        #[trigger] contents_of(after)[k] == contents_of(entries)[k] by {
        let p = position_of(after, k);
        lemma_entry_is_mapped(after, p);
        assert(after[p] == entries[origin(p)]);
        lemma_entry_is_mapped(entries, origin(p));
    }
    assert(contents_of(after) =~= contents_of(entries).remove(key));
}

} // verus!
