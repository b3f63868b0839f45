//! Attributes of a feature: text values under text keys, one value for each
//! key.

use vstd::prelude::*;

verus! {

/// The mapping that a list of entries stands for: a later entry replaces an
/// earlier one under the same key.
pub open spec fn entries_map(entries: Seq<(String, String)>) -> Map<Seq<char>, Seq<char>>
    decreases entries.len(),
{
    if entries.len() == 0 {
        Map::empty()
    } else {
        entries_map(entries.drop_last()).insert(entries.last().0@, entries.last().1@)
    }
}

/// No two entries have the same key.
pub open spec fn keys_distinct(entries: Seq<(String, String)>) -> bool {
    forall|i: int, j: int|
        0 <= i < j < entries.len() ==> (#[trigger] entries[i]).0@ != (#[trigger] entries[j]).0@
}

/// Some entry has the key.
pub open spec fn has_key(entries: Seq<(String, String)>, key: Seq<char>) -> bool {
    exists|i: int| 0 <= i < entries.len() && (#[trigger] entries[i]).0@ == key
}

proof fn lemma_entries_map_dom(entries: Seq<(String, String)>, key: Seq<char>)
    ensures
        entries_map(entries).dom().contains(key) <==> has_key(entries, key),
    decreases entries.len(),
{
    if entries.len() > 0 {
        let init = entries.drop_last();
        lemma_entries_map_dom(init, key);
        if has_key(entries, key) {
            let i = choose|i: int| 0 <= i < entries.len() && (#[trigger] entries[i]).0@ == key;
            if i < init.len() {
                assert(init[i] == entries[i]);
            }
        }
        if has_key(init, key) {
            let i = choose|i: int| 0 <= i < init.len() && (#[trigger] init[i]).0@ == key;
            assert(entries[i] == init[i]);
        }
        if entries.last().0@ == key {
            assert(entries[entries.len() - 1] == entries.last());
        }
    }
}

proof fn lemma_entries_map_at(entries: Seq<(String, String)>, i: int)
    requires
        0 <= i < entries.len(),
        keys_distinct(entries),
    ensures
        entries_map(entries).dom().contains(entries[i].0@),
        entries_map(entries)[entries[i].0@] == entries[i].1@,
    decreases entries.len(),
{
    let init = entries.drop_last();
    if i < entries.len() - 1 {
        assert(keys_distinct(init)) by {
            assert forall|a: int, b: int| 0 <= a < b < init.len() implies (#[trigger] init[a]).0@
                != (#[trigger] init[b]).0@ by {
                assert(init[a] == entries[a]);
                assert(init[b] == entries[b]);
            }
        }
        assert(init[i] == entries[i]);
        lemma_entries_map_at(init, i);
        assert(entries[i].0@ != entries[entries.len() - 1].0@);
    }
}

proof fn lemma_entries_map_update(
    entries: Seq<(String, String)>,
    i: int,
    entry: (String, String),
)
    requires
        0 <= i < entries.len(),
        keys_distinct(entries),
        entries[i].0@ == entry.0@,
    ensures
        entries_map(entries.update(i, entry)) == entries_map(entries).insert(entry.0@, entry.1@),
        keys_distinct(entries.update(i, entry)),
    decreases entries.len(),
{
    let next = entries.update(i, entry);
    let init = entries.drop_last();
    assert(keys_distinct(next)) by {
        assert forall|a: int, b: int| 0 <= a < b < next.len() implies (#[trigger] next[a]).0@ != (
        #[trigger] next[b]).0@ by {
            assert(next[a].0@ == entries[a].0@);
            assert(next[b].0@ == entries[b].0@);
        }
    }
    if i == entries.len() - 1 {
        assert(next.drop_last() =~= init);
        assert(entries_map(next) =~= entries_map(entries).insert(entry.0@, entry.1@));
    } else {
        assert(keys_distinct(init)) by {
            assert forall|a: int, b: int| 0 <= a < b < init.len() implies (#[trigger] init[a]).0@
                != (#[trigger] init[b]).0@ by {
                assert(init[a] == entries[a]);
                assert(init[b] == entries[b]);
            }
        }
        assert(init[i] == entries[i]);
        lemma_entries_map_update(init, i, entry);
        assert(next.drop_last() =~= init.update(i, entry));
        assert(next.last() == entries.last());
        assert(entries[i].0@ != entries[entries.len() - 1].0@);
        assert(entries_map(next) =~= entries_map(entries).insert(entry.0@, entry.1@));
    }
}

proof fn lemma_entries_map_len(entries: Seq<(String, String)>)
    requires
        keys_distinct(entries),
    ensures
        entries_map(entries).dom().finite(),
        entries_map(entries).dom().len() == entries.len(),
    decreases entries.len(),
{
    if entries.len() > 0 {
        let init = entries.drop_last();
        assert(keys_distinct(init)) by {
            assert forall|a: int, b: int| 0 <= a < b < init.len() implies (#[trigger] init[a]).0@
                != (#[trigger] init[b]).0@ by {
                assert(init[a] == entries[a]);
                assert(init[b] == entries[b]);
            }
        }
        lemma_entries_map_len(init);
        lemma_entries_map_dom(init, entries.last().0@);
        if has_key(init, entries.last().0@) {
            let i = choose|i: int|
                0 <= i < init.len() && (#[trigger] init[i]).0@ == entries.last().0@;
            assert(init[i] == entries[i]);
            assert(entries[entries.len() - 1] == entries.last());
        }
        assert(entries_map(entries).dom() =~= entries_map(init).dom().insert(entries.last().0@));
    }
}

/// A mapping from text keys to text values.
#[derive(Debug)]
pub struct Attributes {
    entries: Vec<(String, String)>,
}

impl View for Attributes {
    type V = Map<Seq<char>, Seq<char>>;

    closed spec fn view(&self) -> Map<Seq<char>, Seq<char>> {
        entries_map(self.entries@)
    }
}

impl Attributes {
    #[verifier::type_invariant]
    spec fn distinct(self) -> bool {
        keys_distinct(self.entries@)
    }

    /// The empty mapping.
    pub fn new() -> (r: Attributes)
        ensures
            r@ == Map::<Seq<char>, Seq<char>>::empty(),
    {
        Attributes { entries: Vec::new() }
    }

    /// The position of the entry under `key`, if there is one.
    fn position(&self, key: &String) -> (r: Option<usize>)
        ensures
            match r {
                Some(i) => i < self.entries@.len() && self.entries@[i as int].0@ == key@,
                None => !has_key(self.entries@, key@),
            },
    {
        let mut i: usize = 0;
        while i < self.entries.len()
            invariant
                0 <= i <= self.entries.len(),
                forall|j: int| 0 <= j < i ==> (#[trigger] self.entries@[j]).0@ != key@,
            decreases self.entries.len() - i,
        {
            if self.entries[i].0 == *key {
                return Some(i);
            }
            i += 1;
        }
        None
    }

    /// Puts `value` under `key`, in place of any value that was there.
    pub fn insert(&mut self, key: String, value: String)
        ensures
            final(self)@ == old(self)@.insert(key@, value@),
    {
        proof {
            use_type_invariant(&*self);
        }
        let found = self.position(&key);
        let mut taken = Attributes::new();
        std::mem::swap(self, &mut taken);
        let mut entries = taken.entries;
        let ghost before = entries@;
        match found {
            Some(i) => {
                proof {
                    lemma_entries_map_update(before, i as int, (key, value));
                }
                entries.set(i, (key, value));
            },
            None => {
                entries.push((key, value));
                proof {
                    assert(entries@.drop_last() =~= before);
                    assert forall|a: int, b: int| 0 <= a < b < entries@.len() implies (
                    #[trigger] entries@[a]).0@ != (#[trigger] entries@[b]).0@ by {
                        assert(entries@[a] == before[a]);
                        if b < before.len() {
                            assert(entries@[b] == before[b]);
                        }
                    }
                }
            },
        }
        *self = Attributes { entries };
    }

    /// The value under `key`, if there is one.
    pub fn get(&self, key: &str) -> (r: Option<&String>)
        ensures
            match r {
                Some(value) => self@.dom().contains(key@) && self@[key@] == value@,
                None => !self@.dom().contains(key@),
            },
    {
        proof {
            use_type_invariant(self);
            lemma_entries_map_dom(self.entries@, key@);
        }
        let owned = key.to_owned();
        match self.position(&owned) {
            Some(i) => {
                proof {
                    lemma_entries_map_at(self.entries@, i as int);
                }
                Some(&self.entries[i].1)
            },
            None => None,
        }
    }

    /// Whether there is a value under `key`.
    pub fn contains_key(&self, key: &str) -> (r: bool)
        ensures
            r == self@.dom().contains(key@),
    {
        self.get(key).is_some()
    }

    /// The number of keys.
    pub fn len(&self) -> (r: usize)
        ensures
            self@.dom().finite(),
            r == self@.dom().len(),
    {
        proof {
            use_type_invariant(self);
            lemma_entries_map_len(self.entries@);
        }
        self.entries.len()
    }
}

} // verus!
