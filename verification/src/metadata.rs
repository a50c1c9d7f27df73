//! Metadata: a finite map from keys to values.

use vstd::prelude::*;
use vstd::string::*;
use crate::model::ValueView;
use crate::types::Value;

verus! {

/// A mapping from keys to values, as a scene's metadata or a file's frontmatter holds it. Every
/// key occurs once; the order of the entries carries no meaning.
#[derive(Debug)]
pub struct Metadata {
    entries: Vec<(String, Value)>,
}

/// The map that a list of entries stands for: each entry is written into the map in turn, so
/// of two entries with one key the later one stays.
pub open spec fn entries_map(entries: Seq<(Seq<char>, ValueView)>) -> Map<Seq<char>, ValueView>
    decreases entries.len(),
{
    if entries.len() == 0 {
        Map::empty()
    } else {
        entries_map(entries.drop_last()).insert(entries.last().0, entries.last().1)
    }
}

/// The entries of a list of stored pairs, each by its view.
spec fn entry_views(entries: Seq<(String, Value)>) -> Seq<(Seq<char>, ValueView)> {
    Seq::new(entries.len(), |i: int| (entries[i].0@, entries[i].1@))
}

/// No key occurs in two entries.
spec fn distinct_keys(entries: Seq<(Seq<char>, ValueView)>) -> bool {
    forall|i: int, j: int| 0 <= i < j < entries.len() ==> entries[i].0 != entries[j].0
}

/// What the map of a list with distinct keys holds: exactly the listed keys, each with the value
/// listed beside it, and as many keys as entries.
proof fn lemma_entries_map(entries: Seq<(Seq<char>, ValueView)>)
    requires
        distinct_keys(entries),
    ensures
        forall|i: int|
            0 <= i < entries.len() ==> entries_map(entries).contains_key((#[trigger] entries[i]).0)
                && entries_map(entries)[entries[i].0] == entries[i].1,
        forall|key: Seq<char>| #[trigger]
            entries_map(entries).contains_key(key) ==> exists|i: int|
                0 <= i < entries.len() && entries[i].0 == key,
        entries_map(entries).dom().finite(),
        entries_map(entries).len() == entries.len(),
    decreases entries.len(),
{
    if entries.len() > 0 {
        let front = entries.drop_last();
        let last = entries.last();
        lemma_entries_map(front);
        assert forall|i: int| 0 <= i < entries.len() implies entries_map(entries).contains_key(
            (#[trigger] entries[i]).0,
        ) && entries_map(entries)[entries[i].0] == entries[i].1 by {
            if i < entries.len() - 1 {
                assert(front[i] == entries[i]);
            }
        }
        assert forall|key: Seq<char>| #[trigger]
            entries_map(entries).contains_key(key) implies exists|i: int|
            0 <= i < entries.len() && entries[i].0 == key by {
            if key == last.0 {
                assert(entries[entries.len() - 1].0 == key);
            } else {
                assert(entries_map(front).contains_key(key));
                let i = choose|i: int| 0 <= i < front.len() && front[i].0 == key;
                assert(entries[i].0 == key);
            }
        }
        if entries_map(front).contains_key(last.0) {
            let i = choose|i: int| 0 <= i < front.len() && front[i].0 == last.0;
            assert(entries[i].0 == entries[entries.len() - 1].0);
        }
    }
}

impl View for Metadata {
    type V = Map<Seq<char>, ValueView>;

    closed spec fn view(&self) -> Map<Seq<char>, ValueView> {
        entries_map(entry_views(self.entries@))
    }
}

impl Metadata {
    #[verifier::type_invariant]
    spec fn well_formed(&self) -> bool {
        distinct_keys(entry_views(self.entries@))
    }

    /// A mapping without entries.
    pub fn new() -> (r: Self)
        ensures
            r@ == Map::<Seq<char>, ValueView>::empty(),
    {
        Metadata { entries: Vec::new() }
    }

    /// The number of keys.
    pub fn len(&self) -> (n: usize)
        ensures
            self@.dom().finite(),
            n == self@.len(),
    {
        proof {
            use_type_invariant(self);
            lemma_entries_map(entry_views(self.entries@));
        }
        self.entries.len()
    }

    /// The keys, each once. Their order carries no meaning.
    pub fn keys(&self) -> (r: Vec<String>)
        ensures
            self@.dom().finite(),
            r.len() == self@.len(),
            forall|i: int, j: int| 0 <= i < j < r.len() ==> r[i]@ != r[j]@,
            forall|i: int| 0 <= i < r.len() ==> self@.contains_key(#[trigger] r[i]@),
            forall|key: Seq<char>| #[trigger]
                self@.contains_key(key) ==> exists|i: int| 0 <= i < r.len() && r[i]@ == key,
    {
        proof {
            use_type_invariant(self);
            lemma_entries_map(entry_views(self.entries@));
        }
        let ghost entries = entry_views(self.entries@);
        let mut keys: Vec<String> = Vec::new();
        let mut i: usize = 0;
        while i < self.entries.len()
            invariant
                i <= self.entries.len(),
                keys.len() == i,
                entries == entry_views(self.entries@),
                forall|k: int| 0 <= k < i ==> (#[trigger] keys[k])@ == entries[k].0,
            decreases self.entries.len() - i,
        {
            keys.push(self.entries[i].0.clone());
            i += 1;
        }
        proof {
            assert forall|a: int, b: int| 0 <= a < b < keys.len() implies keys[a]@ != keys[b]@ by {
                assert(entries[a].0 != entries[b].0);
            }
            assert forall|k: int| 0 <= k < keys.len() implies self@.contains_key(
                #[trigger] keys[k]@,
            ) by {
                assert(self@.contains_key(entries[k].0));
            }
            assert forall|key: Seq<char>| #[trigger] self@.contains_key(key) implies exists|i: int|
                0 <= i < keys.len() && keys[i]@ == key by {
                let k = choose|k: int| 0 <= k < entries.len() && entries[k].0 == key;
                assert(keys[k]@ == key);
            }
        }
        keys
    }

    /// The place of `key` among the entries, if it has one.
    fn position(&self, key: &String) -> (r: Option<usize>)
        ensures
            match r {
                Some(i) => i < self.entries.len() && self.entries[i as int].0@ == key@,
                None => forall|i: int| 0 <= i < self.entries.len() ==> self.entries[i].0@ != key@,
            },
    {
        let mut i: usize = 0;
        while i < self.entries.len()
            invariant
                i <= self.entries.len(),
                forall|k: int| 0 <= k < i ==> self.entries[k].0@ != key@,
            decreases self.entries.len() - i,
        {
            if self.entries[i].0 == *key {
                return Some(i);
            }
            i += 1;
        }
        None
    }

    /// The value stored under `key`, if there is one.
    pub fn get(&self, key: &str) -> (r: Option<&Value>)
        ensures
            match r {
                Some(value) => self@.contains_key(key@) && value@ == self@[key@],
                None => !self@.contains_key(key@),
            },
    {
        proof {
            use_type_invariant(self);
            lemma_entries_map(entry_views(self.entries@));
        }
        let owned = key.to_owned();
        match self.position(&owned) {
            Some(i) => {
                assert(entry_views(self.entries@)[i as int].0 == key@);
                Some(&self.entries[i].1)
            },
            None => {
                assert(!self@.contains_key(key@)) by {
                    if self@.contains_key(key@) {
                        let i = choose|i: int|
                            0 <= i < self.entries.len() && entry_views(self.entries@)[i].0 == key@;
                        assert(self.entries[i].0@ == key@);
                    }
                }
                None
            },
        }
    }

    /// Stores `value` under `key`. A value stored under `key` before is replaced.
    pub fn insert(&mut self, key: String, value: Value)
        ensures
            final(self)@ == old(self)@.insert(key@, value@),
    {
        proof {
            use_type_invariant(&*self);
            lemma_entries_map(entry_views(self.entries@));
        }
        let ghost before = entry_views(self.entries@);
        let ghost k = key@;
        let ghost v = value@;
        let found = self.position(&key);
        let mut entries: Vec<(String, Value)> = Vec::new();
        core::mem::swap(&mut self.entries, &mut entries);
        match found {
            Some(i) => {
                entries.set(i, (key, value));
                proof {
                    let after = entry_views(entries@);
                    assert forall|a: int, b: int| 0 <= a < b < after.len() implies after[a].0
                        != after[b].0 by {
                        assert(after[a].0 == before[a].0);
                        assert(after[b].0 == before[b].0);
                    }
                    lemma_entries_map(after);
                    assert forall|key: Seq<char>| entries_map(after).contains_key(key)
                        <==> entries_map(before).insert(k, v).contains_key(key) by {
                        if entries_map(after).contains_key(key) {
                            let j = choose|j: int| 0 <= j < after.len() && after[j].0 == key;
                            assert(before[j].0 == key);
                        }
                        if entries_map(before).insert(k, v).contains_key(key) && key != k {
                            let j = choose|j: int| 0 <= j < before.len() && before[j].0 == key;
                            assert(after[j].0 == key);
                        }
                        if key == k {
                            assert(after[i as int].0 == k);
                        }
                    }
                    assert forall|key: Seq<char>|
                        entries_map(after).contains_key(key) implies entries_map(after)[key]
                        == entries_map(before).insert(k, v)[key] by {
                        let j = choose|j: int| 0 <= j < after.len() && after[j].0 == key;
                        assert(after[i as int] == (k, v));
                        if j != i {
                            assert(before[j] == after[j]);
                            assert(key != k);
                        }
                    }
                    assert(entries_map(after) =~= entries_map(before).insert(k, v));
                }
            },
            None => {
                entries.push((key, value));
                proof {
                    let after = entry_views(entries@);
                    assert(after.drop_last() =~= before);
                    assert(after.last() == (k, v));
                    assert forall|a: int, b: int| 0 <= a < b < after.len() implies after[a].0
                        != after[b].0 by {
                        assert(after[a].0 == before[a].0);
                        if b < before.len() {
                            assert(after[b].0 == before[b].0);
                        }
                    }
                }
            },
        }
        core::mem::swap(&mut self.entries, &mut entries);
    }
}

impl Metadata {
    /// Whether every key of `self` is a key of `other` with an equal value.
    fn within(&self, other: &Metadata) -> (r: bool)
        ensures
            r == (forall|key: Seq<char>| #[trigger]
                self@.contains_key(key) ==> other@.contains_key(key) && other@[key] == self@[key]),
    {
        proof {
            use_type_invariant(self);
            use_type_invariant(other);
            lemma_entries_map(entry_views(self.entries@));
            lemma_entries_map(entry_views(other.entries@));
        }
        let ghost mine = entry_views(self.entries@);
        let ghost theirs = entry_views(other.entries@);
        let mut i: usize = 0;
        while i < self.entries.len()
            invariant
                i <= self.entries.len(),
                mine == entry_views(self.entries@),
                theirs == entry_views(other.entries@),
                distinct_keys(mine),
                distinct_keys(theirs),
                forall|k: int|
                    0 <= k < i ==> other@.contains_key((#[trigger] mine[k]).0) && other@[mine[k].0]
                        == mine[k].1,
            decreases self.entries.len() - i,
        {
            proof {
                lemma_entries_map(mine);
                lemma_entries_map(theirs);
            }
            let ghost key = mine[i as int].0;
            match other.position(&self.entries[i].0) {
                Some(j) => {
                    assert(theirs[j as int].0 == key);
                    if !(self.entries[i].1 == other.entries[j].1) {
                        assert(self@.contains_key(key) && other@[key] != self@[key]);
                        return false;
                    }
                },
                None => {
                    assert(!other@.contains_key(key)) by {
                        if other@.contains_key(key) {
                            let j = choose|j: int| 0 <= j < theirs.len() && theirs[j].0 == key;
                            assert(other.entries[j].0@ == key);
                        }
                    }
                    assert(self@.contains_key(key));
                    return false;
                },
            }
            i += 1;
        }
        proof {
            lemma_entries_map(mine);
            assert forall|key: Seq<char>| #[trigger]
                self@.contains_key(key) implies other@.contains_key(key) && other@[key]
                == self@[key] by {
                let k = choose|k: int| 0 <= k < mine.len() && mine[k].0 == key;
                assert(other@.contains_key(mine[k].0));
            }
        }
        true
    }
}

impl PartialEq for Metadata {
    fn eq(&self, other: &Self) -> (r: bool) {
        let r = self.within(other) && other.within(self);
        proof {
            if r {
                assert(self@ =~= other@);
            }
        }
        r
    }
}

impl vstd::std_specs::cmp::PartialEqSpecImpl for Metadata {
    open spec fn obeys_eq_spec() -> bool {
        true
    }

    open spec fn eq_spec(&self, other: &Self) -> bool {
        self@ == other@
    }
}

impl Eq for Metadata {

}

impl Clone for Metadata {
    fn clone(&self) -> (r: Self)
        ensures
            r@ == self@,
    {
        proof {
            use_type_invariant(self);
        }
        let mut entries: Vec<(String, Value)> = Vec::new();
        let mut i: usize = 0;
        while i < self.entries.len()
            invariant
                i <= self.entries.len(),
                entries.len() == i,
                forall|k: int|
                    0 <= k < i ==> (#[trigger] entries[k]).0@ == self.entries[k].0@ && entries[k].1@
                        == self.entries[k].1@,
            decreases self.entries.len() - i,
        {
            entries.push((self.entries[i].0.clone(), self.entries[i].1.clone()));
            i += 1;
        }
        proof {
            assert(entry_views(entries@) =~= entry_views(self.entries@));
        }
        Metadata { entries }
    }
}

} // verus!
