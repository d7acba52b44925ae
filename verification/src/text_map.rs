//! Maps from texts, held as a list. Two maps are the same if they give the same value for each
//! text, in whatever order the texts came.

use vstd::prelude::*;

use vstd::std_specs::cmp::PartialEqSpecImpl;

use crate::text::same_text;

verus! {

/// A value for each of some texts.
#[derive(Clone, Debug)]
pub struct TextMap<V> {
    entries: Vec<(String, V)>,
}

impl<V> TextMap<V> {
    /// The texts in the order in which they came.
    pub closed spec fn keys(&self) -> Seq<Seq<char>> {
        self.entries@.map_values(|entry: (String, V)| entry.0@)
    }

    /// The value at a place.
    pub closed spec fn value_at(&self, i: int) -> V {
        self.entries@[i].1
    }

    /// No text occurs twice.
    pub open spec fn wf(&self) -> bool {
        self.keys().no_duplicates()
    }

    /// The value of a text, if it has one.
    pub open spec fn value_of(&self, key: Seq<char>) -> Option<V> {
        match self.keys().index_of_first(key) {
            Some(i) => Some(self.value_at(i)),
            None => None,
        }
    }

    /// No texts.
    pub fn new() -> (map: TextMap<V>)
        ensures
            map.wf(),
            map.keys().len() == 0,
    {
        TextMap { entries: Vec::new() }
    }

    /// The number of texts.
    pub fn len(&self) -> (count: usize)
        ensures
            count == self.keys().len(),
    {
        self.entries.len()
    }

    /// The text at a place, and its value.
    pub fn entry(&self, i: usize) -> (entry: (&str, &V))
        requires
            i < self.keys().len(),
        ensures
            entry.0@ == self.keys()[i as int],
            *entry.1 == self.value_at(i as int),
    {
        (self.entries[i].0.as_str(), &self.entries[i].1)
    }

    /// The first place of a text, if it has one.
    fn position(&self, key: &str) -> (place: Option<usize>)
        ensures
            match place {
                Some(i) => self.keys().index_of_first(key@) == Some(i as int),
                None => self.keys().index_of_first(key@) is None,
            },
            place matches Some(i) ==> i < self.keys().len() && self.keys()[i as int] == key@,
            place is None ==> !self.keys().contains(key@),
    {
        let ghost all = self.keys();
        proof {
            all.index_of_first_ensures(key@);
        }
        for i in 0..self.entries.len()
            invariant
                all == self.keys(),
                all.len() == self.entries@.len(),
                forall|k: int| 0 <= k < i ==> all[k] != key@,
                match all.index_of_first(key@) {
                    Some(index) => {
                        &&& 0 <= index < all.len()
                        &&& all[index] == key@
                        &&& forall|j: int| 0 <= j < index < all.len() ==> all[j] != key@
                    },
                    None => !all.contains(key@),
                },
        {
            assert(all[i as int] == self.entries@[i as int].0@);
            if same_text(self.entries[i].0.as_str(), key) {
                return Some(i);
            }
        }
        None
    }

    /// The value of a text, if it has one.
    pub fn get(&self, key: &str) -> (value: Option<&V>)
        ensures
            match value {
                Some(found) => self.value_of(key@) == Some(*found),
                None => self.value_of(key@) is None,
            },
            value is None <==> !self.keys().contains(key@),
            self.wf() ==> forall|i: int|
                0 <= i < self.keys().len() && #[trigger] self.keys()[i] == key@ ==> value == Some(
                    &self.value_at(i),
                ),
    {
        match self.position(key) {
            Some(i) => Some(&self.entries[i].1),
            None => None,
        }
    }

    /// Sets the value of a text, which replaces the one that it had.
    pub fn insert(&mut self, key: String, value: V)
        requires
            old(self).wf(),
        ensures
            final(self).wf(),
            final(self).keys() == if old(self).keys().contains(key@) {
                old(self).keys()
            } else {
                old(self).keys().push(key@)
            },
            forall|i: int|
                0 <= i < final(self).keys().len() ==> #[trigger] final(self).value_at(i) == (
                if final(self).keys()[i] == key@ {
                    value
                } else {
                    old(self).value_at(i)
                }),
    {
        let ghost before = self.keys();
        match self.position(key.as_str()) {
            Some(i) => {
                self.entries.set(i, (key, value));
                assert(self.keys() =~= before);
            },
            None => {
                self.entries.push((key, value));
                assert(self.keys() =~= before.push(key@));
            },
        }
    }
}

impl DeepView for TextMap<String> {
    type V = Map<Seq<char>, Seq<char>>;

    open spec fn deep_view(&self) -> Map<Seq<char>, Seq<char>> {
        Map::new(
            |key: Seq<char>| self.keys().contains(key),
            |key: Seq<char>| self.value_of(key)->0@,
        )
    }
}

impl TextMap<String> {
    /// Whether another map gives for every text of this one what this one gives.
    fn is_part_of(&self, other: &TextMap<String>) -> (part: bool)
        ensures
            part == forall|key: Seq<char>| #[trigger]
                self.keys().contains(key) ==> other.keys().contains(key) && other.value_of(
                    key,
                )->0@ == self.value_of(key)->0@,
    {
        for i in 0..self.entries.len()
            invariant
                self.keys().len() == self.entries@.len(),
                forall|k: int|
                    0 <= k < i ==> {
                        let key = #[trigger] self.keys()[k];
                        other.keys().contains(key) && other.value_of(key)->0@ == self.value_of(
                            key,
                        )->0@
                    },
        {
            let key = self.entries[i].0.as_str();
            assert(self.keys()[i as int] == key@);
            let same = match (self.get(key), other.get(key)) {
                (Some(here), Some(there)) => same_text(here.as_str(), there.as_str()),
                _ => false,
            };
            if !same {
                assert(self.keys().contains(self.keys()[i as int]));
                return false;
            }
        }
        assert forall|key: Seq<char>| #[trigger] self.keys().contains(key) implies other.keys()
            .contains(key) && other.value_of(key)->0@ == self.value_of(key)->0@ by {
            let k = choose|k: int| 0 <= k < self.keys().len() && self.keys()[k] == key;
            assert(self.keys()[k] == key);
        }
        true
    }

    /// A map with the same texts and values.
    pub fn copied(&self) -> (copy: TextMap<String>)
        ensures
            copy.keys() == self.keys(),
            copy.deep_view() == self.deep_view(),
    {
        let mut entries: Vec<(String, String)> = Vec::new();
        for i in 0..self.entries.len()
            invariant
                entries@.len() == i,
                forall|k: int|
                    0 <= k < i ==> {
                        &&& (#[trigger] entries@[k]).0@ == self.entries@[k].0@
                        &&& entries@[k].1@ == self.entries@[k].1@
                    },
        {
            entries.push((self.entries[i].0.clone(), self.entries[i].1.clone()));
        }
        let copy = TextMap { entries };
        assert(copy.keys() =~= self.keys());
        assert forall|key: Seq<char>| self.keys().contains(key) implies #[trigger] copy.value_of(
            key,
        )->0@ == self.value_of(key)->0@ by {
            self.keys().index_of_first_ensures(key);
        }
        assert(copy.deep_view() =~= self.deep_view());
        copy
    }
}

impl PartialEq for TextMap<String> {
    fn eq(&self, other: &TextMap<String>) -> (same: bool) {
        let same = self.is_part_of(other) && other.is_part_of(self);
        proof {
            let (here, there) = (self.deep_view(), other.deep_view());
            if same {
                assert(here =~= there);
            } else {
                if here == there {
                    assert forall|key: Seq<char>| #[trigger] self.keys().contains(key) implies
                        other.keys().contains(key) && other.value_of(key)->0@ == self.value_of(
                        key,
                    )->0@ by {
                        assert(here.dom().contains(key));
                        assert(here[key] == there[key]);
                    }
                    assert forall|key: Seq<char>| #[trigger] other.keys().contains(key) implies
                        self.keys().contains(key) && self.value_of(key)->0@ == other.value_of(
                        key,
                    )->0@ by {
                        assert(there.dom().contains(key));
                        assert(here[key] == there[key]);
                    }
                }
            }
        }
        same
    }
}

impl PartialEqSpecImpl for TextMap<String> {
    open spec fn obeys_eq_spec() -> bool {
        true
    }

    open spec fn eq_spec(&self, other: &TextMap<String>) -> bool {
        self.deep_view() == other.deep_view()
    }
}

} // verus!
