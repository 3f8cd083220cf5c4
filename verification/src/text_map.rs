//! A map with string keys that is walked in the order of its keys.

use vstd::prelude::*;

use crate::text::{
    lemma_text_less_irreflexive, lemma_text_less_total, lemma_text_less_transitive, same_text,
    text_less, text_precedes,
};

verus! {

/// A map from strings to values. No key occurs twice, and the entries stand in dictionary order
/// of their keys.
#[derive(Debug)]
pub struct TextMap<V> {
    entries: Vec<(String, V)>,
}

/// Whether the keys of `entries` rise strictly, so that none occurs twice.
pub open spec fn keys_rise<V>(entries: Seq<(String, V)>) -> bool {
    forall|i: int, j: int|
        0 <= i < j < entries.len() ==> text_less(#[trigger] entries[i].0@, #[trigger] entries[j].0@)
}

/// Whether `entries` has an entry for `key`.
pub open spec fn has_key<V>(entries: Seq<(String, V)>, key: Seq<char>) -> bool {
    exists|i: int| 0 <= i < entries.len() && #[trigger] entries[i].0@ == key
}

/// The place of the entry for `key`.
pub open spec fn place_of<V>(entries: Seq<(String, V)>, key: Seq<char>) -> int {
    choose|i: int| 0 <= i < entries.len() && #[trigger] entries[i].0@ == key
}

/// The map that `entries` stand for.
pub open spec fn map_of<V>(entries: Seq<(String, V)>) -> Map<Seq<char>, V> {
    Map::new(
        |key: Seq<char>| has_key(entries, key),
        |key: Seq<char>| entries[place_of(entries, key)].1,
    )
}

/// An entry of a list with rising keys is what the map holds for its key.
pub proof fn lemma_entry_is_mapped<V>(entries: Seq<(String, V)>, i: int)
    requires
        keys_rise(entries),
        0 <= i < entries.len(),
    ensures
        map_of(entries).dom().contains(entries[i].0@),
        map_of(entries)[entries[i].0@] == entries[i].1,
        place_of(entries, entries[i].0@) == i,
{
    let key = entries[i].0@;
    assert(has_key(entries, key));
    let place = place_of(entries, key);
    assert(entries[place].0@ == key);
    lemma_text_less_irreflexive(key);
    if place < i {
        assert(text_less(entries[place].0@, entries[i].0@));
    } else if i < place {
        assert(text_less(entries[i].0@, entries[place].0@));
    }
}

impl<V> TextMap<V> {
    /// The entries in the order of their keys.
    pub closed spec fn entries(&self) -> Seq<(String, V)> {
        self.entries@
    }

    /// The keys rise strictly.
    #[verifier::type_invariant]
    pub open spec fn wf(&self) -> bool {
        keys_rise(self.entries())
    }

    /// An empty map.
    pub fn new() -> (map: Self)
        ensures
            map.entries().len() == 0,
            map@ == Map::<Seq<char>, V>::empty(),
    {
        let map = TextMap { entries: Vec::new() };
        assert(map@ =~= Map::<Seq<char>, V>::empty());
        map
    }

    /// The number of entries.
    pub fn len(&self) -> (count: usize)
        ensures
            count == self.entries().len(),
    {
        self.entries.len()
    }

    /// Whether there is no entry.
    pub fn is_empty(&self) -> (empty: bool)
        ensures
            empty == (self.entries().len() == 0),
    {
        self.entries.len() == 0
    }

    /// The key of the entry at a place in key order.
    pub fn key_at(&self, place: usize) -> (key: &String)
        requires
            place < self.entries().len(),
        ensures
            *key == self.entries()[place as int].0,
    {
        &self.entries[place].0
    }

    /// The value of the entry at a place in key order.
    pub fn value_at(&self, place: usize) -> (value: &V)
        requires
            place < self.entries().len(),
        ensures
            *value == self.entries()[place as int].1,
    {
        &self.entries[place].1
    }

    /// How many keys come before `key`, and whether the next one is `key` itself.
    fn locate(&self, key: &str) -> (found: (usize, bool))
        ensures
            found.0 <= self.entries().len(),
            forall|i: int|
                0 <= i < found.0 ==> text_less(#[trigger] self.entries()[i].0@, key@),
            found.1 ==> found.0 < self.entries().len() && self.entries()[found.0 as int].0@ == key@,
            found.1 == has_key(self.entries(), key@),
            !found.1 ==> forall|i: int|
                found.0 <= i < self.entries().len() ==> text_less(
                    key@,
                    #[trigger] self.entries()[i].0@,
                ),
    {
        proof {
            use_type_invariant(self);
        }
        let mut at: usize = 0;
        while at < self.entries.len() && text_precedes(self.entries[at].0.as_str(), key)
            invariant
                at <= self.entries@.len(),
                forall|i: int| 0 <= i < at ==> text_less(#[trigger] self.entries@[i].0@, key@),
            decreases self.entries.len() - at,
        {
            at = at + 1;
        }
        let present = at < self.entries.len() && same_text(self.entries[at].0.as_str(), key);
        proof {
            lemma_text_less_irreflexive(key@);
            if !present {
                if at < self.entries@.len() {
                    lemma_text_less_total(self.entries@[at as int].0@, key@);
                }
                assert forall|i: int| at <= i < self.entries@.len() implies text_less(
                    key@,
                    #[trigger] self.entries@[i].0@,
                ) by {
                    if at < i {
                        assert(text_less(self.entries@[at as int].0@, self.entries@[i].0@));
                        lemma_text_less_transitive(
                            key@,
                            self.entries@[at as int].0@,
                            self.entries@[i].0@,
                        );
                    }
                }
            }
        }
        (at, present)
    }

    /// Whether there is an entry for `key`.
    pub fn contains_key(&self, key: &str) -> (present: bool)
        ensures
            present == self@.dom().contains(key@),
    {
        self.locate(key).1
    }

    /// The value for `key`.
    pub fn get(&self, key: &str) -> (value: Option<&V>)
        ensures
            match value {
                Some(value) => self@.dom().contains(key@) && *value == self@[key@],
                None => !self@.dom().contains(key@),
            },
    {
        let (at, present) = self.locate(key);
        if present {
            proof {
                use_type_invariant(self);
                lemma_entry_is_mapped(self.entries(), at as int);
            }
            Some(&self.entries[at].1)
        } else {
            None
        }
    }

    /// Sets the value for `key` and returns the one that it replaces.
    pub fn insert(&mut self, key: String, value: V) -> (replaced: Option<V>)
        ensures
            final(self)@ == old(self)@.insert(key@, value),
            match replaced {
                Some(replaced) => old(self)@.dom().contains(key@) && replaced == old(self)@[key@],
                None => !old(self)@.dom().contains(key@),
            },
    {
        let (at, present) = self.locate(key.as_str());
        let ghost before = self.entries();
        proof {
            use_type_invariant(&*self);
        }
        let mut entries: Vec<(String, V)> = Vec::new();
        std::mem::swap(&mut entries, &mut self.entries);
        let ghost old_key = key;
        let mut replaced: Option<V> = None;
        if present {
            proof {
                lemma_entry_is_mapped(before, at as int);
            }
            let (_, old_value) = entries.remove(at);
            replaced = Some(old_value);
        }
        entries.insert(at, (key, value));
        proof {
            lemma_insert(before, at as int, present, (old_key, value), entries@);
        }
        self.entries = entries;
        replaced
    }

    /// Removes the entry for `key` and returns its value.
    pub fn remove(&mut self, key: &str) -> (removed: Option<V>)
        ensures
            final(self)@ == old(self)@.remove(key@),
            match removed {
                Some(removed) => old(self)@.dom().contains(key@) && removed == old(self)@[key@],
                None => !old(self)@.dom().contains(key@) && final(self).entries() == old(
                    self,
                ).entries(),
            },
    {
        let (at, present) = self.locate(key);
        let ghost before = self.entries();
        proof {
            use_type_invariant(&*self);
        }
        if !present {
            assert(map_of(before).remove(key@) =~= map_of(before));
            return None;
        }
        let mut entries: Vec<(String, V)> = Vec::new();
        std::mem::swap(&mut entries, &mut self.entries);
        proof {
            lemma_entry_is_mapped(before, at as int);
            lemma_remove(before, at as int);
        }
        let (_, value) = entries.remove(at);
        self.entries = entries;
        Some(value)
    }
}

impl<V> View for TextMap<V> {
    type V = Map<Seq<char>, V>;

    open spec fn view(&self) -> Map<Seq<char>, V> {
        map_of(self.entries())
    }
}

proof fn lemma_remove<V>(before: Seq<(String, V)>, at: int)
    requires
        keys_rise(before),
        0 <= at < before.len(),
    ensures
        keys_rise(before.remove(at)),
        map_of(before.remove(at)) == map_of(before).remove(before[at].0@),
{
    let after = before.remove(at);
    let key = before[at].0@;
    assert forall|i: int, j: int| 0 <= i < j < after.len() implies text_less(
        #[trigger] after[i].0@,
        #[trigger] after[j].0@,
    ) by {
        let i0 = if i < at { i } else { i + 1 };
        let j0 = if j < at { j } else { j + 1 };
        assert(text_less(before[i0].0@, before[j0].0@));
    }
    assert forall|k: Seq<char>| #[trigger] has_key(after, k) <==> has_key(before, k) && k != key by {
        if has_key(after, k) {
            let i = place_of(after, k);
            let i0 = if i < at { i } else { i + 1 };
            assert(before[i0].0@ == k);
            lemma_entry_is_mapped(before, i0);
            lemma_entry_is_mapped(before, at);
        }
        if has_key(before, k) && k != key {
            let i = place_of(before, k);
            let i1 = if i < at { i } else { i - 1 };
            assert(after[i1].0@ == k);
        }
    }
    assert forall|k: Seq<char>| #[trigger] has_key(after, k) implies map_of(after)[k] == map_of(
        before,
    )[k] by {
        let i = place_of(after, k);
        lemma_entry_is_mapped(after, i);
        let i0 = if i < at { i } else { i + 1 };
        lemma_entry_is_mapped(before, i0);
    }
    assert(map_of(after) =~= map_of(before).remove(key));
}

proof fn lemma_insert<V>(
    before: Seq<(String, V)>,
    at: int,
    present: bool,
    entry: (String, V),
    after: Seq<(String, V)>,
)
    requires
        keys_rise(before),
        0 <= at <= before.len(),
        forall|i: int| 0 <= i < at ==> text_less(#[trigger] before[i].0@, entry.0@),
        present ==> at < before.len() && before[at].0@ == entry.0@,
        !present ==> forall|i: int|
            at <= i < before.len() ==> text_less(entry.0@, #[trigger] before[i].0@),
        after == if present {
            before.remove(at).insert(at, entry)
        } else {
            before.insert(at, entry)
        },
    ensures
        keys_rise(after),
        map_of(after) == map_of(before).insert(entry.0@, entry.1),
{
    let key = entry.0@;
    let back = |i: int|
        if present || i < at {
            i
        } else {
            i - 1
        };
    assert forall|i: int| 0 <= i < after.len() && i != at implies #[trigger] after[i] == before[back(
        i,
    )] by {}
    assert forall|i: int, j: int| 0 <= i < j < after.len() implies text_less(
        #[trigger] after[i].0@,
        #[trigger] after[j].0@,
    ) by {
        if i != at && j != at {
            assert(text_less(before[back(i)].0@, before[back(j)].0@));
        } else if i == at {
            assert(after[j] == before[back(j)]);
            if present {
                assert(text_less(before[at].0@, before[j].0@));
            }
        } else {
            assert(after[i] == before[i]);
        }
    }
    assert forall|k: Seq<char>| #[trigger] has_key(after, k) <==> has_key(before, k) || k == key by {
        if has_key(after, k) {
            let i = place_of(after, k);
            if i != at {
                assert(before[back(i)].0@ == k);
            }
        }
        if k == key {
            assert(after[at].0@ == k);
        }
        if has_key(before, k) && k != key {
            let i = place_of(before, k);
            let i1 = if present || i < at { i } else { i + 1 };
            assert(after[i1] == before[back(i1)]);
            assert(after[i1].0@ == k);
        }
    }
    assert forall|k: Seq<char>| #[trigger] has_key(after, k) implies map_of(after)[k] == map_of(
        before,
    ).insert(key, entry.1)[k] by {
        let i = place_of(after, k);
        lemma_entry_is_mapped(after, i);
        if i != at {
            lemma_entry_is_mapped(before, back(i));
            lemma_entry_is_mapped(after, at);
        }
    }
    assert(map_of(after) =~= map_of(before).insert(key, entry.1));
}

/// The contents of a map from texts to strings.
pub open spec fn text_contents(map: Map<Seq<char>, String>) -> Map<Seq<char>, Seq<char>> {
    Map::new(|key: Seq<char>| map.dom().contains(key), |key: Seq<char>| map[key]@)
}

impl TextMap<String> {
    /// A copy of the map.
    pub fn copy(&self) -> (copy: Self)
        ensures
            copy.entries() == self.entries(),
            copy@ == self@,
    {
        proof {
            use_type_invariant(self);
        }
        let mut entries: Vec<(String, String)> = Vec::new();
        let mut i: usize = 0;
        while i < self.entries.len()
            invariant
                i <= self.entries.len(),
                entries@ == self.entries@.take(i as int),
            decreases self.entries.len() - i,
        {
            entries.push((self.entries[i].0.clone(), self.entries[i].1.clone()));
            assert(entries@ =~= self.entries@.take(i + 1));
            i = i + 1;
        }
        assert(entries@ =~= self.entries@);
        TextMap { entries }
    }

    /// Whether the map has the same value for every key of the other.
    fn agrees_with(&self, other: &Self) -> (result: bool)
        ensures
            result == forall|key: Seq<char>| #[trigger]
                self@.dom().contains(key) ==> other@.dom().contains(key) && self@[key]@
                    == other@[key]@,
    {
        proof {
            use_type_invariant(self);
        }
        let mut i: usize = 0;
        while i < self.entries.len()
            invariant
                i <= self.entries.len(),
                keys_rise(self.entries()),
                forall|j: int|
                    0 <= j < i ==> other@.dom().contains((#[trigger] self.entries()[j]).0@)
                        && self.entries()[j].1@ == other@[self.entries()[j].0@]@,
            decreases self.entries.len() - i,
        {
            proof {
                lemma_entry_is_mapped(self.entries(), i as int);
            }
            let agrees = match other.get(self.entries[i].0.as_str()) {
                Some(value) => same_text(value.as_str(), self.entries[i].1.as_str()),
                None => false,
            };
            if !agrees {
                assert(self@.dom().contains(self.entries()[i as int].0@));
                return false;
            }
            i = i + 1;
        }
        proof {
            assert forall|key: Seq<char>| #[trigger] self@.dom().contains(key) implies
                other@.dom().contains(key) && self@[key]@ == other@[key]@ by {
                let place = place_of(self.entries(), key);
                lemma_entry_is_mapped(self.entries(), place);
            }
        }
        true
    }

    /// Whether two maps have the same contents.
    pub fn same_contents(&self, other: &Self) -> (same: bool)
        ensures
            same == (text_contents(self@) == text_contents(other@)),
    {
        let here = self.agrees_with(other);
        let there = other.agrees_with(self);
        proof {
            if here && there {
                assert(text_contents(self@) =~= text_contents(other@));
            }
            if text_contents(self@) == text_contents(other@) {
                assert forall|key: Seq<char>| #[trigger] self@.dom().contains(key) implies
                    other@.dom().contains(key) && self@[key]@ == other@[key]@ by {
                    assert(text_contents(self@).dom().contains(key));
                    assert(text_contents(self@)[key] == text_contents(other@)[key]);
                }
                assert forall|key: Seq<char>| #[trigger] other@.dom().contains(key) implies
                    self@.dom().contains(key) && other@[key]@ == self@[key]@ by {
                    assert(text_contents(other@).dom().contains(key));
                    assert(text_contents(self@)[key] == text_contents(other@)[key]);
                }
            }
        }
        here && there
    }
}

/// A map is what its entries say: looking up the key at a place gives the value at that place, and
/// every key that is found stands at a place.
pub proof fn law_map_is_its_entries<V>(
    map: TextMap<V>,
    place: usize,
    key: &String,
    value: &V,
    wanted: &str,
    found: Option<&V>,
)
    requires
        map.wf(),
        place < map.entries().len(),
        call_ensures(TextMap::<V>::key_at, (&map, place), key),
        call_ensures(TextMap::<V>::value_at, (&map, place), value),
        call_ensures(TextMap::<V>::get, (&map, wanted), found),
    ensures
        wanted@ == key@ ==> found == Some(value),
        found is Some <==> exists|i: int|
            0 <= i < map.entries().len() && (#[trigger] map.entries()[i]).0@ == wanted@,
        map@.dom().contains(key@) && map@[key@] == *value,
{
    lemma_entry_is_mapped(map.entries(), place as int);
}

/// The entries of a map stand in dictionary order of their keys.
pub proof fn law_map_is_walked_in_key_order<V>(map: TextMap<V>, i: int, j: int)
    requires
        map.wf(),
        0 <= i < j < map.entries().len(),
    ensures
        text_less(map.entries()[i].0@, map.entries()[j].0@),
{
}

/// A map gives back what was put in last, and forgets what was taken out, without touching the
/// values of other keys.
pub proof fn law_map_keeps_what_is_put_in<V>(
    map: &mut TextMap<V>,
    later: &mut TextMap<V>,
    key: String,
    value: V,
    replaced: Option<V>,
    taken: &str,
    removed: Option<V>,
    wanted: &str,
    found: Option<&V>,
    left: Option<&V>,
)
    requires
        call_ensures(TextMap::<V>::insert, (map, key, value), replaced),
        *old(later) == *final(map),
        call_ensures(TextMap::<V>::remove, (later, taken), removed),
        call_ensures(TextMap::<V>::get, (final(map), wanted), found),
        call_ensures(TextMap::<V>::get, (final(later), wanted), left),
    ensures
        wanted@ == key@ ==> found == Some(&value),
        wanted@ != key@ ==> (found is Some <==> old(map)@.dom().contains(wanted@)),
        wanted@ != key@ && found is Some ==> *found->0 == old(map)@[wanted@],
        wanted@ == taken@ ==> left is None,
        wanted@ != taken@ ==> left == found,
        taken@ == key@ ==> removed == Some(value),
{
}

/// The contents of a map of strings have its keys, each with what its string reads.
pub proof fn law_text_contents_are_read_off(map: Map<Seq<char>, String>, key: Seq<char>)
    ensures
        text_contents(map).dom().contains(key) <==> map.dom().contains(key),
        map.dom().contains(key) ==> text_contents(map)[key] == map[key]@,
{
}

/// A copy of a map has its entries, and two maps of strings are the same exactly where each key has
/// the same text in both, or in neither. A new map has no entry.
pub proof fn law_maps_are_compared_by_their_texts(
    map: TextMap<String>,
    copy: TextMap<String>,
    other: TextMap<String>,
    same: bool,
    none: TextMap<String>,
    key: Seq<char>,
    count: usize,
    empty: bool,
)
    requires
        call_ensures(TextMap::<String>::copy, (&map,), copy),
        call_ensures(TextMap::<String>::same_contents, (&map, &other), same),
        call_ensures(TextMap::<String>::new, (), none),
        call_ensures(TextMap::<String>::len, (&map,), count),
        call_ensures(TextMap::<String>::is_empty, (&map,), empty),
    ensures
        copy.entries() == map.entries(),
        same && map@.dom().contains(key) ==> other@.dom().contains(key) && map@[key]@
            == other@[key]@,
        same && !map@.dom().contains(key) ==> !other@.dom().contains(key),
        !same ==> exists|k: Seq<char>|
            #![trigger map@.dom().contains(k)]
            map@.dom().contains(k) != other@.dom().contains(k) || (map@.dom().contains(k)
                && map@[k]@ != other@[k]@),
        !none@.dom().contains(key),
        count == map.entries().len(),
        empty <==> count == 0,
{
    if same {
        assert(text_contents(map@).dom().contains(key) <==> text_contents(
            other@,
        ).dom().contains(key));
        assert(text_contents(map@)[key] == text_contents(other@)[key]);
    }
    if forall|k: Seq<char>|
        #![trigger map@.dom().contains(k)]
        map@.dom().contains(k) == other@.dom().contains(k) && (map@.dom().contains(k) ==> map@[k]@
            == other@[k]@) {
        assert forall|k: Seq<char>| text_contents(map@).dom().contains(k) == text_contents(
            other@,
        ).dom().contains(k) by {
            assert(map@.dom().contains(k) == other@.dom().contains(k));
        }
        assert forall|k: Seq<char>| text_contents(map@).dom().contains(k) implies text_contents(
            map@,
        )[k] == text_contents(other@)[k] by {
            assert(map@.dom().contains(k));
        }
        assert(text_contents(map@) =~= text_contents(other@));
    }
}

} // verus!
