use vstd::prelude::*;

verus! {

/// A map from strings to values that remembers the order of insertion; a later insertion
/// of a key replaces the value of an earlier one.
pub struct StringMap<V> {
    entries: Vec<(String, V)>,
}

/// The map that inserting `entries` in order into an empty map gives.
pub open spec fn entries_map<V: DeepView>(entries: Seq<(String, V)>) -> Map<Seq<char>, V::V>
    decreases entries.len(),
{
    if entries.len() == 0 {
        Map::empty()
    } else {
        entries_map(entries.drop_last()).insert(
            entries.last().0@,
            entries.last().1.deep_view(),
        )
    }
}

impl<V: DeepView> View for StringMap<V> {
    type V = Map<Seq<char>, V::V>;

    closed spec fn view(&self) -> Map<Seq<char>, V::V> {
        entries_map(self.entries@)
    }
}

/// Looking a key up in the entries from some index on finds what the whole map holds
/// when no entry at that index or after holds the key.
proof fn lemma_lookup_prefix<V: DeepView>(entries: Seq<(String, V)>, i: int, key: Seq<char>)
    requires
        0 <= i <= entries.len(),
        forall|j: int| i <= j < entries.len() ==> entries[j].0@ != key,
    ensures
        entries_map(entries).contains_key(key) == entries_map(entries.take(i)).contains_key(key),
        entries_map(entries)[key] == entries_map(entries.take(i))[key],
    decreases entries.len() - i,
{
    if i < entries.len() {
        lemma_lookup_prefix(entries.drop_last(), i, key);
        assert(entries.drop_last().take(i) == entries.take(i));
    } else {
        assert(entries.take(i) == entries);
    }
}

/// Inserting entries one list after another gives the map of the first with the map of
/// the second laid over it.
pub proof fn lemma_entries_map_concat<V: DeepView>(first: Seq<(String, V)>, second: Seq<(String, V)>)
    ensures
        entries_map(first + second) == entries_map(first).union_prefer_right(entries_map(second)),
    decreases second.len(),
{
    if second.len() == 0 {
        assert(first + second == first);
        assert(entries_map(first).union_prefer_right(entries_map(second)) =~= entries_map(first));
    } else {
        lemma_entries_map_concat(first, second.drop_last());
        assert((first + second).drop_last() == first + second.drop_last());
        assert((first + second).last() == second.last());
        assert(entries_map(first + second) =~= entries_map(first).union_prefer_right(
            entries_map(second),
        ));
    }
}

impl<V: DeepView> StringMap<V> {
    /// An empty map.
    pub fn new() -> (map: Self)
        ensures
            map@ == Map::<Seq<char>, V::V>::empty(),
    {
        StringMap { entries: Vec::new() }
    }

    /// Maps `key` to `value`, replacing what `key` mapped to before.
    pub fn insert(&mut self, key: String, value: V)
        ensures
            final(self)@ == old(self)@.insert(key@, value.deep_view()),
    {
        let ghost old_entries = self.entries@;
        self.entries.push((key, value));
        assert(self.entries@.drop_last() == old_entries);
    }

    /// The value that `key` maps to, if any.
    pub fn get(&self, key: &String) -> (value: Option<&V>)
        ensures
            match value {
                Some(v) => self@.contains_key(key@) && self@[key@] == v.deep_view(),
                None => !self@.contains_key(key@),
            },
    {
        let mut i = self.entries.len();
        while i > 0
            invariant
                i <= self.entries.len(),
                forall|j: int| i <= j < self.entries.len() ==> self.entries@[j].0@ != key@,
            decreases i,
        {
            if self.entries[i - 1].0 == *key {
                proof {
                    let e = self.entries@;
                    lemma_lookup_prefix(e, i as int, key@);
                    assert(e.take(i as int).drop_last() == e.take(i - 1));
                }
                return Some(&self.entries[i - 1].1);
            }
            i = i - 1;
        }
        proof {
            lemma_lookup_prefix(self.entries@, 0, key@);
        }
        None
    }

    /// The keys and values in order of insertion, later duplicates included.
    pub fn entries(&self) -> (entries: &Vec<(String, V)>)
        ensures
            entries_map(entries@) == self@,
    {
        &self.entries
    }
}

} // verus!
