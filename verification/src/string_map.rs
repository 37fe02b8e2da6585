//! Maps from strings to values in which no key occurs twice.
use vstd::prelude::*;

verus! {

/// A map from strings to values.
pub struct StringMap<T> {
    entries: Vec<(String, T)>,
}

/// What a list of entries maps each key to.
pub open spec fn entries_map<T: View>(entries: Seq<(String, T)>) -> Map<Seq<char>, T::V>
    decreases entries.len(),
{
    if entries.len() == 0 {
        Map::empty()
    } else {
        entries_map(entries.drop_last()).insert(entries.last().0@, entries.last().1@)
    }
}

spec fn distinct_keys<T>(entries: Seq<(String, T)>) -> bool {
    forall|i: int, j: int|
        0 <= i < j < entries.len() ==> (#[trigger] entries[i]).0@ != (#[trigger] entries[j]).0@
}

impl<T: View> View for StringMap<T> {
    type V = Map<Seq<char>, T::V>;

    open spec fn view(&self) -> Map<Seq<char>, T::V> {
        entries_map(self.list())
    }
}

impl<T> StringMap<T> {
    /// The entries in the order in which their keys were first set.
    pub closed spec fn list(&self) -> Seq<(String, T)> {
        self.entries@
    }

    #[verifier::type_invariant]
    spec fn well_formed(self) -> bool {
        distinct_keys(self.entries@)
    }
}

proof fn lemma_entries_key<T: View>(entries: Seq<(String, T)>, key: Seq<char>)
    ensures
        entries_map(entries).contains_key(key) <==> exists|i: int|
            0 <= i < entries.len() && (#[trigger] entries[i]).0@ == key,
    decreases entries.len(),
{
    if entries.len() > 0 {
        let init = entries.drop_last();
        lemma_entries_key(init, key);
        if entries.last().0@ == key {
            assert(entries[entries.len() - 1].0@ == key);
        }
        if entries_map(init).contains_key(key) {
            let i = choose|i: int| 0 <= i < init.len() && (#[trigger] init[i]).0@ == key;
            assert(entries[i].0@ == key);
        }
        if exists|i: int| 0 <= i < entries.len() && (#[trigger] entries[i]).0@ == key {
            let i = choose|i: int| 0 <= i < entries.len() && (#[trigger] entries[i]).0@ == key;
            if i < init.len() {
                assert(init[i].0@ == key);
            }
        }
    }
}

proof fn lemma_entries_value<T: View>(entries: Seq<(String, T)>, i: int)
    requires
        distinct_keys(entries),
        0 <= i < entries.len(),
    ensures
        entries_map(entries).contains_key(entries[i].0@),
        entries_map(entries)[entries[i].0@] == entries[i].1@,
    decreases entries.len(),
{
    if i < entries.len() - 1 {
        let init = entries.drop_last();
        assert(init[i] == entries[i]);
        assert(entries[entries.len() - 1] == entries.last());
        lemma_entries_value(init, i);
    }
}

proof fn lemma_entries_update<T: View>(entries: Seq<(String, T)>, i: int, entry: (String, T))
    requires
        distinct_keys(entries),
        0 <= i < entries.len(),
        entries[i].0@ == entry.0@,
    ensures
        distinct_keys(entries.update(i, entry)),
        entries_map(entries.update(i, entry)) == entries_map(entries).insert(entry.0@, entry.1@),
    decreases entries.len(),
{
    let updated = entries.update(i, entry);
    let init = entries.drop_last();
    assert(entries[entries.len() - 1] == entries.last());
    if i < entries.len() - 1 {
        lemma_entries_update(init, i, entry);
        assert(updated.drop_last() =~= init.update(i, entry));
        assert(entries[i].0@ != entries.last().0@);
        assert(entries_map(updated) =~= entries_map(entries).insert(entry.0@, entry.1@));
    } else {
        assert(updated.drop_last() =~= init);
        assert(entries_map(updated) =~= entries_map(entries).insert(entry.0@, entry.1@));
    }
}

impl<T: View> StringMap<T> {
    /// A map without entries.
    pub fn new() -> (map: Self)
        ensures
            map@ == Map::<Seq<char>, T::V>::empty(),
    {
        StringMap { entries: Vec::new() }
    }

    /// The entries one by one.
    pub(crate) fn entries(&self) -> (entries: &Vec<(String, T)>)
        ensures
            entries@ == self.list(),
    {
        &self.entries
    }

    fn position(&self, key: &String) -> (at: Option<usize>)
        ensures
            at is Some <==> self@.contains_key(key@),
            at matches Some(i) ==> i < self.entries@.len() && self.entries@[i as int].0@ == key@,
    {
        let mut i: usize = 0;
        while i < self.entries.len()
            invariant
                i <= self.entries.len(),
                forall|j: int| 0 <= j < i ==> (#[trigger] self.entries@[j]).0@ != key@,
            decreases self.entries.len() - i,
        {
            if self.entries[i].0.eq(key) {
                proof {
                    lemma_entries_key(self.entries@, key@);
                    assert(self.entries@[i as int].0@ == key@);
                }
                return Some(i);
            }
            i = i + 1;
        }
        proof {
            lemma_entries_key(self.entries@, key@);
        }
        None
    }

    /// The value of a key.
    pub fn get(&self, key: &str) -> (value: Option<&T>)
        ensures
            value is Some <==> self@.contains_key(key@),
            value matches Some(v) ==> v@ == self@[key@],
    {
        match self.position(&key.to_owned()) {
            Some(i) => {
                proof {
                    use_type_invariant(self);
                    lemma_entries_value(self.entries@, i as int);
                }
                Some(&self.entries[i].1)
            },
            None => None,
        }
    }

    /// Set the value of a key, whether or not it had one.
    pub fn insert(&mut self, key: String, value: T)
        ensures
            final(self)@ == old(self)@.insert(key@, value@),
    {
        proof {
            use_type_invariant(&*self);
        }
        let at = self.position(&key);
        let mut entries: Vec<(String, T)> = Vec::new();
        std::mem::swap(&mut entries, &mut self.entries);
        let ghost before = entries@;
        match at {
            Some(i) => {
                proof {
                    lemma_entries_update(before, i as int, (key, value));
                }
                entries.set(i, (key, value));
            },
            None => {
                proof {
                    lemma_entries_key(before, key@);
                    assert(before.push((key, value)).drop_last() =~= before);
                }
                entries.push((key, value));
            },
        }
        self.entries = entries;
    }

    /// Set the value of a key that has none; leave one that has.
    pub fn insert_if_absent(&mut self, key: String, value: T)
        ensures
            final(self)@ == if old(self)@.contains_key(key@) {
                old(self)@
            } else {
                old(self)@.insert(key@, value@)
            },
    {
        if self.position(&key).is_none() {
            self.insert(key, value);
        }
    }
}

impl StringMap<String> {
    /// Set the value of every key that the other map holds to its value there.
    pub fn insert_all(&mut self, other: &StringMap<String>)
        ensures
            final(self)@ == old(self)@.union_prefer_right(other@),
    {
        let ghost before = self@;
        let ghost list = other.list();
        let mut i: usize = 0;
        assert(self@ =~= before.union_prefer_right(entries_map(list.take(0))));
        while i < other.entries.len()
            invariant
                i <= other.entries.len(),
                list == other.entries@,
                self@ == before.union_prefer_right(entries_map(list.take(i as int))),
            decreases other.entries.len() - i,
        {
            assert(list.take(i + 1).drop_last() =~= list.take(i as int));
            self.insert(other.entries[i].0.clone(), other.entries[i].1.clone());
            assert(self@ =~= before.union_prefer_right(entries_map(list.take(i + 1))));
            i = i + 1;
        }
        assert(list.take(i as int) =~= list);
    }
}

} // verus!
