//! A small map from names to values, kept in the order of arrival.

use crate::text::same_text;
use vstd::prelude::*;

verus! {

/// Whether no two entries have the same name.
pub open spec fn distinct_names<T>(entries: Seq<(String, T)>) -> bool {
    forall|i: int, j: int|
        0 <= i < entries.len() && 0 <= j < entries.len() && i != j ==> entries[i].0@
            != entries[j].0@
}

/// Whether some entry has the name `name`.
pub open spec fn has_name<T>(entries: Seq<(String, T)>, name: Seq<char>) -> bool {
    exists|i: int| 0 <= i < entries.len() && #[trigger] entries[i].0@ == name
}

/// The position of an entry with the name `name`.
pub open spec fn position_of<T>(entries: Seq<(String, T)>, name: Seq<char>) -> int {
    choose|i: int| 0 <= i < entries.len() && #[trigger] entries[i].0@ == name
}

/// The entries as a map from names to values.
pub open spec fn entries_map<T>(entries: Seq<(String, T)>) -> Map<Seq<char>, T> {
    Map::new(
        |name: Seq<char>| has_name(entries, name),
        |name: Seq<char>| entries[position_of(entries, name)].1,
    )
}

/// Entries with distinct names make a map with as many keys.
pub proof fn lemma_entries_map_len<T>(entries: Seq<(String, T)>)
    requires
        distinct_names(entries),
    ensures
        entries_map(entries).dom().finite(),
        entries_map(entries).len() == entries.len(),
    decreases entries.len(),
{
    if entries.len() == 0 {
        assert(entries_map(entries).dom() =~= Set::<Seq<char>>::empty());
    } else {
        let front = entries.drop_last();
        let last = entries.last();
        lemma_entries_map_len(front);
        assert forall|k: Seq<char>| has_name(entries, k) <==> (has_name(front, k) || k
            == last.0@) by {
            if has_name(entries, k) {
                let j = position_of(entries, k);
                if j < entries.len() - 1 {
                    assert(front[j].0@ == k);
                }
            }
            if has_name(front, k) {
                let j = position_of(front, k);
                assert(entries[j].0@ == k);
            }
            if k == last.0@ {
                assert(entries[entries.len() - 1].0@ == k);
            }
        }
        assert(!has_name(front, last.0@)) by {
            if has_name(front, last.0@) {
                let j = position_of(front, last.0@);
                assert(entries[j].0@ == entries[entries.len() - 1].0@);
            }
        }
        assert(entries_map(entries).dom() =~= entries_map(front).dom().insert(last.0@));
    }
}

/// Values under names. No name occurs twice.
#[derive(Debug)]
pub struct Named<T> {
    entries: Vec<(String, T)>,
}

impl<T> View for Named<T> {
    type V = Map<Seq<char>, T>;

    closed spec fn view(&self) -> Map<Seq<char>, T> {
        entries_map(self.entries@)
    }
}

impl<T: Clone> Clone for Named<T> {
    /// A copy with the same names in the same order, each with a clone
    /// of its value.
    fn clone(&self) -> (copy: Named<T>)
        ensures
            copy.names() == self.names(),
    {
        proof {
            use_type_invariant(self);
        }
        let mut entries: Vec<(String, T)> = Vec::new();
        let mut i: usize = 0;
        while i < self.entries.len()
            invariant
                i <= self.entries.len(),
                entries.len() == i,
                forall|k: int| 0 <= k < i ==> entries[k].0@ == self.entries[k].0@,
            decreases self.entries.len() - i,
        {
            entries.push((self.entries[i].0.clone(), self.entries[i].1.clone()));
            i += 1;
        }
        let copy = Named { entries };
        proof {
            assert(copy.names() =~= self.names());
        }
        copy
    }
}

impl<T> Named<T> {
    #[verifier::type_invariant]
    spec fn well_formed(&self) -> bool {
        distinct_names(self.entries@)
    }

    /// The names, in the order in which they first arrived.
    pub closed spec fn names(&self) -> Seq<Seq<char>> {
        Seq::new(self.entries@.len(), |i: int| self.entries@[i].0@)
    }

    /// No values at all.
    pub fn new() -> (named: Named<T>)
        ensures
            named@ == Map::<Seq<char>, T>::empty(),
            named.names() == Seq::<Seq<char>>::empty(),
    {
        let named = Named { entries: Vec::new() };
        proof {
            assert(named@ =~= Map::<Seq<char>, T>::empty());
            assert(named.names() =~= Seq::<Seq<char>>::empty());
        }
        named
    }

    /// Where the entry named `name` stands, if there is one.
    fn find(&self, name: &str) -> (at: Option<usize>)
        ensures
            match at {
                Some(i) => i < self.entries.len() && self.entries[i as int].0@ == name@,
                None => !has_name(self.entries@, name@),
            },
    {
        let mut i: usize = 0;
        while i < self.entries.len()
            invariant
                i <= self.entries.len(),
                forall|k: int| 0 <= k < i ==> self.entries[k].0@ != name@,
            decreases self.entries.len() - i,
        {
            if same_text(self.entries[i].0.as_str(), name) {
                return Some(i);
            }
            i += 1;
        }
        None
    }

    /// The value named `name`, if there is one.
    pub fn get(&self, name: &str) -> (value: Option<&T>)
        ensures
            match value {
                Some(v) => self@.contains_key(name@) && self@[name@] == *v,
                None => !self@.contains_key(name@),
            },
    {
        proof {
            use_type_invariant(self);
        }
        match self.find(name) {
            Some(i) => Some(&self.entries[i].1),
            None => None,
        }
    }

    /// Gives `name` the value `value`, in place of the value it had, if
    /// any. A new name goes to the end.
    pub fn insert(&mut self, name: String, value: T)
        ensures
            final(self)@ == old(self)@.insert(name@, value),
            final(self).names() == if old(self)@.contains_key(name@) {
                old(self).names()
            } else {
                old(self).names().push(name@)
            },
    {
        proof {
            use_type_invariant(&*self);
        }
        let found = self.find(name.as_str());
        let ghost old_names = self.names();
        let mut taken = Named { entries: Vec::new() };
        core::mem::swap(self, &mut taken);
        let mut entries = taken.entries;
        let ghost before = entries@;
        match found {
            Some(i) => {
                entries.set(i, (name, value));
                proof {
                    let after = entries@;
                    assert forall|k: Seq<char>| has_name(after, k) <==> has_name(before, k) by {
                        if has_name(after, k) {
                            let j = position_of(after, k);
                            assert(before[j].0@ == k);
                        }
                        if has_name(before, k) {
                            let j = position_of(before, k);
                            assert(after[j].0@ == k);
                        }
                    }
                    assert(has_name(before, name@));
                    assert(entries_map(after) =~= entries_map(before).insert(name@, value));
                }
            },
            None => {
                entries.push((name, value));
                proof {
                    let after = entries@;
                    let last = after.len() - 1;
                    assert(after[last].0@ == name@);
                    assert forall|k: Seq<char>| has_name(after, k) <==> (has_name(before, k) || k
                        == name@) by {
                        if has_name(after, k) {
                            let j = position_of(after, k);
                            if j < last {
                                assert(before[j].0@ == k);
                            }
                        }
                        if has_name(before, k) {
                            let j = position_of(before, k);
                            assert(after[j].0@ == k);
                        }
                    }
                    assert(entries_map(after) =~= entries_map(before).insert(name@, value));
                }
            },
        }
        *self = Named { entries };
        proof {
            if found is Some {
                assert(self.names() =~= old_names);
            } else {
                assert(self.names() =~= old_names.push(name@));
            }
        }
    }

    /// How many names have a value.
    pub fn len(&self) -> (n: usize)
        ensures
            n == self@.len(),
            n == self.names().len(),
            self@.dom().finite(),
            self.names().no_duplicates(),
            forall|name: Seq<char>| self.names().contains(name) <==> self@.contains_key(name),
    {
        proof {
            use_type_invariant(self);
            lemma_entries_map_len(self.entries@);
            let names = self.names();
            assert forall|name: Seq<char>| names.contains(name) <==> self@.contains_key(
                name,
            ) by {
                if names.contains(name) {
                    let i = choose|i: int| 0 <= i < names.len() && names[i] == name;
                    assert(self.entries@[i].0@ == name);
                }
                if self@.contains_key(name) {
                    let i = position_of(self.entries@, name);
                    assert(names[i] == name);
                }
            }
        }
        self.entries.len()
    }
}

} // verus!
