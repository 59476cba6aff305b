//! A table keyed by player name that keeps its entries in the order in which
//! the names were first entered.

use vstd::prelude::*;

verus! {

/// The list `names`, with `name` added at the end where it was not in it.
pub open spec fn with_name(names: Seq<Seq<char>>, name: Seq<char>) -> Seq<Seq<char>> {
    if names.contains(name) {
        names
    } else {
        names.push(name)
    }
}

/// Adding a name to a list without repetitions gives a list without repetitions.
pub proof fn lemma_with_name_distinct(names: Seq<Seq<char>>, name: Seq<char>)
    requires
        names.no_duplicates(),
    ensures
        with_name(names, name).no_duplicates(),
        with_name(names, name).contains(name),
        forall|other: Seq<char>|
            #[trigger] with_name(names, name).contains(other) <==> (names.contains(other) || other
                == name),
{
    let after = with_name(names, name);
    if !names.contains(name) {
        assert(after[names.len() as int] == name);
        assert forall|other: Seq<char>| #[trigger]
            after.contains(other) <==> (names.contains(other) || other == name) by {
            if names.contains(other) {
                let i = names.index_of(other);
                assert(after[i] == other);
            }
        }
    }
}

struct Entry<V> {
    name: String,
    value: V,
}

/// Values by player name. No name occurs twice, and the entries stand in the
/// order in which their names were entered.
pub struct NameMap<V> {
    entries: Vec<Entry<V>>,
}

impl<V> NameMap<V> {
    /// The names, in the order in which they were entered.
    pub closed spec fn names(&self) -> Seq<Seq<char>> {
        Seq::new(self.entries@.len(), |i: int| self.entries@[i].name@)
    }

    /// The values, each at the index of its name.
    pub closed spec fn values(&self) -> Seq<V> {
        Seq::new(self.entries@.len(), |i: int| self.entries@[i].value)
    }

    /// The table's invariant: no name stands in two entries.
    pub open spec fn wf(&self) -> bool {
        self.names().no_duplicates()
    }

    /// The value entered under `name`, if there is one.
    pub open spec fn lookup(&self, name: Seq<char>) -> Option<V> {
        if self.names().contains(name) {
            Some(self.values()[self.names().index_of(name)])
        } else {
            None
        }
    }

    /// Every table has as many values as names.
    pub proof fn lemma_shape(&self)
        ensures
            self.names().len() == self.values().len(),
    {
    }

    /// A name stands at one index only, so the value under it is the value at
    /// any index that holds it.
    pub proof fn lemma_lookup_at(&self, i: int)
        requires
            self.wf(),
            0 <= i < self.names().len(),
        ensures
            self.lookup(self.names()[i]) == Some(self.values()[i]),
    {
        let name = self.names()[i];
        assert(self.names().contains(name));
        let j = self.names().index_of(name);
        assert(self.names()[j] == name);
    }

    /// The empty table.
    pub fn new() -> (table: NameMap<V>)
        ensures
            table.wf(),
            table.names() == Seq::<Seq<char>>::empty(),
            table.values() == Seq::<V>::empty(),
    {
        let table = NameMap { entries: Vec::new() };
        assert(table.names() =~= Seq::<Seq<char>>::empty());
        assert(table.values() =~= Seq::<V>::empty());
        table
    }

    /// The number of entries.
    pub fn len(&self) -> (n: usize)
        ensures
            n == self.names().len(),
            n == self.values().len(),
    {
        self.entries.len()
    }

    /// The first index at which `name` stands, if it is in the table.
    pub fn position(&self, name: &String) -> (found: Option<usize>)
        ensures
            match found {
                Some(i) => {
                    &&& i < self.names().len()
                    &&& self.names()[i as int] == name@
                    &&& forall|k: int| 0 <= k < i ==> self.names()[k] != name@
                },
                None => !self.names().contains(name@),
            },
    {
        let mut i: usize = 0;
        while i < self.entries.len()
            invariant
                i <= self.entries@.len(),
                forall|k: int| 0 <= k < i ==> self.entries@[k].name@ != name@,
            decreases self.entries@.len() - i,
        {
            if self.entries[i].name == *name {
                return Some(i);
            }
            i += 1;
        }
        None
    }

    /// Whether `name` is in the table.
    pub fn contains(&self, name: &String) -> (found: bool)
        ensures
            found == self.names().contains(name@),
    {
        self.position(name).is_some()
    }

    /// The name at index `i`.
    pub fn name_at(&self, i: usize) -> (name: &String)
        requires
            i < self.names().len(),
        ensures
            name@ == self.names()[i as int],
    {
        &self.entries[i].name
    }

    /// The value at index `i`.
    pub fn value_at(&self, i: usize) -> (value: &V)
        requires
            i < self.values().len(),
        ensures
            *value == self.values()[i as int],
    {
        &self.entries[i].value
    }

    /// The value entered under `name`, if there is one.
    pub fn get(&self, name: &String) -> (value: Option<&V>)
        requires
            self.wf(),
        ensures
            match value {
                Some(v) => self.lookup(name@) == Some(*v),
                None => self.lookup(name@) is None,
            },
    {
        match self.position(name) {
            Some(i) => {
                proof {
                    self.lemma_lookup_at(i as int);
                }
                Some(&self.entries[i].value)
            },
            None => None,
        }
    }

    /// Enters `value` under `name`. A name already in the table keeps its
    /// place and has its value replaced, and the value that was there is
    /// returned; a new name goes to the end.
    pub fn insert(&mut self, name: String, value: V) -> (replaced: Option<V>)
        requires
            old(self).wf(),
        ensures
            final(self).wf(),
            final(self).names() == with_name(old(self).names(), name@),
            match replaced {
                Some(v) => {
                    let i = old(self).names().index_of(name@);
                    &&& old(self).names().contains(name@)
                    &&& v == old(self).values()[i]
                    &&& final(self).values() == old(self).values().update(i, value)
                },
                None => {
                    &&& !old(self).names().contains(name@)
                    &&& final(self).values() == old(self).values().push(value)
                },
            },
    {
        proof {
            lemma_with_name_distinct(old(self).names(), name@);
        }
        let found = self.position(&name);
        match found {
            Some(i) => {
                let ghost before = self.entries@;
                assert(old(self).names().contains(name@));
                assert(old(self).names().index_of(name@) == i);
                self.entries.push(Entry { name, value });
                let entry = self.entries.swap_remove(i);
                assert(self.entries@.len() == before.len());
                assert(self.entries@[i as int].name@ == before[i as int].name@);
                assert(self.names() =~= old(self).names());
                assert(self.values() =~= old(self).values().update(i as int, value));
                Some(entry.value)
            },
            None => {
                self.entries.push(Entry { name, value });
                assert(self.names() =~= old(self).names().push(name@));
                assert(self.values() =~= old(self).values().push(value));
                None
            },
        }
    }

    /// Puts `value` in the place of the value at index `i`, and returns the
    /// value that was there. The names stay as they are.
    pub fn replace_at(&mut self, i: usize, value: V) -> (previous: V)
        requires
            old(self).wf(),
            i < old(self).names().len(),
        ensures
            final(self).wf(),
            final(self).names() == old(self).names(),
            final(self).values() == old(self).values().update(i as int, value),
            previous == old(self).values()[i as int],
    {
        let mut held = value;
        core::mem::swap(&mut self.entries[i].value, &mut held);
        assert(self.names() =~= old(self).names());
        assert(self.values() =~= old(self).values().update(i as int, value));
        held
    }
}

} // verus!
