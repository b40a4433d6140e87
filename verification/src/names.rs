//! A map keyed by names.

use vstd::prelude::*;

use crate::text::str_eq;

verus! {

/// Entry `i` has the name.
pub open spec fn is_at<V>(entries: Seq<(String, V)>, name: Seq<char>, i: int) -> bool {
    0 <= i < entries.len() && entries[i].0@ == name
}

/// Some entry has the name.
pub open spec fn has_name<V>(entries: Seq<(String, V)>, name: Seq<char>) -> bool {
    exists|i: int| is_at(entries, name, i)
}

/// Where the entry with a name is.
pub open spec fn position<V>(entries: Seq<(String, V)>, name: Seq<char>) -> int {
    choose|i: int| is_at(entries, name, i)
}

/// No two entries have the same name.
pub open spec fn names_differ<V>(entries: Seq<(String, V)>) -> bool {
    forall|i: int, j: int|
        0 <= i < j < entries.len() ==> (#[trigger] entries[i]).0@ != (#[trigger] entries[j]).0@
}

/// The entries as a map.
pub open spec fn entries_map<V>(entries: Seq<(String, V)>) -> Map<Seq<char>, V> {
    Map::new(
        |name: Seq<char>| has_name(entries, name),
        |name: Seq<char>| entries[position(entries, name)].1,
    )
}

/// A map from names to values, which keeps the order in which names came in.
#[verifier::reject_recursive_types(V)]
#[derive(Debug)]
pub struct NameMap<V> {
    entries: Vec<(String, V)>,
}

impl<V> View for NameMap<V> {
    type V = Map<Seq<char>, V>;

    closed spec fn view(&self) -> Map<Seq<char>, V> {
        entries_map(self.entries@)
    }
}

impl<V> NameMap<V> {
    /// The names, each once.
    pub closed spec fn names(&self) -> Seq<Seq<char>> {
        entry_names(self.entries@)
    }

    #[verifier::type_invariant]
    spec fn wf(&self) -> bool {
        names_differ(self.entries@)
    }

    /// An empty map.
    pub fn new() -> (r: Self)
        ensures
            r@.dom() == Set::<Seq<char>>::empty(),
            r.names() == Seq::<Seq<char>>::empty(),
    {
        let entries: Vec<(String, V)> = Vec::new();
        assert(entries_map(entries@).dom() =~= Set::<Seq<char>>::empty());
        let r = NameMap { entries };
        assert(r.names() =~= Seq::<Seq<char>>::empty());
        r
    }

    /// How many names there are: those of the map, each once.
    pub fn len(&self) -> (r: usize)
        ensures
            r == self.names().len(),
            self.names().no_duplicates(),
            forall|name: Seq<char>|
                self.names().contains(name) <==> #[trigger] self@.contains_key(name),
    {
        proof {
            use_type_invariant(self);
            lemma_names_are_keys(self.entries@);
        }
        self.entries.len()
    }

    /// The name at a position.
    pub fn name_at(&self, i: usize) -> (r: &str)
        requires
            i < self.names().len(),
        ensures
            r@ == self.names()[i as int],
    {
        self.entries[i].0.as_str()
    }

    /// The value at a position.
    pub fn value_at(&self, i: usize) -> (r: &V)
        requires
            i < self.names().len(),
        ensures
            *r == self@[self.names()[i as int]],
            self@.contains_key(self.names()[i as int]),
    {
        proof {
            use_type_invariant(self);
            lemma_position(self.entries@, i as int);
        }
        &self.entries[i].1
    }

    fn find(&self, name: &str) -> (r: Option<usize>)
        ensures
            r matches Some(i) ==> is_at(self.entries@, name@, i as int),
            r is None ==> !has_name(self.entries@, name@),
    {
        let mut i: usize = 0;
        while i < self.entries.len()
            invariant
                i <= self.entries@.len(),
                forall|j: int| 0 <= j < i ==> !is_at(self.entries@, name@, j),
            decreases self.entries@.len() - i,
        {
            if str_eq(self.entries[i].0.as_str(), name) {
                return Some(i);
            }
            i += 1;
        }
        None
    }

    /// Whether a name is there.
    pub fn contains(&self, name: &str) -> (r: bool)
        ensures
            r == self@.contains_key(name@),
    {
        self.find(name).is_some()
    }

    /// The value of a name.
    pub fn get(&self, name: &str) -> (r: Option<&V>)
        ensures
            r is Some <==> self@.contains_key(name@),
            r matches Some(v) ==> *v == self@[name@],
    {
        proof {
            use_type_invariant(self);
        }
        match self.find(name) {
            Some(i) => {
                proof {
                    lemma_position(self.entries@, i as int);
                }
                Some(&self.entries[i].1)
            },
            None => None,
        }
    }

    /// Gives a name a value, whatever it had before.
    pub fn insert(&mut self, name: String, value: V)
        ensures
            final(self)@ == old(self)@.insert(name@, value),
    {
        proof {
            use_type_invariant(&*self);
        }
        let found = self.find(name.as_str());
        let mut entries: Vec<(String, V)> = Vec::new();
        std::mem::swap(&mut entries, &mut self.entries);
        let ghost before = entries@;
        match found {
            Some(i) => {
                entries[i] = (name, value);
                proof {
                    lemma_update(before, entries@, i as int, value);
                }
            },
            None => {
                entries.push((name, value));
                proof {
                    assert(entries@.drop_last() =~= before);
                    lemma_push(before, entries@, value);
                }
            },
        }
        assert(names_differ(entries@));
        self.entries = entries;
    }

    /// Takes the value of a name out.
    pub fn remove(&mut self, name: &str) -> (r: Option<V>)
        ensures
            r is Some <==> old(self)@.contains_key(name@),
            r matches Some(v) ==> v == old(self)@[name@],
            final(self)@ == old(self)@.remove(name@),
    {
        proof {
            use_type_invariant(&*self);
        }
        let found = self.find(name);
        let mut entries: Vec<(String, V)> = Vec::new();
        std::mem::swap(&mut entries, &mut self.entries);
        let ghost before = entries@;
        match found {
            Some(i) => {
                let (_, value) = entries.remove(i);
                proof {
                    lemma_position(before, i as int);
                    lemma_remove(before, entries@, i as int);
                }
                self.entries = entries;
                Some(value)
            },
            None => {
                assert(entries_map(before) =~= entries_map(before).remove(name@));
                self.entries = entries;
                None
            },
        }
    }
}

/// The names of the entries.
pub open spec fn entry_names<V>(entries: Seq<(String, V)>) -> Seq<Seq<char>> {
    entries.map_values(|e: (String, V)| e.0@)
}

proof fn lemma_names_are_keys<V>(entries: Seq<(String, V)>)
    requires
        names_differ(entries),
    ensures
        entry_names(entries).no_duplicates(),
        forall|name: Seq<char>|
            entry_names(entries).contains(name) <==> #[trigger] entries_map(entries).contains_key(
                name,
            ),
{
    let names = entry_names(entries);
    assert forall|i: int, j: int|
        0 <= i < names.len() && 0 <= j < names.len() && i != j implies names[i] != names[j] by {
        if i < j {
            assert(entries[i].0@ != entries[j].0@);
        } else {
            assert(entries[j].0@ != entries[i].0@);
        }
    }
    assert forall|name: Seq<char>|
        names.contains(name) <==> #[trigger] entries_map(entries).contains_key(name) by {
        if names.contains(name) {
            let i = choose|i: int| 0 <= i < names.len() && names[i] == name;
            assert(is_at(entries, name, i));
        }
        if has_name(entries, name) {
            let i = choose|i: int| is_at(entries, name, i);
            assert(names[i] == name);
        }
    }
}

proof fn lemma_position<V>(entries: Seq<(String, V)>, i: int)
    requires
        names_differ(entries),
        0 <= i < entries.len(),
    ensures
        has_name(entries, entries[i].0@),
        position(entries, entries[i].0@) == i,
        entries_map(entries).contains_key(entries[i].0@),
        entries_map(entries)[entries[i].0@] == entries[i].1,
{
    let name = entries[i].0@;
    assert(is_at(entries, name, i));
    let k = position(entries, name);
    assert(is_at(entries, name, k));
    if k < i {
        assert(entries[k].0@ != entries[i].0@);
    } else if i < k {
        assert(entries[i].0@ != entries[k].0@);
    }
}

proof fn lemma_update<V>(before: Seq<(String, V)>, after: Seq<(String, V)>, i: int, value: V)
    requires
        names_differ(before),
        0 <= i < before.len(),
        after.len() == before.len(),
        after[i].0@ == before[i].0@,
        after[i].1 == value,
        forall|j: int| 0 <= j < before.len() && j != i ==> after[j] == before[j],
    ensures
        names_differ(after),
        entries_map(after) == entries_map(before).insert(before[i].0@, value),
{
    let key = before[i].0@;
    assert forall|a: int, b: int| 0 <= a < b < after.len() implies (#[trigger] after[a]).0@ != (
    #[trigger] after[b]).0@ by {
        assert(before[a].0@ != before[b].0@);
    }
    assert forall|name: Seq<char>|
        has_name(after, name) <==> #[trigger] has_name(before, name) by {
        if has_name(after, name) {
            let k = position(after, name);
            assert(is_at(before, name, k));
        }
        if has_name(before, name) {
            let k = position(before, name);
            assert(is_at(after, name, k));
        }
    }
    lemma_position(before, i);
    assert forall|name: Seq<char>| #[trigger] has_name(before, name) implies entries_map(
        after,
    )[name] == entries_map(before).insert(key, value)[name] by {
        let k = position(before, name);
        lemma_position(before, k);
        lemma_position(after, k);
    }
    assert(entries_map(after) =~= entries_map(before).insert(key, value));
}

proof fn lemma_push<V>(before: Seq<(String, V)>, after: Seq<(String, V)>, value: V)
    requires
        names_differ(before),
        after.len() == before.len() + 1,
        after.drop_last() == before,
        after.last().1 == value,
        !has_name(before, after.last().0@),
    ensures
        names_differ(after),
        entries_map(after) == entries_map(before).insert(after.last().0@, value),
{
    let key = after.last().0@;
    let n = before.len() as int;
    assert forall|i: int| 0 <= i < n implies after[i] == before[i] by {
        assert(after.drop_last()[i] == after[i]);
    }
    assert forall|a: int, b: int| 0 <= a < b < after.len() implies (#[trigger] after[a]).0@ != (
    #[trigger] after[b]).0@ by {
        if b < n {
            assert(before[a].0@ != before[b].0@);
        } else {
            assert(!is_at(before, key, a));
        }
    }
    assert forall|name: Seq<char>|
        #[trigger] has_name(after, name) <==> has_name(before, name) || name == key by {
        if has_name(after, name) {
            let k = position(after, name);
            if k < n {
                assert(is_at(before, name, k));
            }
        }
        if has_name(before, name) {
            let k = position(before, name);
            assert(is_at(after, name, k));
        }
        if name == key {
            assert(is_at(after, name, n));
        }
    }
    assert forall|name: Seq<char>| #[trigger] has_name(after, name) implies entries_map(
        after,
    )[name] == entries_map(before).insert(key, value)[name] by {
        if name == key {
            lemma_position(after, n);
        } else {
            let k = position(before, name);
            assert(is_at(before, name, k));
            lemma_position(before, k);
            lemma_position(after, k);
        }
    }
    assert(entries_map(after) =~= entries_map(before).insert(key, value));
}

proof fn lemma_remove<V>(before: Seq<(String, V)>, after: Seq<(String, V)>, i: int)
    requires
        names_differ(before),
        0 <= i < before.len(),
        after == before.remove(i),
    ensures
        names_differ(after),
        entries_map(after) == entries_map(before).remove(before[i].0@),
{
    let key = before[i].0@;
    assert forall|a: int| 0 <= a < after.len() implies after[a] == before[if a < i {
        a
    } else {
        a + 1
    }] by {}
    assert forall|a: int, b: int| 0 <= a < b < after.len() implies (#[trigger] after[a]).0@ != (
    #[trigger] after[b]).0@ by {
        let x = if a < i {
            a
        } else {
            a + 1
        };
        let y = if b < i {
            b
        } else {
            b + 1
        };
        assert(before[x].0@ != before[y].0@);
    }
    assert forall|name: Seq<char>|
        #[trigger] has_name(after, name) <==> has_name(before, name) && name != key by {
        if has_name(after, name) {
            let k = position(after, name);
            let x = if k < i {
                k
            } else {
                k + 1
            };
            assert(is_at(before, name, x));
            lemma_position(before, i);
            lemma_position(before, x);
        }
        if has_name(before, name) && name != key {
            let k = position(before, name);
            assert(is_at(before, name, k));
            assert(is_at(
                after,
                name,
                if k < i {
                    k
                } else {
                    k - 1
                },
            ));
        }
    }
    assert forall|name: Seq<char>| #[trigger] has_name(after, name) implies entries_map(
        after,
    )[name] == entries_map(before)[name] by {
        let k = position(after, name);
        assert(is_at(after, name, k));
        lemma_position(after, k);
        let x = if k < i {
            k
        } else {
            k + 1
        };
        lemma_position(before, x);
    }
    assert(entries_map(after) =~= entries_map(before).remove(key));
}

} // verus!
