//! Remembered values, keyed by the name of a control.

use crate::text;
use vstd::prelude::*;

verus! {

/// A map from names to values. A name is entered at most once.
pub struct ValueMap<T> {
    entries: Vec<(String, T)>,
}

/// Whether no name is entered twice.
pub closed spec fn distinct<T>(entries: Seq<(String, T)>) -> bool {
    forall|i: int, j: int|
        0 <= i < j < entries.len() ==> (#[trigger] entries[i]).0@ != (#[trigger] entries[j]).0@
}

/// Whether the entry at `i` has the name.
pub closed spec fn named<T>(entries: Seq<(String, T)>, i: int, name: Seq<char>) -> bool {
    0 <= i < entries.len() && entries[i].0@ == name
}

/// The map that the entries make up.
pub closed spec fn map_of<T: View>(entries: Seq<(String, T)>) -> Map<Seq<char>, T::V> {
    Map::new(
        |name: Seq<char>| exists|i: int| #[trigger] named(entries, i, name),
        |name: Seq<char>| entries[choose|i: int| #[trigger] named(entries, i, name)].1@,
    )
}

impl<T: View> View for ValueMap<T> {
    type V = Map<Seq<char>, T::V>;

    closed spec fn view(&self) -> Map<Seq<char>, T::V> {
        map_of(self.entries@)
    }
}

proof fn lemma_at<T: View>(entries: Seq<(String, T)>, i: int)
    requires
        distinct(entries),
        0 <= i < entries.len(),
    ensures
        map_of(entries).dom().contains(entries[i].0@),
        map_of(entries)[entries[i].0@] == entries[i].1@,
{
    let name = entries[i].0@;
    assert(named(entries, i, name));
    let k = choose|k: int| #[trigger] named(entries, k, name);
    if k < i {
        assert(entries[k].0@ != entries[i].0@);
    } else if i < k {
        assert(entries[i].0@ != entries[k].0@);
    }
}

proof fn lemma_replaced<T: View>(entries: Seq<(String, T)>, i: int, entry: (String, T))
    requires
        distinct(entries),
        0 <= i < entries.len(),
        entries[i].0@ == entry.0@,
    ensures
        distinct(entries.update(i, entry)),
        map_of(entries.update(i, entry)) == map_of(entries).insert(entry.0@, entry.1@),
{
    let after = entries.update(i, entry);
    lemma_same_names(entries, after);
    assert(distinct(after));
    assert forall|name: Seq<char>| #[trigger] map_of(after).dom().contains(name) implies map_of(
        after,
    )[name] == map_of(entries).insert(entry.0@, entry.1@)[name] by {
        let k = choose|k: int| #[trigger] named(after, k, name);
        lemma_at(after, k);
        lemma_at(entries, k);
        lemma_at(after, i);
    }
    lemma_at(after, i);
    assert(map_of(after) =~= map_of(entries).insert(entry.0@, entry.1@));
}

proof fn lemma_same_names<T: View>(a: Seq<(String, T)>, b: Seq<(String, T)>)
    requires
        a.len() == b.len(),
        forall|i: int| 0 <= i < a.len() ==> (#[trigger] a[i]).0@ == b[i].0@,
    ensures
        distinct(a) ==> distinct(b),
        map_of(a).dom() == map_of(b).dom(),
{
    assert forall|name: Seq<char>| #[trigger]
        map_of(a).dom().contains(name) == map_of(b).dom().contains(name) by {
        if map_of(a).dom().contains(name) {
            let k = choose|k: int| #[trigger] named(a, k, name);
            assert(named(b, k, name));
        }
        if map_of(b).dom().contains(name) {
            let k = choose|k: int| #[trigger] named(b, k, name);
            assert(a[k].0@ == b[k].0@);
            assert(named(a, k, name));
        }
    }
    assert(map_of(a).dom() =~= map_of(b).dom());
    if distinct(a) {
        assert forall|i: int, j: int| 0 <= i < j < b.len() implies (#[trigger] b[i]).0@ != (
        #[trigger] b[j]).0@ by {
            assert(a[i].0@ != a[j].0@);
        }
    }
}

proof fn lemma_added<T: View>(entries: Seq<(String, T)>, entry: (String, T))
    requires
        distinct(entries),
        forall|i: int| 0 <= i < entries.len() ==> (#[trigger] entries[i]).0@ != entry.0@,
    ensures
        distinct(entries.push(entry)),
        map_of(entries.push(entry)) == map_of(entries).insert(entry.0@, entry.1@),
{
    let after = entries.push(entry);
    assert(distinct(after));
    assert forall|name: Seq<char>| #[trigger]
        map_of(after).dom().contains(name) == map_of(entries).insert(
            entry.0@,
            entry.1@,
        ).dom().contains(name) by {
        if map_of(after).dom().contains(name) {
            let k = choose|k: int| #[trigger] named(after, k, name);
            if k < entries.len() {
                assert(named(entries, k, name));
            }
        }
        if map_of(entries).dom().contains(name) {
            let k = choose|k: int| #[trigger] named(entries, k, name);
            assert(named(after, k, name));
        }
        assert(named(after, entries.len() as int, entry.0@));
    }
    assert forall|name: Seq<char>| #[trigger] map_of(after).dom().contains(name) implies map_of(
        after,
    )[name] == map_of(entries).insert(entry.0@, entry.1@)[name] by {
        let k = choose|k: int| #[trigger] named(after, k, name);
        lemma_at(after, k);
        if k < entries.len() {
            lemma_at(entries, k);
        }
    }
    assert(map_of(after) =~= map_of(entries).insert(entry.0@, entry.1@));
}

/// The names of distinct entries are those that their map has a value for, each
/// once.
proof fn lemma_names<T: View>(entries: Seq<(String, T)>, names: Seq<Seq<char>>)
    requires
        distinct(entries),
        names == entries.map_values(|e: (String, T)| e.0@),
    ensures
        names.no_duplicates(),
        forall|name: Seq<char>|
            map_of(entries).dom().contains(name) <==> #[trigger] names.contains(name),
{
    assert forall|i: int, j: int| 0 <= i < names.len() && 0 <= j < names.len() && i != j implies
        names[i] != names[j] by {
        if i < j {
            assert(entries[i].0@ != entries[j].0@);
        } else {
            assert(entries[j].0@ != entries[i].0@);
        }
    }
    assert forall|name: Seq<char>|
        map_of(entries).dom().contains(name) <==> #[trigger] names.contains(name) by {
        if map_of(entries).dom().contains(name) {
            let k = choose|k: int| #[trigger] named(entries, k, name);
            assert(names[k] == name);
        }
        if names.contains(name) {
            let k = choose|k: int| 0 <= k < names.len() && names[k] == name;
            assert(named(entries, k, name));
        }
    }
}

impl<T> ValueMap<T> {
    #[verifier::type_invariant]
    closed spec fn wf(self) -> bool {
        distinct(self.entries@)
    }
}

impl<T: View> ValueMap<T> {
    /// The names, in the order in which they were first entered.
    pub closed spec fn names(self) -> Seq<Seq<char>> {
        self.entries@.map_values(|e: (String, T)| e.0@)
    }

    /// A map without entries.
    pub fn new() -> (r: Self)
        ensures
            r@ == Map::<Seq<char>, T::V>::empty(),
            r.names().len() == 0,
    {
        let entries: Vec<(String, T)> = Vec::new();
        assert(map_of(entries@) =~= Map::<Seq<char>, T::V>::empty());
        ValueMap { entries }
    }

    /// Where the name is entered.
    fn position(entries: &Vec<(String, T)>, name: &str) -> (r: Option<usize>)
        ensures
            match r {
                Some(i) => named(entries@, i as int, name@),
                None => forall|i: int|
                    0 <= i < entries.len() ==> (#[trigger] entries@[i]).0@ != name@,
            },
    {
        let mut i: usize = 0;
        while i < entries.len()
            invariant
                i <= entries.len(),
                forall|k: int| 0 <= k < i ==> (#[trigger] entries@[k]).0@ != name@,
            decreases entries.len() - i,
        {
            if text::same(entries[i].0.as_str(), name) {
                return Some(i);
            }
            i += 1;
        }
        None
    }

    /// The value that is entered for the name.
    pub fn get(&self, name: &str) -> (r: Option<&T>)
        ensures
            match r {
                Some(v) => self@.dom().contains(name@) && v@ == self@[name@],
                None => !self@.dom().contains(name@),
            },
    {
        proof {
            use_type_invariant(&*self);
        }
        match Self::position(&self.entries, name) {
            Some(i) => {
                proof {
                    lemma_at(self.entries@, i as int);
                }
                Some(&self.entries[i].1)
            },
            None => {
                proof {
                    if self@.dom().contains(name@) {
                        let k = choose|k: int| #[trigger] named(self.entries@, k, name@);
                        assert(self.entries@[k].0@ != name@);
                    }
                }
                None
            },
        }
    }

    /// Enters a value for the name, in place of the one it had.
    pub fn insert(&mut self, name: String, value: T)
        ensures
            final(self)@ == old(self)@.insert(name@, value@),
    {
        proof {
            use_type_invariant(&*self);
        }
        let mut entries: Vec<(String, T)> = Vec::new();
        std::mem::swap(&mut entries, &mut self.entries);
        match Self::position(&entries, name.as_str()) {
            Some(i) => {
                proof {
                    lemma_replaced(entries@, i as int, (name, value));
                }
                entries.set(i, (name, value));
            },
            None => {
                proof {
                    lemma_added(entries@, (name, value));
                }
                entries.push((name, value));
            },
        }
        self.entries = entries;
    }

    /// How many names are entered. The names are those that the map has a value
    /// for, each once.
    pub fn len(&self) -> (r: usize)
        ensures
            r == self.names().len(),
            self.names().no_duplicates(),
            forall|name: Seq<char>|
                self@.dom().contains(name) <==> #[trigger] self.names().contains(name),
    {
        proof {
            use_type_invariant(&*self);
            lemma_names(self.entries@, self.names());
        }
        self.entries.len()
    }

    /// The name and the value of the entry at `i`.
    pub fn entry(&self, i: usize) -> (r: (&String, &T))
        requires
            i < self.names().len(),
        ensures
            r.0@ == self.names()[i as int],
            self@.dom().contains(r.0@),
            r.1@ == self@[r.0@],
    {
        proof {
            use_type_invariant(&*self);
            lemma_at(self.entries@, i as int);
        }
        (&self.entries[i].0, &self.entries[i].1)
    }
}

/// Entries with the same names and values make up the same map.
proof fn lemma_same_entries<T: View>(a: Seq<(String, T)>, b: Seq<(String, T)>)
    requires
        distinct(a),
        a.len() == b.len(),
        forall|i: int|
            0 <= i < a.len() ==> (#[trigger] a[i]).0@ == b[i].0@ && a[i].1@ == b[i].1@,
    ensures
        distinct(b),
        map_of(a) == map_of(b),
        a.map_values(|e: (String, T)| e.0@) == b.map_values(|e: (String, T)| e.0@),
{
    lemma_same_names(a, b);
    assert forall|name: Seq<char>| #[trigger] map_of(a).dom().contains(name) implies map_of(a)[name]
        == map_of(b)[name] by {
        let k = choose|k: int| #[trigger] named(a, k, name);
        lemma_at(a, k);
        lemma_at(b, k);
    }
    assert(map_of(a) =~= map_of(b));
    assert(a.map_values(|e: (String, T)| e.0@) =~= b.map_values(|e: (String, T)| e.0@));
}

impl Clone for ValueMap<String> {
    fn clone(&self) -> (r: Self)
        ensures
            r@ == self@,
            r.names() == self.names(),
    {
        proof {
            use_type_invariant(&*self);
        }
        let mut entries: Vec<(String, String)> = Vec::new();
        let mut i: usize = 0;
        while i < self.entries.len()
            invariant
                i <= self.entries.len(),
                entries.len() == i,
                forall|k: int|
                    0 <= k < i ==> self.entries@[k].0@ == (#[trigger] entries@[k]).0@
                        && self.entries@[k].1@ == entries@[k].1@,
            decreases self.entries.len() - i,
        {
            entries.push((self.entries[i].0.clone(), self.entries[i].1.clone()));
            i += 1;
        }
        proof {
            lemma_same_entries(self.entries@, entries@);
        }
        ValueMap { entries }
    }
}

impl Clone for ValueMap<bool> {
    fn clone(&self) -> (r: Self)
        ensures
            r@ == self@,
            r.names() == self.names(),
    {
        proof {
            use_type_invariant(&*self);
        }
        let mut entries: Vec<(String, bool)> = Vec::new();
        let mut i: usize = 0;
        while i < self.entries.len()
            invariant
                i <= self.entries.len(),
                entries.len() == i,
                forall|k: int|
                    0 <= k < i ==> self.entries@[k].0@ == (#[trigger] entries@[k]).0@
                        && self.entries@[k].1@ == entries@[k].1@,
            decreases self.entries.len() - i,
        {
            entries.push((self.entries[i].0.clone(), self.entries[i].1));
            i += 1;
        }
        proof {
            lemma_same_entries(self.entries@, entries@);
        }
        ValueMap { entries }
    }
}

} // verus!
