//! An insertion-ordered dictionary keyed by name.

use vstd::prelude::*;
use vstd::std_specs::cmp::{PartialEqSpec, PartialEqSpecImpl};
use crate::text::same_text;

verus! {

/// A dictionary from names to values that remembers the order in which the
/// names were first inserted.
///
/// Lookups find the first entry with the name; `insert` replaces that entry
/// in place, so a dictionary built by `insert` alone never holds a name twice.
///
/// Two dictionaries are equal, for `==`, if they have as many entries and
/// each entry of the first has its name in the second with an equal value:
/// the order of the entries plays no part.
#[derive(Clone, Debug)]
pub struct Dict<V> {
    pub entries: Vec<(String, V)>,
}

/// The position of the first entry called `name`, or the length if there is none.
pub open spec fn position<V>(entries: Seq<(Seq<char>, V)>, name: Seq<char>) -> int
    decreases entries.len(),
{
    if entries.len() == 0 {
        0
    } else if entries[0].0 == name {
        0
    } else {
        1 + position(entries.drop_first(), name)
    }
}

/// The value of the first entry called `name`.
pub open spec fn lookup<V>(entries: Seq<(Seq<char>, V)>, name: Seq<char>) -> Option<V> {
    let i = position(entries, name);
    if i < entries.len() {
        Some(entries[i].1)
    } else {
        None
    }
}

/// The entries after `name` has been set to `value`: the first entry with
/// that name is replaced where it stands, or a new entry is added at the end.
pub open spec fn inserted<V>(entries: Seq<(Seq<char>, V)>, name: Seq<char>, value: V) -> Seq<
    (Seq<char>, V),
> {
    let i = position(entries, name);
    if i < entries.len() {
        entries.update(i, (name, value))
    } else {
        entries.push((name, value))
    }
}

/// No name occurs twice.
pub open spec fn distinct_names<V>(entries: Seq<(Seq<char>, V)>) -> bool {
    forall|i: int, j: int|
        0 <= i < j < entries.len() ==> (#[trigger] entries[i]).0 != (#[trigger] entries[j]).0
}

/// `position` finds the first entry with the name and nothing else.
pub proof fn lemma_position<V>(entries: Seq<(Seq<char>, V)>, name: Seq<char>)
    ensures
        0 <= position(entries, name) <= entries.len(),
        position(entries, name) < entries.len() ==> entries[position(entries, name)].0 == name,
        forall|j: int| 0 <= j < position(entries, name) ==> (#[trigger] entries[j]).0 != name,
    decreases entries.len(),
{
    if entries.len() > 0 && entries[0].0 != name {
        let rest = entries.drop_first();
        lemma_position(rest, name);
        assert forall|j: int| 0 <= j < position(entries, name) implies (#[trigger] entries[j]).0
            != name by {
            if j > 0 {
                assert(entries[j] == rest[j - 1]);
            }
        }
    }
}

/// An index at which the name stands and before which it does not is its position.
pub proof fn lemma_position_is<V>(entries: Seq<(Seq<char>, V)>, name: Seq<char>, i: int)
    requires
        0 <= i <= entries.len(),
        i < entries.len() ==> entries[i].0 == name,
        forall|j: int| 0 <= j < i ==> (#[trigger] entries[j]).0 != name,
    ensures
        position(entries, name) == i,
{
    lemma_position(entries, name);
    let p = position(entries, name);
    if p < i {
        assert(entries[p].0 != name);
    }
}

/// What `==` means on dictionaries whose values are compared by `same`.
pub open spec fn same_entries<V>(
    a: Seq<(Seq<char>, V)>,
    b: Seq<(Seq<char>, V)>,
    same: spec_fn(V, V) -> bool,
) -> bool {
    &&& a.len() == b.len()
    &&& forall|i: int|
        0 <= i < a.len() ==> {
            let j = position(b, (#[trigger] a[i]).0);
            j < b.len() && same(a[i].1, b[j].1)
        }
}

impl<V: PartialEq> PartialEq for Dict<V> {
    fn eq(&self, other: &Dict<V>) -> (r: bool) {
        if self.entries.len() != other.entries.len() {
            return false;
        }
        let mut i: usize = 0;
        while i < self.entries.len()
            invariant
                i <= self.entries@.len(),
                self.entries@.len() == other.entries@.len(),
                V::obeys_eq_spec() ==> forall|k: int|
                    0 <= k < i ==> {
                        let j = position(other@, (#[trigger] self@[k]).0);
                        j < other@.len() && self@[k].1.eq_spec(&other@[j].1)
                    },
            decreases self.entries@.len() - i,
        {
            let j = other.find(self.entries[i].0.as_str());
            assert(self@[i as int] == (self.entries@[i as int].0@, self.entries@[i as int].1));
            if j >= other.entries.len() {
                return false;
            }
            assert(other@[j as int] == (other.entries@[j as int].0@, other.entries@[j as int].1));
            if !(self.entries[i].1 == other.entries[j].1) {
                return false;
            }
            i += 1;
        }
        true
    }
}

impl<V: PartialEq> PartialEqSpecImpl for Dict<V> {
    open spec fn obeys_eq_spec() -> bool {
        V::obeys_eq_spec()
    }

    open spec fn eq_spec(&self, other: &Dict<V>) -> bool {
        same_entries(self@, other@, |x: V, y: V| x.eq_spec(&y))
    }
}

impl<V> View for Dict<V> {
    type V = Seq<(Seq<char>, V)>;

    open spec fn view(&self) -> Seq<(Seq<char>, V)> {
        self.entries@.map_values(|e: (String, V)| (e.0@, e.1))
    }
}

impl<V> Dict<V> {
    /// An empty dictionary.
    pub fn new() -> (d: Self)
        ensures
            d@ == Seq::<(Seq<char>, V)>::empty(),
    {
        let d = Dict { entries: Vec::new() };
        assert(d@ =~= Seq::<(Seq<char>, V)>::empty());
        d
    }

    /// The number of entries.
    pub fn len(&self) -> (n: usize)
        ensures
            n == self@.len(),
    {
        self.entries.len()
    }

    /// The index of the first entry called `name`, or `len()` if there is none.
    pub fn find(&self, name: &str) -> (i: usize)
        ensures
            i == position(self@, name@),
    {
        let mut i: usize = 0;
        while i < self.entries.len()
            invariant
                i <= self.entries@.len(),
                forall|j: int| 0 <= j < i ==> (#[trigger] self@[j]).0 != name@,
            decreases self.entries@.len() - i,
        {
            if same_text(self.entries[i].0.as_str(), name) {
                proof {
                    lemma_position_is(self@, name@, i as int);
                }
                return i;
            }
            i += 1;
        }
        proof {
            lemma_position_is(self@, name@, i as int);
        }
        i
    }

    /// The value stored under `name`, if any.
    pub fn get(&self, name: &str) -> (r: Option<&V>)
        ensures
            r matches Some(v) ==> lookup(self@, name@) == Some(*v),
            r is None <==> lookup(self@, name@) is None,
    {
        let i = self.find(name);
        if i < self.entries.len() {
            Some(&self.entries[i].1)
        } else {
            None
        }
    }

    /// Whether some entry is called `name`.
    pub fn contains_key(&self, name: &str) -> (r: bool)
        ensures
            r == lookup(self@, name@).is_some(),
    {
        self.find(name) < self.entries.len()
    }

    /// Sets `name` to `value` and returns the value it replaced, if any.
    pub fn insert(&mut self, name: String, value: V) -> (r: Option<V>)
        ensures
            final(self)@ == inserted(old(self)@, name@, value),
            r == lookup(old(self)@, name@),
            distinct_names(old(self)@) ==> distinct_names(final(self)@),
    {
        proof {
            lemma_inserted(self@, name@, value);
        }
        let i = self.find(name.as_str());
        let n = self.entries.len();
        self.entries.push((name, value));
        if i < n {
            let gone = self.entries.swap_remove(i);
            assert(self@ =~= inserted(old(self)@, name@, value));
            Some(gone.1)
        } else {
            assert(self@ =~= inserted(old(self)@, name@, value));
            None
        }
    }
}

/// Setting a name keeps the names distinct, keeps every other name's value,
/// and makes the name's value the one given.
pub proof fn lemma_inserted<V>(entries: Seq<(Seq<char>, V)>, name: Seq<char>, value: V)
    ensures
        lookup(inserted(entries, name, value), name) == Some(value),
        forall|other: Seq<char>|
            other != name ==> #[trigger] lookup(inserted(entries, name, value), other) == lookup(
                entries,
                other,
            ),
        distinct_names(entries) ==> distinct_names(inserted(entries, name, value)),
{
    let after = inserted(entries, name, value);
    let p = position(entries, name);
    lemma_position(entries, name);
    lemma_position_is(after, name, p);
    assert forall|other: Seq<char>| other != name implies #[trigger] lookup(after, other)
        == lookup(entries, other) by {
        let q = position(entries, other);
        lemma_position(entries, other);
        if q < entries.len() {
            assert(q != p);
        }
        assert forall|j: int| 0 <= j < q implies (#[trigger] after[j]).0 != other by {
            if j != p {
                assert(after[j] == entries[j]);
            }
        }
        if q < entries.len() || p < entries.len() {
            lemma_position_is(after, other, q);
        } else {
            lemma_position_is(after, other, q + 1);
        }
    }
    if distinct_names(entries) {
        assert forall|i: int, j: int| 0 <= i < j < after.len() implies (#[trigger] after[i]).0 != (
        #[trigger] after[j]).0 by {
            if p < entries.len() {
                if i != p {
                    assert(after[i] == entries[i]);
                }
                if j != p {
                    assert(after[j] == entries[j]);
                }
                assert(entries[p].0 == name);
            } else {
                if j < entries.len() {
                    assert(after[i] == entries[i]);
                    assert(after[j] == entries[j]);
                } else {
                    assert(after[i] == entries[i]);
                }
            }
        }
    }
}

} // verus!
