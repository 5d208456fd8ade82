//! A table from names to values that remembers the order in which the names
//! first came.

use vstd::prelude::*;
use crate::text::same;

verus! {

/// Whether some row of `rows` has the name `key`.
pub open spec fn has_name<V>(rows: Seq<(Seq<char>, V)>, key: Seq<char>) -> bool {
    exists|i: int| 0 <= i < rows.len() && (#[trigger] rows[i]).0 == key
}

/// Whether row `i` is the first with the name `key`.
pub open spec fn first_at<V>(rows: Seq<(Seq<char>, V)>, key: Seq<char>, i: int) -> bool {
    &&& 0 <= i < rows.len()
    &&& rows[i].0 == key
    &&& forall|j: int| 0 <= j < i ==> (#[trigger] rows[j]).0 != key
}

/// The index of the first row with the name `key`, where there is one.
pub open spec fn index_of<V>(rows: Seq<(Seq<char>, V)>, key: Seq<char>) -> int {
    choose|i: int| first_at(rows, key, i)
}

/// The value that the rows give to the name `key`.
pub open spec fn lookup<V>(rows: Seq<(Seq<char>, V)>, key: Seq<char>) -> Option<V> {
    if has_name(rows, key) {
        Some(rows[index_of(rows, key)].1)
    } else {
        None
    }
}

/// The rows after `key` was given the value `value`: a row that was there keeps
/// its place, a new name comes last.
pub open spec fn put<V>(rows: Seq<(Seq<char>, V)>, key: Seq<char>, value: V) -> Seq<
    (Seq<char>, V),
> {
    if has_name(rows, key) {
        rows.update(index_of(rows, key), (key, value))
    } else {
        rows.push((key, value))
    }
}

/// No name occurs twice.
pub open spec fn distinct<V>(rows: Seq<(Seq<char>, V)>) -> bool {
    forall|i: int, j: int|
        0 <= i < j < rows.len() ==> (#[trigger] rows[i]).0 != (#[trigger] rows[j]).0
}

proof fn lemma_first_exists<V>(rows: Seq<(Seq<char>, V)>, key: Seq<char>, i: int)
    requires
        0 <= i < rows.len(),
        rows[i].0 == key,
    ensures
        exists|k: int| first_at(rows, key, k),
    decreases i,
{
    if forall|j: int| 0 <= j < i ==> (#[trigger] rows[j]).0 != key {
        assert(first_at(rows, key, i));
    } else {
        let j = choose|j: int| 0 <= j < i && (#[trigger] rows[j]).0 == key;
        lemma_first_exists(rows, key, j);
    }
}

/// The first row with a name is where `index_of` says, and gives the value.
pub proof fn lemma_lookup_first<V>(rows: Seq<(Seq<char>, V)>, key: Seq<char>, i: int)
    requires
        first_at(rows, key, i),
    ensures
        has_name(rows, key),
        index_of(rows, key) == i,
        lookup(rows, key) == Some(rows[i].1),
{
    assert(rows[i].0 == key);
    let k = index_of(rows, key);
    assert(first_at(rows, key, k));
    if k < i {
        assert(rows[k].0 != key);
    }
    if i < k {
        assert(rows[i].0 != key);
    }
}

/// A name that the rows have is first somewhere.
pub proof fn lemma_index_of<V>(rows: Seq<(Seq<char>, V)>, key: Seq<char>)
    requires
        has_name(rows, key),
    ensures
        first_at(rows, key, index_of(rows, key)),
        0 <= index_of(rows, key) < rows.len(),
{
    let i = choose|i: int| 0 <= i < rows.len() && (#[trigger] rows[i]).0 == key;
    lemma_first_exists(rows, key, i);
}

/// A name that was given a value is looked up with that value, every other name
/// as before, and names that were distinct stay distinct.
pub proof fn put_changes_one_name<V>(
    rows: Seq<(Seq<char>, V)>,
    key: Seq<char>,
    value: V,
    other: Seq<char>,
)
    ensures
        lookup(put(rows, key, value), key) == Some(value),
        other != key ==> lookup(put(rows, key, value), other) == lookup(rows, other),
        distinct(rows) ==> distinct(put(rows, key, value)),
        has_name(put(rows, key, value), other) <==> other == key || has_name(rows, other),
{
    let after = put(rows, key, value);
    if has_name(rows, key) {
        lemma_index_of(rows, key);
        let k = index_of(rows, key);
        assert(first_at(after, key, k));
        lemma_lookup_first(after, key, k);
        assert(forall|j: int| 0 <= j < rows.len() ==> (#[trigger] after[j]).0 == rows[j].0);
    } else {
        assert(after[rows.len() as int].0 == key);
        assert forall|j: int| 0 <= j < rows.len() implies (#[trigger] after[j]).0 != key by {
            assert(after[j] == rows[j]);
        }
        assert(first_at(after, key, rows.len() as int));
        lemma_lookup_first(after, key, rows.len() as int);
    }
    if other != key {
        if has_name(rows, other) {
            lemma_index_of(rows, other);
            let i = index_of(rows, other);
            assert(after[i] == rows[i]);
            assert forall|j: int| 0 <= j < i implies (#[trigger] after[j]).0 != other by {
                assert(rows[j].0 != other);
            }
            assert(first_at(after, other, i));
            lemma_lookup_first(after, other, i);
        } else if has_name(after, other) {
            let j = choose|j: int| 0 <= j < after.len() && (#[trigger] after[j]).0 == other;
            if j < rows.len() {
                assert(rows[j].0 == other);
            }
        }
    }
    assert(distinct(rows) ==> distinct(after)) by {
        if distinct(rows) {
            assert forall|i: int, j: int| 0 <= i < j < after.len() implies (#[trigger] after[i]).0
                != (#[trigger] after[j]).0 by {
                assert(rows[i].0 == after[i].0 || i == rows.len());
                if j < rows.len() {
                    assert(rows[i].0 != rows[j].0);
                }
            }
        }
    }
}

/// The rows with `f` applied to every value.
pub open spec fn mapped<V, W>(rows: Seq<(Seq<char>, V)>, f: spec_fn(V) -> W) -> Seq<
    (Seq<char>, W),
> {
    rows.map_values(|row: (Seq<char>, V)| (row.0, f(row.1)))
}

/// Applying a function to every value leaves the names where they are.
pub proof fn lemma_mapped<V, W>(rows: Seq<(Seq<char>, V)>, f: spec_fn(V) -> W, key: Seq<char>)
    ensures
        has_name(mapped(rows, f), key) == has_name(rows, key),
        has_name(rows, key) ==> index_of(mapped(rows, f), key) == index_of(rows, key),
        lookup(mapped(rows, f), key) == match lookup(rows, key) {
            Some(v) => Some(f(v)),
            None => None,
        },
{
    let m = mapped(rows, f);
    if has_name(rows, key) {
        lemma_index_of(rows, key);
        let i = index_of(rows, key);
        assert(m[i].0 == key);
        assert forall|j: int| 0 <= j < i implies (#[trigger] m[j]).0 != key by {
            assert(rows[j].0 != key);
        }
        assert(first_at(m, key, i));
        lemma_lookup_first(m, key, i);
    }
    if has_name(m, key) {
        let i = choose|i: int| 0 <= i < m.len() && (#[trigger] m[i]).0 == key;
        assert(rows[i].0 == key);
    }
}

/// Giving a name a value and applying a function to every value commute.
pub proof fn lemma_mapped_put<V, W>(
    rows: Seq<(Seq<char>, V)>,
    f: spec_fn(V) -> W,
    key: Seq<char>,
    value: V,
)
    ensures
        mapped(put(rows, key, value), f) == put(mapped(rows, f), key, f(value)),
{
    lemma_mapped(rows, f, key);
    if has_name(rows, key) {
        lemma_index_of(rows, key);
    }
    assert(mapped(put(rows, key, value), f) =~= put(mapped(rows, f), key, f(value)));
}

/// Rows with distinct names, in the order in which the names first came.
#[derive(Debug, PartialEq)]
pub struct Table<V> {
    pub(crate) entries: Vec<(String, V)>,
}

/// The rows of a list of entries.
pub open spec fn rows<V>(entries: Seq<(String, V)>) -> Seq<(Seq<char>, V)> {
    entries.map_values(|e: (String, V)| (e.0@, e.1))
}

impl<V> View for Table<V> {
    type V = Seq<(Seq<char>, V)>;

    closed spec fn view(&self) -> Seq<(Seq<char>, V)> {
        rows(self.entries@)
    }
}

/// A value in a table is structurally smaller than the table.
pub proof fn lemma_value_is_smaller<V>(table: Table<V>, i: int)
    requires
        0 <= i < table@.len(),
    ensures
        decreases_to!(table => table@[i].1),
{
    assert(decreases_to!(table => table.entries));
    assert(decreases_to!(table.entries => table.entries@));
    assert(decreases_to!(table.entries@ => table.entries@[i]));
    assert(decreases_to!(table.entries@[i] => table.entries@[i].1));
}

impl<V> Table<V> {
    #[verifier::type_invariant]
    spec fn names_are_distinct(self) -> bool {
        distinct(self@)
    }

    pub fn new() -> (r: Self)
        ensures
            r@ == Seq::<(Seq<char>, V)>::empty(),
    {
        let entries: Vec<(String, V)> = Vec::new();
        proof {
            assert(rows(entries@) =~= Seq::<(Seq<char>, V)>::empty());
        }
        Table { entries }
    }

    /// The table with the given rows, whose names are distinct.
    pub fn from_entries(entries: Vec<(String, V)>) -> (r: Self)
        requires
            distinct(rows(entries@)),
        ensures
            r@ == rows(entries@),
    {
        Table { entries }
    }

    pub fn len(&self) -> (r: usize)
        ensures
            r == self@.len(),
            distinct(self@),
    {
        proof {
            use_type_invariant(self);
        }
        self.entries.len()
    }

    /// The name of row `i`.
    pub fn name(&self, i: usize) -> (r: &str)
        requires
            i < self@.len(),
        ensures
            r@ == self@[i as int].0,
    {
        self.entries[i].0.as_str()
    }

    /// The value of row `i`.
    pub fn value(&self, i: usize) -> (r: &V)
        requires
            i < self@.len(),
        ensures
            *r == self@[i as int].1,
    {
        &self.entries[i].1
    }

    fn find(&self, key: &str) -> (r: Option<usize>)
        ensures
            match r {
                Some(i) => first_at(self@, key@, i as int),
                None => !has_name(self@, key@),
            },
    {
        let mut i: usize = 0;
        while i < self.entries.len()
            invariant
                i <= self.entries.len(),
                forall|j: int| 0 <= j < i ==> (#[trigger] self@[j]).0 != key@,
            decreases self.entries.len() - i,
        {
            if same(&self.entries[i].0, key) {
                return Some(i);
            }
            i = i + 1;
        }
        None
    }

    pub fn get(&self, key: &str) -> (r: Option<&V>)
        ensures
            match r {
                Some(v) => lookup(self@, key@) == Some(*v),
                None => lookup(self@, key@) is None,
            },
    {
        match self.find(key) {
            Some(i) => {
                proof {
                    lemma_lookup_first(self@, key@, i as int);
                }
                Some(&self.entries[i].1)
            },
            None => None,
        }
    }

    pub fn contains_key(&self, key: &str) -> (r: bool)
        ensures
            r == has_name(self@, key@),
    {
        match self.find(key) {
            Some(i) => {
                proof {
                    lemma_lookup_first(self@, key@, i as int);
                }
                true
            },
            None => false,
        }
    }

    /// Gives `key` the value `value`, in place of the value that it had.
    pub fn insert(&mut self, key: String, value: V)
        ensures
            final(self)@ == put(old(self)@, key@, value),
            distinct(final(self)@),
    {
        proof {
            use_type_invariant(&*self);
            put_changes_one_name(self@, key@, value, key@);
        }
        let found: Option<usize> = self.find(&key);
        let ghost before = self@;
        let ghost name = key@;
        let mut entries: Vec<(String, V)> = Vec::new();
        std::mem::swap(&mut entries, &mut self.entries);
        match found {
            Some(i) => {
                proof {
                    lemma_lookup_first(before, name, i as int);
                }
                entries[i] = (key, value);
                proof {
                    assert(rows(entries@) =~= put(before, name, value));
                }
            },
            None => {
                entries.push((key, value));
                proof {
                    assert(rows(entries@) =~= put(before, name, value));
                }
            },
        }
        self.entries = entries;
    }
}

} // verus!
