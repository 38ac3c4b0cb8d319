//! Dataset rows and the dataset store.
//!
//! A dataset is identified by an absolute path and holds an ordered list of
//! rows; each row maps field names to values. An update for a path replaces
//! the previous rows entirely.

use vstd::prelude::*;

verus! {

/// One data row: an association list from field name to value.
/// Lookup returns the value of the first pair whose name matches.
pub struct DatasetData {
    pub fields: Vec<(String, String)>,
}

impl View for DatasetData {
    type V = Seq<(Seq<char>, Seq<char>)>;

    closed spec fn view(&self) -> Seq<(Seq<char>, Seq<char>)> {
        Seq::new(self.fields@.len(), |i: int| (self.fields@[i].0@, self.fields@[i].1@))
    }
}

/// First-match lookup in an association list.
pub open spec fn assoc_get(fields: Seq<(Seq<char>, Seq<char>)>, name: Seq<char>) -> Option<
    Seq<char>,
>
    decreases fields.len(),
{
    if fields.len() == 0 {
        None
    } else if fields[0].0 == name {
        Some(fields[0].1)
    } else {
        assoc_get(fields.skip(1), name)
    }
}

proof fn lemma_assoc_get_step(fields: Seq<(Seq<char>, Seq<char>)>, name: Seq<char>, i: int)
    requires
        0 <= i < fields.len(),
        fields[i].0 != name,
    ensures
        assoc_get(fields.skip(i), name) == assoc_get(fields.skip(i + 1), name),
{
    assert(fields.skip(i).skip(1) =~= fields.skip(i + 1));
    assert(fields.skip(i)[0] == fields[i]);
}

impl DatasetData {
    /// The value bound to `name`, if any.
    pub open spec fn spec_get(self, name: Seq<char>) -> Option<Seq<char>> {
        assoc_get(self@, name)
    }

    /// A row built from its field pairs.
    pub fn new(fields: Vec<(String, String)>) -> (r: DatasetData)
        ensures
            r@.len() == fields@.len(),
            forall|i: int|
                0 <= i < fields@.len() ==> #[trigger] r@[i] == (fields@[i].0@, fields@[i].1@),
    {
        DatasetData { fields }
    }

    /// Looks a field up by name; the first matching pair wins.
    pub fn get(&self, name: &String) -> (r: Option<&String>)
        ensures
            match r {
                Some(v) => self.spec_get(name@) == Some(v@),
                None => self.spec_get(name@) is None,
            },
    {
        let n = self.fields.len();
        let mut i: usize = 0;
        assert(self@.skip(0) =~= self@);
        while i < n
            invariant
                n == self.fields.len(),
                0 <= i <= n,
                assoc_get(self@, name@) == assoc_get(self@.skip(i as int), name@),
            decreases n - i,
        {
            assert(self@.skip(i as int)[0] == self@[i as int]);
            if self.fields[i].0.eq(name) {
                return Some(&self.fields[i].1);
            }
            proof {
                lemma_assoc_get_step(self@, name@, i as int);
            }
            i += 1;
        }
        assert(self@.skip(n as int) =~= Seq::<(Seq<char>, Seq<char>)>::empty());
        None
    }

    /// A copy of the row with the same fields.
    pub fn duplicate(&self) -> (r: DatasetData)
        ensures
            r@ == self@,
    {
        let mut fields: Vec<(String, String)> = Vec::new();
        let n = self.fields.len();
        let mut i: usize = 0;
        while i < n
            invariant
                n == self.fields.len(),
                0 <= i <= n,
                fields@.len() == i,
                forall|j: int|
                    0 <= j < i ==> #[trigger] fields@[j].0@ == self.fields@[j].0@
                        && fields@[j].1@ == self.fields@[j].1@,
            decreases n - i,
        {
            let name = self.fields[i].0.clone();
            let value = self.fields[i].1.clone();
            fields.push((name, value));
            i += 1;
        }
        let r = DatasetData { fields };
        proof {
            assert(r@ =~= self@);
        }
        r
    }
}

/// The view of an optional row, for contracts that cache a resolved row.
pub open spec fn opt_row_view(o: Option<DatasetData>) -> Option<Seq<(Seq<char>, Seq<char>)>> {
    match o {
        Some(row) => Some(row@),
        None => None,
    }
}

/// The store of datasets: an association from absolute path to rows,
/// with at most one entry per path. A dataset update replaces the rows
/// for its path wholesale.
pub struct DatasetStore {
    entries: Vec<(String, Vec<DatasetData>)>,
}

/// First-match lookup of a dataset by path.
pub open spec fn store_get(
    entries: Seq<(String, Vec<DatasetData>)>,
    path: Seq<char>,
) -> Option<Seq<DatasetData>>
    decreases entries.len(),
{
    if entries.len() == 0 {
        None
    } else if entries[0].0@ == path {
        Some(entries[0].1@)
    } else {
        store_get(entries.skip(1), path)
    }
}

proof fn lemma_store_get_step(entries: Seq<(String, Vec<DatasetData>)>, path: Seq<char>, i: int)
    requires
        0 <= i < entries.len(),
        entries[i].0@ != path,
    ensures
        store_get(entries.skip(i), path) == store_get(entries.skip(i + 1), path),
{
    assert(entries.skip(i).skip(1) =~= entries.skip(i + 1));
    assert(entries.skip(i)[0] == entries[i]);
}

proof fn lemma_store_get_found(entries: Seq<(String, Vec<DatasetData>)>, path: Seq<char>, i: int)
    requires
        0 <= i < entries.len(),
        entries[i].0@ == path,
        forall|j: int| 0 <= j < i ==> #[trigger] entries[j].0@ != path,
    ensures
        store_get(entries, path) == Some(entries[i].1@),
    decreases i,
{
    if i == 0 {
    } else {
        assert(entries.skip(1)[i - 1] == entries[i]);
        assert forall|j: int| 0 <= j < i - 1 implies #[trigger] entries.skip(1)[j].0@ != path by {
            assert(entries.skip(1)[j] == entries[j + 1]);
        }
        lemma_store_get_found(entries.skip(1), path, i - 1);
    }
}

impl DatasetStore {
    /// The rows bound to `path`, if that dataset has been received.
    pub closed spec fn spec_rows(self, path: Seq<char>) -> Option<Seq<DatasetData>> {
        store_get(self.entries@, path)
    }

    /// The store with no datasets.
    pub fn new() -> (r: DatasetStore)
        ensures
            forall|p: Seq<char>| r.spec_rows(p) is None,
    {
        DatasetStore { entries: Vec::new() }
    }

    /// The rows for a path, or none if the dataset is unknown.
    pub fn get_rows(&self, path: &String) -> (r: Option<&Vec<DatasetData>>)
        ensures
            match r {
                Some(rows) => self.spec_rows(path@) == Some(rows@),
                None => self.spec_rows(path@) is None,
            },
    {
        let n = self.entries.len();
        let mut i: usize = 0;
        assert(self.entries@.skip(0) =~= self.entries@);
        while i < n
            invariant
                n == self.entries.len(),
                0 <= i <= n,
                store_get(self.entries@, path@) == store_get(self.entries@.skip(i as int), path@),
            decreases n - i,
        {
            assert(self.entries@.skip(i as int)[0] == self.entries@[i as int]);
            if self.entries[i].0.eq(path) {
                return Some(&self.entries[i].1);
            }
            proof {
                lemma_store_get_step(self.entries@, path@, i as int);
            }
            i += 1;
        }
        assert(self.entries@.skip(n as int) =~= Seq::<(String, Vec<DatasetData>)>::empty());
        None
    }

    /// Replaces the rows for `path` entirely, creating the entry if absent.
    pub fn insert(&mut self, path: String, rows: Vec<DatasetData>)
        ensures
            final(self).spec_rows(path@) == Some(rows@),
            forall|p: Seq<char>|
                p != path@ ==> #[trigger] final(self).spec_rows(p) == old(self).spec_rows(p),
    {
        let n = self.entries.len();
        let mut i: usize = 0;
        while i < n
            invariant
                n == self.entries.len(),
                0 <= i <= n,
                self == old(self),
                forall|j: int| 0 <= j < i ==> #[trigger] self.entries@[j].0@ != path@,
            decreases n - i,
        {
            if self.entries[i].0.eq(&path) {
                let ghost before = self.entries@;
                let ghost p_at = path@;
                self.entries[i] = (path, rows);
                proof {
                    lemma_store_get_found(self.entries@, p_at, i as int);
                    assert forall|p: Seq<char>| p != p_at implies #[trigger] store_get(
                        self.entries@,
                        p,
                    ) == store_get(before, p) by {
                        lemma_store_get_unrelated(before, self.entries@, i as int, p);
                    }
                }
                return ;
            }
            i += 1;
        }
        let ghost before = self.entries@;
        let ghost p_at = path@;
        self.entries.push((path, rows));
        proof {
            assert(self.entries@[n as int].0@ == p_at);
            lemma_store_get_found(self.entries@, p_at, n as int);
            assert forall|p: Seq<char>| p != p_at implies #[trigger] store_get(self.entries@, p)
                == store_get(before, p) by {
                lemma_store_get_push_other(before, self.entries@[n as int], p);
            }
        }
    }
}

proof fn lemma_store_get_unrelated(
    before: Seq<(String, Vec<DatasetData>)>,
    after: Seq<(String, Vec<DatasetData>)>,
    i: int,
    p: Seq<char>,
)
    requires
        0 <= i < before.len(),
        after.len() == before.len(),
        forall|j: int| 0 <= j < before.len() && j != i ==> after[j] == before[j],
        p != after[i].0@,
        p != before[i].0@,
    ensures
        store_get(after, p) == store_get(before, p),
    decreases before.len(),
{
    if i == 0 {
        assert(before.skip(1) =~= after.skip(1));
    } else {
        assert(before[0] == after[0]);
        if before[0].0@ != p {
            lemma_store_get_unrelated(before.skip(1), after.skip(1), i - 1, p);
        }
    }
}

proof fn lemma_store_get_push_other(
    entries: Seq<(String, Vec<DatasetData>)>,
    entry: (String, Vec<DatasetData>),
    p: Seq<char>,
)
    requires
        p != entry.0@,
    ensures
        store_get(entries.push(entry), p) == store_get(entries, p),
    decreases entries.len(),
{
    if entries.len() == 0 {
        assert(entries.push(entry)[0] == entry);
        assert(entries.push(entry).skip(1) =~= entries);
        assert(store_get(entries, p) is None);
    } else {
        assert(entries.push(entry)[0] == entries[0]);
        if entries[0].0@ != p {
            assert(entries.push(entry).skip(1) =~= entries.skip(1).push(entry));
            lemma_store_get_push_other(entries.skip(1), entry, p);
        }
    }
}

} // verus!
