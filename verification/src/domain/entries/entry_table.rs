//! The entries by name: a map kept as rows with distinct names.

use crate::domain::entries::entry_model::EntryModel;
use crate::domain::entries::ledger::EntryView;
use vstd::prelude::*;

verus! {

/// A row as a mathematical value: a name and the entry under it.
pub type Row = (Seq<char>, EntryView);

/// No name stands in two rows.
pub open spec fn distinct_names(rows: Seq<Row>) -> bool {
    forall|i: int, j: int| 0 <= i < j < rows.len() ==> (#[trigger] rows[i]).0 != (#[trigger] rows[j]).0
}

/// Some row carries the name.
pub open spec fn has_row(rows: Seq<Row>, name: Seq<char>) -> bool {
    exists|i: int| 0 <= i < rows.len() && (#[trigger] rows[i]).0 == name
}

/// A row that carries the name, if there is one.
pub open spec fn row_of(rows: Seq<Row>, name: Seq<char>) -> int {
    choose|i: int| 0 <= i < rows.len() && (#[trigger] rows[i]).0 == name
}

/// The map that the rows stand for.
pub open spec fn rows_map(rows: Seq<Row>) -> Map<Seq<char>, EntryView> {
    Map::new(|name: Seq<char>| has_row(rows, name), |name: Seq<char>| rows[row_of(rows, name)].1)
}

/// Among distinct names, a row is the row of its name.
pub proof fn lemma_row(rows: Seq<Row>, i: int)
    requires
        distinct_names(rows),
        0 <= i < rows.len(),
    ensures
        has_row(rows, rows[i].0),
        row_of(rows, rows[i].0) == i,
        rows_map(rows).contains_key(rows[i].0),
        rows_map(rows)[rows[i].0] == rows[i].1,
{
    let j = row_of(rows, rows[i].0);
    assert(0 <= j < rows.len() && rows[j].0 == rows[i].0);
}

/// Distinct names make as many entries as there are rows.
pub proof fn lemma_rows_len(rows: Seq<Row>)
    requires
        distinct_names(rows),
    ensures
        rows_map(rows).dom().finite(),
        rows_map(rows).len() == rows.len(),
    decreases rows.len(),
{
    if rows.len() == 0 {
        assert(rows_map(rows) =~= Map::<Seq<char>, EntryView>::empty());
    } else {
        let front = rows.drop_last();
        let last = rows.last();
        assert forall|i: int, j: int| 0 <= i < j < front.len() implies (#[trigger] front[i]).0 != (
        #[trigger] front[j]).0 by {
            assert(front[i] == rows[i] && front[j] == rows[j]);
        }
        lemma_rows_len(front);
        assert(!has_row(front, last.0)) by {
            if has_row(front, last.0) {
                let i = row_of(front, last.0);
                assert(front[i] == rows[i]);
                assert(rows[i].0 != rows[rows.len() - 1].0);
            }
        }
        lemma_push_row(front, last);
        assert(front.push(last) =~= rows);
        assert(!rows_map(front).contains_key(last.0));
    }
}

/// A new row under a name that no row carries adds that name to the map.
pub proof fn lemma_push_row(rows: Seq<Row>, row: Row)
    requires
        distinct_names(rows),
        !has_row(rows, row.0),
    ensures
        distinct_names(rows.push(row)),
        rows_map(rows.push(row)) == rows_map(rows).insert(row.0, row.1),
{
    let longer = rows.push(row);
    assert forall|i: int, j: int| 0 <= i < j < longer.len() implies (#[trigger] longer[i]).0 != (
    #[trigger] longer[j]).0 by {
        if j == rows.len() {
            assert(rows[i].0 != row.0);
        } else {
            assert(rows[i].0 != rows[j].0);
        }
    }
    let last = rows.len() as int;
    assert(longer[last] == row);
    assert forall|name: Seq<char>|
        #![trigger rows_map(longer).contains_key(name)]
        #![trigger rows_map(rows).insert(row.0, row.1).contains_key(name)]
        rows_map(longer).contains_key(name) == rows_map(rows).insert(row.0, row.1).contains_key(
            name,
        ) && (rows_map(longer).contains_key(name) ==> rows_map(longer)[name] == rows_map(
            rows,
        ).insert(row.0, row.1)[name]) by {
        if has_row(longer, name) {
            let j = row_of(longer, name);
            lemma_row(longer, j);
            if j < last {
                assert(rows[j].0 == name);
                lemma_row(rows, j);
            }
        }
        if has_row(rows, name) {
            let j = row_of(rows, name);
            assert(longer[j].0 == name);
        }
        if name == row.0 {
            lemma_row(longer, last);
        }
    }
    assert(rows_map(longer) =~= rows_map(rows).insert(row.0, row.1));
}

/// A row taken out takes its name out of the map.
pub proof fn lemma_remove_row(rows: Seq<Row>, i: int)
    requires
        distinct_names(rows),
        0 <= i < rows.len(),
    ensures
        distinct_names(rows.remove(i)),
        rows_map(rows.remove(i)) == rows_map(rows).remove(rows[i].0),
{
    let shorter = rows.remove(i);
    let gone = rows[i].0;
    assert forall|a: int, b: int| 0 <= a < b < shorter.len() implies (#[trigger] shorter[a]).0 != (
    #[trigger] shorter[b]).0 by {
        let a0 = if a < i { a } else { a + 1 };
        let b0 = if b < i { b } else { b + 1 };
        assert(shorter[a] == rows[a0] && shorter[b] == rows[b0]);
        assert(rows[a0].0 != rows[b0].0);
    }
    assert forall|name: Seq<char>|
        #![trigger rows_map(shorter).contains_key(name)]
        #![trigger rows_map(rows).remove(gone).contains_key(name)]
        rows_map(shorter).contains_key(name) == rows_map(rows).remove(gone).contains_key(name) && (
        rows_map(shorter).contains_key(name) ==> rows_map(shorter)[name] == rows_map(rows).remove(
            gone,
        )[name]) by {
        if has_row(shorter, name) {
            let j = row_of(shorter, name);
            lemma_row(shorter, j);
            let j0 = if j < i { j } else { j + 1 };
            assert(shorter[j] == rows[j0]);
            lemma_row(rows, j0);
            lemma_row(rows, i);
        }
        if has_row(rows, name) && name != gone {
            let j0 = row_of(rows, name);
            lemma_row(rows, j0);
            let j = if j0 < i { j0 } else { j0 - 1 };
            assert(shorter[j] == rows[j0]);
        }
        if name == gone && has_row(shorter, name) {
            let j = row_of(shorter, name);
            let j0 = if j < i { j } else { j + 1 };
            assert(shorter[j] == rows[j0]);
            assert(rows[j0].0 == rows[i].0);
            if j0 < i {
                assert(rows[j0].0 != rows[i].0);
            } else {
                assert(rows[i].0 != rows[j0].0);
            }
        }
    }
    assert(rows_map(shorter) =~= rows_map(rows).remove(gone));
}

/// An entry together with its name.
#[derive(Debug, PartialEq, Eq)]
pub struct NamedEntry {
    pub name: String,
    pub model: EntryModel,
}

/// The entries of a registry by name. No two rows have the same name.
#[derive(Debug)]
pub struct EntryTable {
    rows: Vec<NamedEntry>,
}

impl View for EntryTable {
    type V = Map<Seq<char>, EntryView>;

    open spec fn view(&self) -> Map<Seq<char>, EntryView> {
        rows_map(self.rows())
    }
}

impl EntryTable {
    /// The rows in the order in which they are kept.
    pub closed spec fn rows(&self) -> Seq<Row> {
        self.rows@.map_values(|row: NamedEntry| (row.name@, row.model@))
    }

    /// No name stands in two rows.
    pub open spec fn wf(&self) -> bool {
        distinct_names(self.rows())
    }

    /// The empty table.
    pub fn new() -> (table: EntryTable)
        ensures
            table.wf(),
            table@ == Map::<Seq<char>, EntryView>::empty(),
            table.rows().len() == 0,
    {
        let table = EntryTable { rows: Vec::new() };
        assert(table@ =~= Map::<Seq<char>, EntryView>::empty());
        table
    }

    /// The number of entries.
    pub fn len(&self) -> (n: usize)
        ensures
            n == self.rows().len(),
    {
        self.rows.len()
    }

    /// The row at an index.
    pub fn row(&self, i: usize) -> (row: &NamedEntry)
        requires
            i < self.rows().len(),
        ensures
            (row.name@, row.model@) == self.rows()[i as int],
    {
        &self.rows[i]
    }

    /// The index of the row that carries the name.
    pub fn find(&self, name: &String) -> (r: Option<usize>)
        ensures
            match r {
                Some(i) => i < self.rows().len() && self.rows()[i as int].0 == name@,
                None => !has_row(self.rows(), name@),
            },
    {
        let mut i: usize = 0;
        while i < self.rows.len()
            invariant
                i <= self.rows().len(),
                self.rows().len() == self.rows@.len(),
                forall|k: int| 0 <= k < i ==> (#[trigger] self.rows()[k]).0 != name@,
            decreases self.rows@.len() - i,
        {
            if self.rows[i].name == *name {
                return Some(i);
            }
            i += 1;
        }
        None
    }

    /// Whether an entry stands under the name.
    pub fn contains_key(&self, name: &String) -> (b: bool)
        requires
            self.wf(),
        ensures
            b == self@.contains_key(name@),
    {
        match self.find(name) {
            Some(i) => {
                proof {
                    lemma_row(self.rows(), i as int);
                }
                true
            },
            None => false,
        }
    }

    /// The entry under the name.
    pub fn get(&self, name: &String) -> (r: Option<&EntryModel>)
        requires
            self.wf(),
        ensures
            match r {
                Some(model) => self@.contains_key(name@) && model@ == self@[name@],
                None => !self@.contains_key(name@),
            },
    {
        match self.find(name) {
            Some(i) => {
                proof {
                    lemma_row(self.rows(), i as int);
                }
                Some(&self.rows[i].model)
            },
            None => None,
        }
    }

    /// Takes the entry under the name out of the table.
    pub fn remove(&mut self, name: &String) -> (r: Option<EntryModel>)
        requires
            old(self).wf(),
        ensures
            final(self).wf(),
            final(self)@ == old(self)@.remove(name@),
            match r {
                Some(model) => old(self)@.contains_key(name@) && model@ == old(self)@[name@],
                None => !old(self)@.contains_key(name@),
            },
    {
        match self.find(name) {
            Some(i) => {
                proof {
                    lemma_row(self.rows(), i as int);
                    lemma_remove_row(self.rows(), i as int);
                }
                let row = self.rows.remove(i);
                assert(self.rows() =~= old(self).rows().remove(i as int));
                Some(row.model)
            },
            None => {
                assert(self@ =~= old(self)@.remove(name@));
                None
            },
        }
    }

    /// Puts the entry under the name, in place of the one that was there.
    pub fn insert(&mut self, name: String, model: EntryModel)
        requires
            old(self).wf(),
        ensures
            final(self).wf(),
            final(self)@ == old(self)@.insert(name@, model@),
    {
        let ghost row: Row = (name@, model@);
        let _ = self.remove(&name);
        proof {
            assert(!self@.contains_key(row.0));
            assert(rows_map(self.rows()).contains_key(row.0) == has_row(self.rows(), row.0));
            lemma_push_row(self.rows(), row);
        }
        let ghost before = self.rows();
        self.rows.push(NamedEntry { name, model });
        assert(self.rows() =~= before.push(row));
        assert(self@ =~= old(self)@.insert(row.0, row.1));
    }
}

} // verus!
