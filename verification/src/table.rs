//! Column definitions and the rows of one table.

use vstd::prelude::*;

verus! {

/// One column of a table.
///
/// `is_primary_key` is declarative: the engine records it and enforces nothing
/// from it. `foreign_key` names a table and one of its columns; it is enforced
/// when a row is inserted. Names are meant to differ within a table; where
/// two columns share a name, the engine finds the first of them.
#[derive(Debug, PartialEq, Eq)]
pub struct Column {
    pub name: String,
    pub is_primary_key: bool,
    pub foreign_key: Option<(String, String)>,
}

/// What a [`Column`] means in contracts.
pub struct ColumnView {
    pub name: Seq<char>,
    pub is_primary_key: bool,
    pub foreign_key: Option<(Seq<char>, Seq<char>)>,
}

impl DeepView for Column {
    type V = ColumnView;

    open spec fn deep_view(&self) -> ColumnView {
        ColumnView {
            name: self.name@,
            is_primary_key: self.is_primary_key,
            foreign_key: self.foreign_key.deep_view(),
        }
    }
}

impl View for Column {
    type V = ColumnView;

    open spec fn view(&self) -> ColumnView {
        self.deep_view()
    }
}

impl Clone for Column {
    fn clone(&self) -> (copy: Self)
        ensures
            copy@ == self@,
    {
        Column {
            name: self.name.clone(),
            is_primary_key: self.is_primary_key,
            foreign_key: match &self.foreign_key {
                Some((table, column)) => Some((table.clone(), column.clone())),
                None => None,
            },
        }
    }
}

impl Column {
    /// A column with no key of either kind.
    pub fn plain(name: String) -> (column: Column)
        ensures
            column@ == ColumnView::plain(name@),
    {
        Column { name, is_primary_key: false, foreign_key: None }
    }
}

impl ColumnView {
    /// A column with no key of either kind.
    pub open spec fn plain(name: Seq<char>) -> ColumnView {
        ColumnView { name, is_primary_key: false, foreign_key: None }
    }
}

/// The column definitions of a table and its rows, in insertion order.
#[derive(Debug, PartialEq, Eq)]
pub struct Table {
    pub columns: Vec<Column>,
    pub data: Vec<Vec<String>>,
}

/// What a [`Table`] means in contracts.
pub struct TableView {
    pub columns: Seq<ColumnView>,
    pub rows: Seq<Seq<Seq<char>>>,
}

impl DeepView for Table {
    type V = TableView;

    open spec fn deep_view(&self) -> TableView {
        TableView { columns: self.columns.deep_view(), rows: self.data.deep_view() }
    }
}

impl View for Table {
    type V = TableView;

    open spec fn view(&self) -> TableView {
        self.deep_view()
    }
}

/// The names of `columns`, in order.
pub open spec fn column_names(columns: Seq<ColumnView>) -> Seq<Seq<char>> {
    columns.map_values(|c: ColumnView| c.name)
}

impl TableView {
    /// Every row has one value for each column.
    pub open spec fn wf(self) -> bool {
        forall|r: int| 0 <= r < self.rows.len() ==> (#[trigger] self.rows[r]).len() == self.columns.len()
    }

    /// A table with these columns and no rows.
    pub open spec fn empty(columns: Seq<ColumnView>) -> TableView {
        TableView { columns, rows: Seq::empty() }
    }

    /// The position of the first column called `name`.
    pub open spec fn position(self, name: Seq<char>) -> Option<int> {
        column_names(self.columns).index_of_first(name)
    }

    /// The table with `column` added last and every row given an empty value for it.
    pub open spec fn with_column(self, column: ColumnView) -> TableView {
        TableView {
            columns: self.columns.push(column),
            rows: self.rows.map_values(|row: Seq<Seq<char>>| row.push(Seq::<char>::empty())),
        }
    }

    /// The table without the column at `index`, and without the value at
    /// `index` in every row.
    pub open spec fn without_column(self, index: int) -> TableView {
        TableView {
            columns: self.columns.remove(index),
            rows: self.rows.map_values(|row: Seq<Seq<char>>| row.remove(index)),
        }
    }

    /// The table with `row` added last.
    pub open spec fn with_row(self, row: Seq<Seq<char>>) -> TableView {
        TableView { columns: self.columns, rows: self.rows.push(row) }
    }

    /// Some row holds `value` at `index`.
    pub open spec fn holds(self, index: int, value: Seq<char>) -> bool {
        exists|r: int| 0 <= r < self.rows.len() && (#[trigger] self.rows[r])[index] == value
    }

    /// The rows that hold `value` at `index`, in insertion order.
    pub open spec fn rows_where(self, index: int, value: Seq<char>) -> Seq<Seq<Seq<char>>> {
        self.rows.filter(holds_at(index, value))
    }
}

/// The test that a row holds `value` at `index`.
pub open spec fn holds_at(index: int, value: Seq<char>) -> spec_fn(Seq<Seq<char>>) -> bool {
    |row: Seq<Seq<char>>| row[index] == value
}

/// A copy of `row`.
pub fn clone_row(row: &Vec<String>) -> (copy: Vec<String>)
    ensures
        copy.deep_view() == row.deep_view(),
{
    let mut copy: Vec<String> = Vec::new();
    let mut i: usize = 0;
    while i < row.len()
        invariant
            i <= row.len(),
            copy.len() == i,
            forall|k: int| 0 <= k < i ==> (#[trigger] copy[k])@ == row[k]@,
        decreases row.len() - i,
    {
        copy.push(row[i].clone());
        i += 1;
    }
    assert(copy.deep_view() =~= row.deep_view());
    copy
}

/// A copy of `rows`.
pub fn clone_rows(rows: &Vec<Vec<String>>) -> (copy: Vec<Vec<String>>)
    ensures
        copy.deep_view() == rows.deep_view(),
{
    let mut copy: Vec<Vec<String>> = Vec::new();
    let mut i: usize = 0;
    while i < rows.len()
        invariant
            i <= rows.len(),
            copy.len() == i,
            forall|k: int| 0 <= k < i ==> (#[trigger] copy[k]).deep_view() == rows[k].deep_view(),
        decreases rows.len() - i,
    {
        copy.push(clone_row(&rows[i]));
        i += 1;
    }
    assert(copy.deep_view() =~= rows.deep_view());
    copy
}

/// A copy of `columns`.
pub fn clone_columns(columns: &Vec<Column>) -> (copy: Vec<Column>)
    ensures
        copy.deep_view() == columns.deep_view(),
{
    let mut copy: Vec<Column> = Vec::new();
    let mut i: usize = 0;
    while i < columns.len()
        invariant
            i <= columns.len(),
            copy.len() == i,
            forall|k: int| 0 <= k < i ==> (#[trigger] copy[k])@ == columns[k]@,
        decreases columns.len() - i,
    {
        copy.push(columns[i].clone());
        i += 1;
    }
    assert(copy.deep_view() =~= columns.deep_view());
    copy
}

impl Clone for Table {
    fn clone(&self) -> (copy: Self)
        ensures
            copy@ == self@,
    {
        Table { columns: clone_columns(&self.columns), data: clone_rows(&self.data) }
    }
}

impl Table {
    /// A table with these columns and no rows.
    pub fn new(columns: Vec<Column>) -> (table: Table)
        ensures
            table@ == TableView::empty(columns.deep_view()),
            table@.wf(),
    {
        let table = Table { columns, data: Vec::new() };
        assert(table.data.deep_view() =~= Seq::empty());
        table
    }

    /// Whether every row has one value for each column.
    pub fn is_well_formed(&self) -> (yes: bool)
        ensures
            yes == self@.wf(),
    {
        let mut r: usize = 0;
        while r < self.data.len()
            invariant
                r <= self.data.len(),
                forall|k: int| 0 <= k < r ==> (#[trigger] self@.rows[k]).len() == self@.columns.len(),
            decreases self.data.len() - r,
        {
            if self.data[r].len() != self.columns.len() {
                assert(self@.rows[r as int].len() != self@.columns.len());
                return false;
            }
            r += 1;
        }
        true
    }

    /// The position of the first column called `name`, if there is one.
    pub fn position(&self, name: &String) -> (found: Option<usize>)
        ensures
            found is Some <==> self@.position(name@) is Some,
            found is Some ==> found->0 == self@.position(name@)->0 && found->0 < self.columns.len(),
    {
        let ghost names = column_names(self@.columns);
        let mut i: usize = 0;
        while i < self.columns.len()
            invariant
                i <= self.columns.len(),
                names == column_names(self@.columns),
                names.len() == self.columns.len(),
                forall|k: int| 0 <= k < i ==> names[k] != name@,
            decreases self.columns.len() - i,
        {
            if self.columns[i].name == *name {
                proof {
                    assert(names[i as int] == name@);
                    names.index_of_first_ensures(name@);
                }
                return Some(i);
            }
            i += 1;
        }
        proof {
            names.index_of_first_ensures(name@);
        }
        None
    }

    /// Adds a column called `name`, with no key, after the others. Every row
    /// that is already there gets the empty string as its value for it.
    pub fn add_column(&mut self, name: String)
        requires
            old(self)@.wf(),
        ensures
            final(self)@ == old(self)@.with_column(ColumnView::plain(name@)),
            final(self)@.wf(),
    {
        self.columns.push(Column::plain(name));
        assert(self.columns.deep_view() =~= old(self).columns.deep_view().push(
            ColumnView::plain(name@),
        ));
        let ghost columns = self.columns;
        let mut i: usize = 0;
        while i < self.data.len()
            invariant
                i <= self.data.len(),
                self.data.len() == old(self).data.len(),
                self.columns == columns,
                forall|k: int|
                    0 <= k < i ==> (#[trigger] self.data[k]).deep_view() == old(
                        self,
                    ).data[k].deep_view().push(Seq::<char>::empty()),
                forall|k: int| i <= k < self.data.len() ==> (#[trigger] self.data[k]) == old(self).data[k],
            decreases self.data.len() - i,
        {
            let ghost before = self.data[i as int];
            self.data[i].push(String::new());
            assert(self.data[i as int].deep_view() =~= before.deep_view().push(Seq::<char>::empty()));
            i += 1;
        }
        assert(self.data.deep_view() =~= old(self)@.with_column(ColumnView::plain(name@)).rows);
        assert forall|r: int| 0 <= r < self@.rows.len() implies (#[trigger] self@.rows[r]).len()
            == self@.columns.len() by {
            assert(old(self)@.rows[r].len() == old(self).columns.len());
        }
    }

    /// Removes the column at `index`, and from every row the value at `index`.
    pub fn drop_column(&mut self, index: usize)
        requires
            old(self)@.wf(),
            index < old(self).columns.len(),
        ensures
            final(self)@ == old(self)@.without_column(index as int),
            final(self)@.wf(),
    {
        self.columns.remove(index);
        assert(self.columns.deep_view() =~= old(self).columns.deep_view().remove(index as int));
        let ghost columns = self.columns;
        let mut i: usize = 0;
        while i < self.data.len()
            invariant
                i <= self.data.len(),
                self.data.len() == old(self).data.len(),
                self.columns == columns,
                old(self)@.wf(),
                index < old(self).columns.len(),
                forall|k: int|
                    0 <= k < i ==> (#[trigger] self.data[k]).deep_view() == old(
                        self,
                    ).data[k].deep_view().remove(index as int),
                forall|k: int| i <= k < self.data.len() ==> (#[trigger] self.data[k]) == old(self).data[k],
            decreases self.data.len() - i,
        {
            let ghost before = self.data[i as int];
            assert(old(self)@.rows[i as int].len() == old(self).columns.len());
            self.data[i].remove(index);
            assert(self.data[i as int].deep_view() =~= before.deep_view().remove(index as int));
            i += 1;
        }
        assert(self.data.deep_view() =~= old(self)@.without_column(index as int).rows);
        assert forall|r: int| 0 <= r < self@.rows.len() implies (#[trigger] self@.rows[r]).len()
            == self@.columns.len() by {
            assert(old(self)@.rows[r].len() == old(self).columns.len());
        }
    }

    /// Adds `row` after the others.
    pub fn push_row(&mut self, row: Vec<String>)
        requires
            old(self)@.wf(),
            row.len() == old(self).columns.len(),
        ensures
            final(self)@ == old(self)@.with_row(row.deep_view()),
            final(self)@.wf(),
    {
        self.data.push(row);
        assert(self.data.deep_view() =~= old(self).data.deep_view().push(row.deep_view()));
    }

    /// Whether some row holds `value` at `index`.
    pub fn holds(&self, index: usize, value: &String) -> (found: bool)
        requires
            self@.wf(),
            index < self.columns.len(),
        ensures
            found == self@.holds(index as int, value@),
    {
        let mut r: usize = 0;
        while r < self.data.len()
            invariant
                r <= self.data.len(),
                self@.wf(),
                index < self.columns.len(),
                forall|k: int| 0 <= k < r ==> (#[trigger] self@.rows[k])[index as int] != value@,
            decreases self.data.len() - r,
        {
            assert(self@.rows[r as int].len() == self.columns.len());
            if self.data[r][index] == *value {
                assert(self@.rows[r as int][index as int] == value@);
                return true;
            }
            r += 1;
        }
        false
    }

    /// Copies of all rows, in insertion order.
    pub fn all_rows(&self) -> (rows: Vec<Vec<String>>)
        ensures
            rows.deep_view() == self@.rows,
    {
        clone_rows(&self.data)
    }

    /// Copies of the rows that hold `value` at `index`, in insertion order.
    pub fn rows_where(&self, index: usize, value: &String) -> (rows: Vec<Vec<String>>)
        requires
            self@.wf(),
            index < self.columns.len(),
        ensures
            rows.deep_view() == self@.rows_where(index as int, value@),
    {
        let ghost keep = holds_at(index as int, value@);
        let mut rows: Vec<Vec<String>> = Vec::new();
        let mut r: usize = 0;
        assert(rows.deep_view() =~= self@.rows.take(0).filter(keep)) by {
            reveal(Seq::filter);
        }
        while r < self.data.len()
            invariant
                r <= self.data.len(),
                self@.wf(),
                index < self.columns.len(),
                keep == holds_at(index as int, value@),
                rows.deep_view() == self@.rows.take(r as int).filter(keep),
            decreases self.data.len() - r,
        {
            let ghost done = self@.rows.take(r as int);
            let ghost next = self@.rows.take(r + 1);
            assert(self@.rows[r as int].len() == self.columns.len());
            assert(next.drop_last() =~= done);
            assert(next.last() == self@.rows[r as int]);
            assert(next.filter(keep) == if keep(next.last()) {
                done.filter(keep).push(next.last())
            } else {
                done.filter(keep)
            }) by {
                reveal(Seq::filter);
            }
            if self.data[r][index] == *value {
                let ghost before = rows.deep_view();
                rows.push(clone_row(&self.data[r]));
                assert(rows.deep_view() =~= before.push(self@.rows[r as int]));
            }
            r += 1;
        }
        assert(self@.rows.take(r as int) =~= self@.rows);
        rows
    }

    /// Copies of the column names, in order.
    pub fn header(&self) -> (names: Vec<String>)
        ensures
            names.deep_view() == column_names(self@.columns),
    {
        let mut names: Vec<String> = Vec::new();
        let mut i: usize = 0;
        while i < self.columns.len()
            invariant
                i <= self.columns.len(),
                names.len() == i,
                forall|k: int| 0 <= k < i ==> (#[trigger] names[k])@ == self.columns[k].name@,
            decreases self.columns.len() - i,
        {
            names.push(self.columns[i].name.clone());
            i += 1;
        }
        assert(names.deep_view() =~= column_names(self@.columns));
        names
    }
}

} // verus!
