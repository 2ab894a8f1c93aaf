//! The table store: the tables of one database, each under its name.

use vstd::prelude::*;
use crate::error::EngineError;
use crate::model;
use crate::model::Tables;
use crate::named::{as_map, distinct_names, lemma_append, lemma_entry, lemma_replace, lemma_take_out, lists, place};
use crate::table::{Column, ColumnView, Table, TableView};

verus! {

/// Names with their tables, in the order in which the store keeps them.
pub type Listing = Seq<(Seq<char>, TableView)>;

/// The tables of one database, each under its name. No name occurs twice,
/// and every row of every table has one value for each column.
pub struct Catalog {
    entries: Vec<(String, Table)>,
}

impl View for Catalog {
    type V = Tables;

    open spec fn view(&self) -> Tables {
        as_map(self.listing())
    }
}

impl Catalog {
    /// The names and tables in the order in which the store keeps them.
    pub closed spec fn listing(&self) -> Listing {
        self.entries.deep_view()
    }

    /// No name occurs twice, and the rows of every table fit its columns.
    pub open spec fn wf(&self) -> bool {
        &&& distinct_names(self.listing())
        &&& forall|i: int| 0 <= i < self.listing().len() ==> (#[trigger] self.listing()[i]).1.wf()
    }

    /// In a well-formed store the rows of every table of the mapping fit its columns.
    pub proof fn lemma_rows_fit(&self)
        requires
            self.wf(),
        ensures
            model::rows_fit(self@),
    {
        let listing = self.listing();
        assert forall|name: Seq<char>| self@.contains_key(name) implies (#[trigger] self@[name]).wf() by {
            let p = place(listing, name);
            assert(listing[p].1.wf());
        }
    }

    /// A store without tables.
    pub fn new() -> (catalog: Catalog)
        ensures
            catalog.wf(),
            catalog.listing() == Seq::<(Seq<char>, TableView)>::empty(),
            catalog@ == Map::<Seq<char>, TableView>::empty(),
    {
        let catalog = Catalog { entries: Vec::new() };
        assert(catalog.listing() =~= Seq::empty());
        assert(catalog@ =~= Map::empty());
        catalog
    }

    /// The number of tables.
    pub fn len(&self) -> (n: usize)
        ensures
            n == self.listing().len(),
    {
        self.entries.len()
    }

    /// The name at place `i`.
    pub fn name_at(&self, i: usize) -> (name: &String)
        requires
            i < self.listing().len(),
        ensures
            name@ == self.listing()[i as int].0,
    {
        &self.entries[i].0
    }

    /// The table at place `i`.
    pub fn table_at(&self, i: usize) -> (table: &Table)
        requires
            i < self.listing().len(),
        ensures
            table@ == self.listing()[i as int].1,
    {
        &self.entries[i].1
    }

    /// The place of `name`, if the store has a table of that name.
    pub fn find(&self, name: &String) -> (found: Option<usize>)
        ensures
            match found {
                Some(i) => i < self.listing().len() && self.listing()[i as int].0 == name@,
                None => !lists(self.listing(), name@),
            },
    {
        let mut i: usize = 0;
        while i < self.entries.len()
            invariant
                i <= self.entries.len(),
                forall|k: int| 0 <= k < i ==> (#[trigger] self.listing()[k]).0 != name@,
            decreases self.entries.len() - i,
        {
            if self.entries[i].0 == *name {
                return Some(i);
            }
            i += 1;
        }
        None
    }

    /// The table called `name`, if there is one.
    pub fn table(&self, name: &String) -> (found: Option<&Table>)
        requires
            self.wf(),
        ensures
            match found {
                Some(table) => self@.contains_key(name@) && table@ == self@[name@],
                None => !self@.contains_key(name@),
            },
    {
        match self.find(name) {
            Some(i) => {
                proof {
                    lemma_entry(self.listing(), i as int);
                }
                Some(&self.entries[i].1)
            },
            None => None,
        }
    }

    /// A copy of the store.
    pub fn snapshot(&self) -> (copy: Catalog)
        ensures
            copy.listing() == self.listing(),
            copy@ == self@,
            copy.wf() == self.wf(),
    {
        let mut entries: Vec<(String, Table)> = Vec::new();
        let mut i: usize = 0;
        while i < self.entries.len()
            invariant
                i <= self.entries.len(),
                entries.len() == i,
                forall|k: int| 0 <= k < i ==> (#[trigger] entries[k]).deep_view() == self.entries[k].deep_view(),
            decreases self.entries.len() - i,
        {
            entries.push((self.entries[i].0.clone(), self.entries[i].1.clone()));
            i += 1;
        }
        let copy = Catalog { entries };
        assert(copy.listing() =~= self.listing());
        copy
    }

    /// Puts a new, empty table with `columns` under `name`. A table that had
    /// the name is replaced, rows and all.
    pub fn create_table(&mut self, name: String, columns: Vec<Column>)
        requires
            old(self).wf(),
        ensures
            final(self).wf(),
            final(self)@ == model::create_table(old(self)@, name@, columns.deep_view()),
    {
        let table = Table::new(columns);
        self.put(name, table);
    }

    /// Puts `table` under `name`, in place of any table that had the name.
    pub fn put(&mut self, name: String, table: Table)
        requires
            old(self).wf(),
            table@.wf(),
        ensures
            final(self).wf(),
            final(self)@ == old(self)@.insert(name@, table@),
            match old(self).listing().map_values(|e: (Seq<char>, TableView)| e.0).index_of_first(name@) {
                Some(i) => final(self).listing() == old(self).listing().update(i, (name@, table@)),
                None => final(self).listing() == old(self).listing().push((name@, table@)),
            },
    {
        let ghost before = self.listing();
        let ghost names = before.map_values(|e: (Seq<char>, TableView)| e.0);
        proof {
            names.index_of_first_ensures(name@);
        }
        match self.find(&name) {
            Some(i) => {
                proof {
                    lemma_replace(before, i as int, table@);
                    assert(names[i as int] == name@);
                    assert forall|k: int| 0 <= k < i implies names[k] != name@ by {
                        assert(before[k].0 != before[i as int].0);
                    }
                }
                self.entries[i].1 = table;
                assert(self.listing() =~= before.update(i as int, (name@, table@)));
            },
            None => {
                proof {
                    lemma_append(before, name@, table@);
                    assert forall|k: int| 0 <= k < names.len() implies names[k] != name@ by {
                        assert(before[k].0 == names[k]);
                    }
                }
                self.entries.push((name, table));
                assert(self.listing() =~= before.push((name@, table@)));
            },
        }
    }

    /// Puts `table` under `name`, after the other tables, unless the store
    /// has a table of that name; says whether it did.
    pub fn add_new(&mut self, name: String, table: Table) -> (added: bool)
        requires
            old(self).wf(),
            table@.wf(),
        ensures
            final(self).wf(),
            added == !lists(old(self).listing(), name@),
            added ==> final(self).listing() == old(self).listing().push((name@, table@)),
            !added ==> final(self).listing() == old(self).listing(),
    {
        match self.find(&name) {
            Some(_) => false,
            None => {
                let ghost before = self.listing();
                proof {
                    lemma_append(before, name@, table@);
                }
                self.entries.push((name, table));
                assert(self.listing() =~= before.push((name@, table@)));
                true
            },
        }
    }

    /// Whether `value` occurs in column `referenced_column` of table
    /// `referenced_table`.
    pub fn is_valid_foreign_key(
        &self,
        referenced_table: &String,
        referenced_column: &String,
        value: &String,
    ) -> (valid: bool)
        requires
            self.wf(),
        ensures
            valid == model::reference_holds(self@, (referenced_table@, referenced_column@), value@),
    {
        match self.table(referenced_table) {
            Some(table) => {
                proof {
                    self.lemma_rows_fit();
                }
                match table.position(referenced_column) {
                    Some(index) => table.holds(index, value),
                    None => false,
                }
            },
            None => false,
        }
    }

    /// Adds `values` to `table` as its last row.
    ///
    /// Fails, and changes nothing: if there is no such table; else if a
    /// column has a foreign key and its value does not occur in the column
    /// referred to, and the error names the first such column and its value;
    /// else if the number of values is not the number of columns.
    pub fn insert_row(&mut self, table: &String, values: Vec<String>) -> (done: Result<(), EngineError>)
        requires
            old(self).wf(),
        ensures
            final(self).wf(),
            match model::insert_row(old(self)@, table@, values.deep_view()) {
                Ok(tables) => done is Ok && final(self)@ == tables,
                Err(error) => done is Err && done->Err_0@ == error && final(self)@ == old(self)@,
            },
    {
        let i = match self.find(table) {
            Some(i) => i,
            None => {
                return Err(EngineError::TableNotFound(table.clone()));
            },
        };
        proof {
            lemma_entry(self.listing(), i as int);
        }
        let width = self.entries[i].1.columns.len();
        let reach = if values.len() < width {
            values.len()
        } else {
            width
        };
        let ghost columns = self@[table@].columns;
        let ghost row = values.deep_view();
        let mut c: usize = 0;
        while c < reach
            invariant
                c <= reach,
                reach <= width,
                reach <= values.len(),
                reach == width || reach == values.len(),
                self.wf(),
                i < self.entries.len(),
                width == self.entries[i as int].1.columns.len(),
                row == values.deep_view(),
                columns == self.entries[i as int].1@.columns,
                *self == *old(self),
                self@.contains_key(table@),
                columns == self@[table@].columns,
                forall|k: int| 0 <= k < c ==> !model::violates(self@, #[trigger] columns[k], row[k]),
            decreases reach - c,
        {
            let column = &self.entries[i].1.columns[c];
            assert(column@ == columns[c as int]);
            assert(values[c as int]@ == row[c as int]);
            match &column.foreign_key {
                Some((referenced_table, referenced_column)) => {
                    if !self.is_valid_foreign_key(referenced_table, referenced_column, &values[c]) {
                        proof {
                            assert(model::is_first_violation(self@, columns, row, c as int));
                            let k = choose|k: int| model::is_first_violation(self@, columns, row, k);
                            assert(model::is_first_violation(self@, columns, row, k));
                            if k < c {
                                assert(!model::violates(self@, columns[k], row[k]));
                            } else if c < k {
                                assert(!model::violates(self@, columns[c as int], row[c as int]));
                            }
                            assert(model::first_violation(self@, columns, row) == Some(c as int));
                        }
                        return Err(
                            EngineError::ForeignKey {
                                value: values[c].clone(),
                                column: column.name.clone(),
                                table: table.clone(),
                            },
                        );
                    }
                },
                None => {},
            }
            c += 1;
        }
        assert(model::first_violation(self@, columns, row) is None) by {
            if exists|k: int| model::is_first_violation(self@, columns, row, k) {
                let k = choose|k: int| model::is_first_violation(self@, columns, row, k);
                assert(!model::violates(self@, columns[k], row[k]));
            }
        }
        if values.len() != width {
            return Err(EngineError::ValueCount { table: table.clone() });
        }
        proof {
            lemma_replace(self.listing(), i as int, self.listing()[i as int].1.with_row(row));
        }
        let ghost before = self.listing();
        self.entries[i].1.push_row(values);
        assert(self.listing() =~= before.update(i as int, (before[i as int].0, before[i as int].1.with_row(row))));
        Ok(())
    }

    /// Adds a plain column `column` to `table`; the rows that are there get
    /// the empty string for it. Fails if there is no such table.
    pub fn add_column(&mut self, table: &String, column: String) -> (done: Result<(), EngineError>)
        requires
            old(self).wf(),
        ensures
            final(self).wf(),
            match model::add_column(old(self)@, table@, column@) {
                Ok(tables) => done is Ok && final(self)@ == tables,
                Err(error) => done is Err && done->Err_0@ == error && final(self)@ == old(self)@,
            },
    {
        let i = match self.find(table) {
            Some(i) => i,
            None => {
                return Err(EngineError::TableNotFound(table.clone()));
            },
        };
        let ghost before = self.listing();
        proof {
            lemma_entry(before, i as int);
            lemma_replace(before, i as int, before[i as int].1.with_column(ColumnView::plain(column@)));
        }
        self.entries[i].1.add_column(column);
        assert(self.listing() =~= before.update(
            i as int,
            (before[i as int].0, before[i as int].1.with_column(ColumnView::plain(column@))),
        ));
        Ok(())
    }

    /// Takes the first column called `column` out of `table`, and its value
    /// out of every row. Fails if there is no such table or no such column.
    pub fn drop_column(&mut self, table: &String, column: &String) -> (done: Result<(), EngineError>)
        requires
            old(self).wf(),
        ensures
            final(self).wf(),
            match model::drop_column(old(self)@, table@, column@) {
                Ok(tables) => done is Ok && final(self)@ == tables,
                Err(error) => done is Err && done->Err_0@ == error && final(self)@ == old(self)@,
            },
    {
        let i = match self.find(table) {
            Some(i) => i,
            None => {
                return Err(EngineError::TableNotFound(table.clone()));
            },
        };
        let ghost before = self.listing();
        proof {
            lemma_entry(before, i as int);
        }
        let index = match self.entries[i].1.position(column) {
            Some(index) => index,
            None => {
                return Err(EngineError::ColumnNotInTable { column: column.clone(), table: table.clone() });
            },
        };
        proof {
            lemma_replace(before, i as int, before[i as int].1.without_column(index as int));
        }
        self.entries[i].1.drop_column(index);
        assert(self.listing() =~= before.update(
            i as int,
            (before[i as int].0, before[i as int].1.without_column(index as int)),
        ));
        Ok(())
    }

    /// Takes `table` out of the store. Fails if there is no such table.
    pub fn drop_table(&mut self, table: &String) -> (done: Result<(), EngineError>)
        requires
            old(self).wf(),
        ensures
            final(self).wf(),
            match model::drop_table(old(self)@, table@) {
                Ok(tables) => done is Ok && final(self)@ == tables,
                Err(error) => done is Err && done->Err_0@ == error && final(self)@ == old(self)@,
            },
    {
        let i = match self.find(table) {
            Some(i) => i,
            None => {
                return Err(EngineError::TableNotFound(table.clone()));
            },
        };
        let ghost before = self.listing();
        proof {
            lemma_entry(before, i as int);
            lemma_take_out(before, i as int);
        }
        self.entries.remove(i);
        assert(self.listing() =~= before.remove(i as int));
        Ok(())
    }

    /// The column names of `table` and copies of its rows, in insertion
    /// order: all rows, or with a predicate `(column, value)` those that hold
    /// `value` in the first column called `column`. Fails if there is no such
    /// table or, with a predicate, no such column.
    pub fn select(&self, table: &String, predicate: &Option<(String, String)>) -> (found: Result<
        (Vec<String>, Vec<Vec<String>>),
        EngineError,
    >)
        requires
            self.wf(),
        ensures
            match model::select(self@, table@, predicate.deep_view()) {
                Ok(rows) => found is Ok && found->Ok_0.0.deep_view() == rows.header
                    && found->Ok_0.1.deep_view() == rows.rows,
                Err(error) => found is Err && found->Err_0@ == error,
            },
    {
        let source = match self.table(table) {
            Some(source) => source,
            None => {
                return Err(EngineError::TableNotFound(table.clone()));
            },
        };
        proof {
            self.lemma_rows_fit();
        }
        match predicate {
            None => Ok((source.header(), source.all_rows())),
            Some((column, value)) => match source.position(column) {
                Some(index) => Ok((source.header(), source.rows_where(index, value))),
                None => Err(EngineError::ColumnNotFound(column.clone())),
            },
        }
    }
}

} // verus!
