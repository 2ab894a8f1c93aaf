//! The table mapping as a mathematical map, and what each operation of the
//! store makes of it.

use vstd::prelude::*;
use crate::error::ErrorView;
use crate::reply::ReplyView;
use crate::statement::{ActionView, StatementView};
use crate::table::{column_names, holds_at, ColumnView, TableView};

verus! {

/// The tables of one database, by name.
pub type Tables = Map<Seq<char>, TableView>;

/// Every table has one value in every row for each of its columns.
pub open spec fn rows_fit(tables: Tables) -> bool {
    forall|name: Seq<char>| tables.contains_key(name) ==> (#[trigger] tables[name]).wf()
}

/// `value` occurs in column `target.1` of table `target.0`.
pub open spec fn reference_holds(tables: Tables, target: (Seq<char>, Seq<char>), value: Seq<char>) -> bool {
    &&& tables.contains_key(target.0)
    &&& match tables[target.0].position(target.1) {
        Some(index) => tables[target.0].holds(index, value),
        None => false,
    }
}

/// `column` has a foreign key that `value` does not meet.
pub open spec fn violates(tables: Tables, column: ColumnView, value: Seq<char>) -> bool {
    match column.foreign_key {
        Some(target) => !reference_holds(tables, target, value),
        None => false,
    }
}

/// `index` is the first position at which a value of the row does not meet
/// the foreign key of its column. Only positions that have both a column and
/// a value count.
pub open spec fn is_first_violation(
    tables: Tables,
    columns: Seq<ColumnView>,
    values: Seq<Seq<char>>,
    index: int,
) -> bool {
    &&& 0 <= index < columns.len()
    &&& index < values.len()
    &&& violates(tables, columns[index], values[index])
    &&& forall|k: int| 0 <= k < index ==> !violates(tables, #[trigger] columns[k], values[k])
}

/// The first position at which a value of the row does not meet the foreign
/// key of its column, if there is one.
pub open spec fn first_violation(tables: Tables, columns: Seq<ColumnView>, values: Seq<Seq<char>>) -> Option<int> {
    if exists|index: int| is_first_violation(tables, columns, values, index) {
        Some(choose|index: int| is_first_violation(tables, columns, values, index))
    } else {
        None
    }
}

/// The mapping with a new, empty table under `name`, in place of any table
/// that had the name.
pub open spec fn create_table(tables: Tables, name: Seq<char>, columns: Seq<ColumnView>) -> Tables {
    tables.insert(name, TableView::empty(columns))
}

/// The mapping with `values` added to `table` as its last row. The errors,
/// in the order in which they are looked for: there is no such table; a
/// value does not meet the foreign key of its column, and the first such
/// value is named; the row's length is not the number of columns.
pub open spec fn insert_row(tables: Tables, table: Seq<char>, values: Seq<Seq<char>>) -> Result<Tables, ErrorView> {
    if !tables.contains_key(table) {
        Err(ErrorView::TableNotFound(table))
    } else {
        match first_violation(tables, tables[table].columns, values) {
            Some(index) => Err(
                ErrorView::ForeignKey {
                    value: values[index],
                    column: tables[table].columns[index].name,
                    table,
                },
            ),
            None => if values.len() != tables[table].columns.len() {
                Err(ErrorView::ValueCount { table })
            } else {
                Ok(tables.insert(table, tables[table].with_row(values)))
            },
        }
    }
}

/// The mapping with a plain column `column` added to `table`.
pub open spec fn add_column(tables: Tables, table: Seq<char>, column: Seq<char>) -> Result<Tables, ErrorView> {
    if !tables.contains_key(table) {
        Err(ErrorView::TableNotFound(table))
    } else {
        Ok(tables.insert(table, tables[table].with_column(ColumnView::plain(column))))
    }
}

/// The mapping with the first column called `column` taken out of `table`.
pub open spec fn drop_column(tables: Tables, table: Seq<char>, column: Seq<char>) -> Result<Tables, ErrorView> {
    if !tables.contains_key(table) {
        Err(ErrorView::TableNotFound(table))
    } else {
        match tables[table].position(column) {
            Some(index) => Ok(tables.insert(table, tables[table].without_column(index))),
            None => Err(ErrorView::ColumnNotInTable { column, table }),
        }
    }
}

/// The mapping without `table`.
pub open spec fn drop_table(tables: Tables, table: Seq<char>) -> Result<Tables, ErrorView> {
    if !tables.contains_key(table) {
        Err(ErrorView::TableNotFound(table))
    } else {
        Ok(tables.remove(table))
    }
}

/// The column names of a table and some of its rows.
pub struct RowsView {
    pub header: Seq<Seq<char>>,
    pub rows: Seq<Seq<Seq<char>>>,
}

/// The rows of `table`, in insertion order: all of them, or with a
/// predicate `(column, value)` those that hold `value` in the first column
/// called `column`.
pub open spec fn select(tables: Tables, table: Seq<char>, predicate: Option<(Seq<char>, Seq<char>)>) -> Result<RowsView, ErrorView> {
    if !tables.contains_key(table) {
        Err(ErrorView::TableNotFound(table))
    } else {
        let header = column_names(tables[table].columns);
        match predicate {
            None => Ok(RowsView { header, rows: tables[table].rows }),
            Some((column, value)) => match tables[table].position(column) {
                Some(index) => Ok(RowsView { header, rows: tables[table].rows_where(index, value) }),
                None => Err(ErrorView::ColumnNotFound(column)),
            },
        }
    }
}

/// What carrying out `statement` makes of the mapping, and what it answers.
/// A statement that fails leaves the mapping as it was.
pub open spec fn apply(tables: Tables, statement: StatementView) -> (Tables, Result<ReplyView, ErrorView>) {
    match statement {
        StatementView::CreateTable { name, columns } => (
            create_table(tables, name, columns),
            Ok(ReplyView::TableCreated(name)),
        ),
        StatementView::Insert { table, values } => match insert_row(tables, table, values) {
            Ok(after) => (after, Ok(ReplyView::RowInserted(table))),
            Err(error) => (tables, Err(error)),
        },
        StatementView::Select { table, predicate } => match select(tables, table, predicate) {
            Ok(rows) => (tables, Ok(ReplyView::Rows(rows))),
            Err(error) => (tables, Err(error)),
        },
        StatementView::AlterTable { table, action: ActionView::AddColumn(column) } => match add_column(
            tables,
            table,
            column,
        ) {
            Ok(after) => (after, Ok(ReplyView::ColumnAdded { column, table })),
            Err(error) => (tables, Err(error)),
        },
        StatementView::AlterTable { table, action: ActionView::DropColumn(column) } => match drop_column(
            tables,
            table,
            column,
        ) {
            Ok(after) => (after, Ok(ReplyView::ColumnDropped { column, table })),
            Err(error) => (tables, Err(error)),
        },
        StatementView::DropTable { table } => match drop_table(tables, table) {
            Ok(after) => (after, Ok(ReplyView::TableDropped(table))),
            Err(error) => (tables, Err(error)),
        },
    }
}

/// Where a value of the row does not meet the foreign key of its column,
/// there is a first such value.
pub proof fn lemma_first_violation(tables: Tables, columns: Seq<ColumnView>, values: Seq<Seq<char>>, index: int)
    requires
        0 <= index < columns.len(),
        index < values.len(),
        violates(tables, columns[index], values[index]),
    ensures
        first_violation(tables, columns, values) is Some,
    decreases index,
{
    if exists|k: int| 0 <= k < index && violates(tables, #[trigger] columns[k], values[k]) {
        let k = choose|k: int| 0 <= k < index && violates(tables, #[trigger] columns[k], values[k]);
        lemma_first_violation(tables, columns, values, k);
    } else {
        assert(is_first_violation(tables, columns, values, index));
    }
}

/// A row for a table that is there is refused with an integrity error, and
/// the mapping left as it was, exactly where one of its values has to occur
/// in a column referred to and does not, whatever the length of the row. A
/// row without such a value is added after the rows of its table where it
/// has one value for each column, and is refused otherwise.
pub proof fn lemma_insert_meets_references(tables: Tables, table: Seq<char>, values: Seq<Seq<char>>)
    requires
        tables.contains_key(table),
    ensures
        (exists|i: int|
            0 <= i < values.len() && i < tables[table].columns.len() && violates(
                tables,
                #[trigger] tables[table].columns[i],
                values[i],
            )) <==> (insert_row(tables, table, values) is Err && insert_row(tables, table, values)->Err_0
            is ForeignKey),
        insert_row(tables, table, values) is Err ==> apply(tables, StatementView::Insert { table, values }).0
            == tables,
        insert_row(tables, table, values) is Ok <==> values.len() == tables[table].columns.len() && !(exists|
            i: int,
        |
            0 <= i < values.len() && i < tables[table].columns.len() && violates(
                tables,
                #[trigger] tables[table].columns[i],
                values[i],
            )),
        insert_row(tables, table, values) is Ok ==> insert_row(tables, table, values)->Ok_0 == tables.insert(
            table,
            tables[table].with_row(values),
        ),
{
    let columns = tables[table].columns;
    if exists|i: int| 0 <= i < values.len() && i < columns.len() && violates(tables, #[trigger] columns[i], values[i]) {
        let i = choose|i: int|
            0 <= i < values.len() && i < columns.len() && violates(tables, #[trigger] columns[i], values[i]);
        lemma_first_violation(tables, columns, values, i);
    } else {
        if exists|k: int| is_first_violation(tables, columns, values, k) {
            let k = choose|k: int| is_first_violation(tables, columns, values, k);
            assert(violates(tables, columns[k], values[k]));
        }
    }
}

/// Dropping a column that the table has makes the column list shorter by
/// one, and takes the value at the column's position out of every row.
pub proof fn lemma_drop_column_shape(tables: Tables, table: Seq<char>, column: Seq<char>)
    requires
        tables.contains_key(table),
        tables[table].wf(),
        tables[table].position(column) is Some,
    ensures
        drop_column(tables, table, column) is Ok,
        ({
            let before = tables[table];
            let after = drop_column(tables, table, column)->Ok_0[table];
            let index = before.position(column)->0;
            &&& 0 <= index < before.columns.len()
            &&& before.columns[index].name == column
            &&& after.columns == before.columns.remove(index)
            &&& after.columns.len() == before.columns.len() - 1
            &&& after.rows.len() == before.rows.len()
            &&& forall|r: int|
                0 <= r < before.rows.len() ==> #[trigger] after.rows[r] == before.rows[r].remove(index)
                    && after.rows[r].len() == before.rows[r].len() - 1
            &&& after.wf()
        }),
{
    let before = tables[table];
    column_names(before.columns).index_of_first_ensures(column);
    let index = before.position(column)->0;
    assert(column_names(before.columns)[index] == before.columns[index].name);
    assert forall|r: int| 0 <= r < before.rows.len() implies before.rows[r].remove(index).len()
        == before.rows[r].len() - 1 by {
        assert(before.rows[r].len() == before.columns.len());
    }
}

/// With a predicate on a column that the table has, `select` gives rows of
/// the table that hold the value in that column, and every such row of the
/// table is among them; without a predicate it gives all rows.
pub proof fn lemma_select_where(tables: Tables, table: Seq<char>, column: Seq<char>, value: Seq<char>)
    requires
        tables.contains_key(table),
        tables[table].wf(),
        tables[table].position(column) is Some,
    ensures
        select(tables, table, None) == Ok::<RowsView, ErrorView>(
            RowsView { header: column_names(tables[table].columns), rows: tables[table].rows },
        ),
        select(tables, table, Some((column, value))) is Ok,
        ({
            let rows = tables[table].rows;
            let found = select(tables, table, Some((column, value)))->Ok_0.rows;
            let index = tables[table].position(column)->0;
            &&& 0 <= index < tables[table].columns.len()
            &&& found.len() <= rows.len()
            &&& forall|k: int| 0 <= k < found.len() ==> (#[trigger] found[k])[index] == value && rows.contains(found[k])
            &&& forall|r: int| 0 <= r < rows.len() && (#[trigger] rows[r])[index] == value ==> found.contains(rows[r])
        }),
{
    broadcast use vstd::seq_lib::group_filter_ensures;

    let rows = tables[table].rows;
    let index = tables[table].position(column)->0;
    let keep = holds_at(index, value);
    let found = rows.filter(keep);
    column_names(tables[table].columns).index_of_first_ensures(column);
    assert forall|k: int| 0 <= k < found.len() implies (#[trigger] found[k])[index] == value && rows.contains(
        found[k],
    ) by {
        rows.lemma_filter_pred(keep, k);
        assert(found.contains(found[k]));
        rows.lemma_filter_contains_rev(keep, found[k]);
    }
    assert forall|r: int| 0 <= r < rows.len() && (#[trigger] rows[r])[index] == value implies found.contains(
        rows[r],
    ) by {
        rows.lemma_filter_contains(keep, r);
    }
}

} // verus!
