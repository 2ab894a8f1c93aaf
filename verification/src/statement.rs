//! The statements of the command language, parsed.

use vstd::prelude::*;
use crate::table::{Column, ColumnView};

verus! {

/// What `ALTER TABLE` does to a table.
#[derive(Debug, PartialEq, Eq)]
pub enum AlterAction {
    AddColumn(String),
    DropColumn(String),
}

/// What an [`AlterAction`] means in contracts.
pub enum ActionView {
    AddColumn(Seq<char>),
    DropColumn(Seq<char>),
}

impl DeepView for AlterAction {
    type V = ActionView;

    open spec fn deep_view(&self) -> ActionView {
        match self {
            AlterAction::AddColumn(column) => ActionView::AddColumn(column@),
            AlterAction::DropColumn(column) => ActionView::DropColumn(column@),
        }
    }
}

impl View for AlterAction {
    type V = ActionView;

    open spec fn view(&self) -> ActionView {
        self.deep_view()
    }
}

/// A statement, parsed.
#[derive(Debug, PartialEq, Eq)]
pub enum Statement {
    CreateTable { name: String, columns: Vec<Column> },
    Insert { table: String, values: Vec<String> },
    Select { table: String, predicate: Option<(String, String)> },
    AlterTable { table: String, action: AlterAction },
    DropTable { table: String },
}

/// What a [`Statement`] means in contracts.
pub enum StatementView {
    CreateTable { name: Seq<char>, columns: Seq<ColumnView> },
    Insert { table: Seq<char>, values: Seq<Seq<char>> },
    Select { table: Seq<char>, predicate: Option<(Seq<char>, Seq<char>)> },
    AlterTable { table: Seq<char>, action: ActionView },
    DropTable { table: Seq<char> },
}

impl DeepView for Statement {
    type V = StatementView;

    open spec fn deep_view(&self) -> StatementView {
        match self {
            Statement::CreateTable { name, columns } => StatementView::CreateTable {
                name: name@,
                columns: columns.deep_view(),
            },
            Statement::Insert { table, values } => StatementView::Insert {
                table: table@,
                values: values.deep_view(),
            },
            Statement::Select { table, predicate } => StatementView::Select {
                table: table@,
                predicate: predicate.deep_view(),
            },
            Statement::AlterTable { table, action } => StatementView::AlterTable {
                table: table@,
                action: action@,
            },
            Statement::DropTable { table } => StatementView::DropTable { table: table@ },
        }
    }
}

impl View for Statement {
    type V = StatementView;

    open spec fn view(&self) -> StatementView {
        self.deep_view()
    }
}

impl StatementView {
    /// The statement changes the tables, and so has to run inside a transaction.
    pub open spec fn mutates(self) -> bool {
        !(self is Select)
    }
}

impl Statement {
    /// Whether the statement changes the tables, and so has to run inside a
    /// transaction.
    pub fn mutates(&self) -> (yes: bool)
        ensures
            yes == self@.mutates(),
    {
        match self {
            Statement::Select { .. } => false,
            _ => true,
        }
    }
}

} // verus!
