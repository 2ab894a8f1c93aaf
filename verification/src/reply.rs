//! What a statement answers, and the text that shows it.

use vstd::prelude::*;
use vstd::utf8::encode_utf8;
use crate::model::RowsView;

verus! {

/// The answer to a statement that was carried out.
#[derive(Debug, PartialEq, Eq)]
pub enum Reply {
    TableCreated(String),
    RowInserted(String),
    ColumnAdded { column: String, table: String },
    ColumnDropped { column: String, table: String },
    TableDropped(String),
    /// The column names of the table and the rows that were selected.
    Rows { header: Vec<String>, rows: Vec<Vec<String>> },
}

/// What a [`Reply`] means in contracts.
pub enum ReplyView {
    TableCreated(Seq<char>),
    RowInserted(Seq<char>),
    ColumnAdded { column: Seq<char>, table: Seq<char> },
    ColumnDropped { column: Seq<char>, table: Seq<char> },
    TableDropped(Seq<char>),
    Rows(RowsView),
}

impl DeepView for Reply {
    type V = ReplyView;

    open spec fn deep_view(&self) -> ReplyView {
        match self {
            Reply::TableCreated(table) => ReplyView::TableCreated(table@),
            Reply::RowInserted(table) => ReplyView::RowInserted(table@),
            Reply::ColumnAdded { column, table } => ReplyView::ColumnAdded { column: column@, table: table@ },
            Reply::ColumnDropped { column, table } => ReplyView::ColumnDropped {
                column: column@,
                table: table@,
            },
            Reply::TableDropped(table) => ReplyView::TableDropped(table@),
            Reply::Rows { header, rows } => ReplyView::Rows(
                RowsView { header: header.deep_view(), rows: rows.deep_view() },
            ),
        }
    }
}

impl View for Reply {
    type V = ReplyView;

    open spec fn view(&self) -> ReplyView {
        self.deep_view()
    }
}

/// `n` dashes.
pub open spec fn dashes(n: nat) -> Seq<char> {
    Seq::new(n, |i: int| '-')
}

/// The number of dashes in a rule: for each column the number of bytes of
/// its name and two more, and one between two columns.
pub open spec fn rule_width(header: Seq<Seq<char>>) -> nat
    decreases header.len(),
{
    if header.len() == 0 {
        0
    } else if header.len() == 1 {
        encode_utf8(header[0]).len() + 2
    } else {
        rule_width(header.drop_last()) + 1 + encode_utf8(header.last()).len() + 2
    }
}

/// The line that is drawn above and below the column names and below the rows.
pub open spec fn rule(header: Seq<Seq<char>>) -> Seq<char> {
    seq!['+'] + dashes(rule_width(header)) + seq!['\n']
}

/// `cells`, with `separator` between two of them.
pub open spec fn joined(cells: Seq<Seq<char>>, separator: Seq<char>) -> Seq<char>
    decreases cells.len(),
{
    if cells.len() == 0 {
        Seq::empty()
    } else if cells.len() == 1 {
        cells[0]
    } else {
        joined(cells.drop_last(), separator) + separator + cells.last()
    }
}

/// One line of the table: the cells between bars.
pub open spec fn line(cells: Seq<Seq<char>>) -> Seq<char> {
    "| "@ + joined(cells, " | "@) + seq!['\n']
}

/// One line for each row.
pub open spec fn lines(rows: Seq<Seq<Seq<char>>>) -> Seq<char>
    decreases rows.len(),
{
    if rows.len() == 0 {
        Seq::empty()
    } else {
        lines(rows.drop_last()) + line(rows.last())
    }
}

/// The table as text: a rule, the column names, a rule, the rows, a rule.
pub open spec fn rendered(rows: RowsView) -> Seq<char> {
    rule(rows.header) + line(rows.header) + rule(rows.header) + lines(rows.rows) + rule(rows.header)
}

impl ReplyView {
    /// The text that shows the answer.
    pub open spec fn text(self) -> Seq<char> {
        match self {
            ReplyView::TableCreated(table) => "Tabela '"@ + table + "' criada com sucesso!"@,
            ReplyView::RowInserted(table) => "Dados inseridos na tabela '"@ + table + "'."@,
            ReplyView::ColumnAdded { column, table } => "Coluna '"@ + column + "' adicionada à tabela '"@
                + table + "'."@,
            ReplyView::ColumnDropped { column, table } => "Coluna '"@ + column + "' removida da tabela '"@
                + table + "'."@,
            ReplyView::TableDropped(table) => "Tabela '"@ + table + "' excluída com sucesso."@,
            ReplyView::Rows(rows) => rendered(rows),
        }
    }
}

/// Adds `n` dashes to `out`.
pub fn push_dashes(out: &mut String, n: usize)
    ensures
        final(out)@ == old(out)@ + dashes(n as nat),
{
    let mut k: usize = 0;
    assert(out@ =~= old(out)@ + dashes(0));
    while k < n
        invariant
            k <= n,
            out@ == old(out)@ + dashes(k as nat),
        decreases n - k,
    {
        out.push('-');
        assert(out@ =~= old(out)@ + dashes((k + 1) as nat));
        k += 1;
    }
}

/// Adds the rule for `header` to `out`.
pub fn push_rule(out: &mut String, header: &Vec<String>)
    ensures
        final(out)@ == old(out)@ + rule(header.deep_view()),
{
    let ghost names = header.deep_view();
    out.push('+');
    let mut i: usize = 0;
    assert(out@ =~= old(out)@ + seq!['+'] + dashes(rule_width(names.take(0))));
    while i < header.len()
        invariant
            i <= header.len(),
            names == header.deep_view(),
            out@ == old(out)@ + seq!['+'] + dashes(rule_width(names.take(i as int))),
        decreases header.len() - i,
    {
        let ghost before = rule_width(names.take(i as int));
        let ghost next = names.take(i + 1);
        assert(next.drop_last() =~= names.take(i as int));
        assert(next.last() == header[i as int]@);
        let ghost start = out@;
        if i > 0 {
            out.push('-');
        }
        let bytes = header[i].as_str().as_bytes();
        push_dashes(out, bytes.len());
        push_dashes(out, 2);
        assert(out@ =~= old(out)@ + seq!['+'] + dashes(rule_width(next))) by {
            let gap: nat = if i > 0 { 1 } else { 0 };
            assert(rule_width(next) == before + gap + bytes@.len() + 2);
            assert(out@ =~= start + dashes(gap) + dashes(bytes@.len()) + dashes(2));
        }
        i += 1;
    }
    assert(names.take(i as int) =~= names);
    out.push('\n');
    assert(out@ =~= old(out)@ + rule(names));
}

/// Adds the line for `cells` to `out`.
pub fn push_line(out: &mut String, cells: &Vec<String>)
    ensures
        final(out)@ == old(out)@ + line(cells.deep_view()),
{
    let ghost all = cells.deep_view();
    out.append("| ");
    let mut i: usize = 0;
    assert(out@ =~= old(out)@ + "| "@ + joined(all.take(0), " | "@));
    while i < cells.len()
        invariant
            i <= cells.len(),
            all == cells.deep_view(),
            out@ == old(out)@ + "| "@ + joined(all.take(i as int), " | "@),
        decreases cells.len() - i,
    {
        let ghost next = all.take(i + 1);
        assert(next.drop_last() =~= all.take(i as int));
        assert(next.last() == cells[i as int]@);
        if i > 0 {
            out.append(" | ");
        }
        out.append(cells[i].as_str());
        assert(out@ =~= old(out)@ + "| "@ + joined(next, " | "@));
        i += 1;
    }
    assert(all.take(i as int) =~= all);
    out.push('\n');
    assert(out@ =~= old(out)@ + line(all));
}

/// The table as text.
pub fn render(header: &Vec<String>, rows: &Vec<Vec<String>>) -> (text: String)
    ensures
        text@ == rendered(RowsView { header: header.deep_view(), rows: rows.deep_view() }),
{
    let ghost names = header.deep_view();
    let ghost all = rows.deep_view();
    let mut text = String::new();
    push_rule(&mut text, header);
    push_line(&mut text, header);
    push_rule(&mut text, header);
    let ghost top = text@;
    assert(top =~= rule(names) + line(names) + rule(names));
    let mut r: usize = 0;
    assert(text@ =~= top + lines(all.take(0)));
    while r < rows.len()
        invariant
            r <= rows.len(),
            all == rows.deep_view(),
            text@ == top + lines(all.take(r as int)),
        decreases rows.len() - r,
    {
        let ghost next = all.take(r + 1);
        assert(next.drop_last() =~= all.take(r as int));
        assert(next.last() == rows[r as int].deep_view());
        push_line(&mut text, &rows[r]);
        assert(text@ =~= top + lines(next));
        r += 1;
    }
    assert(all.take(r as int) =~= all);
    push_rule(&mut text, header);
    text
}

impl Reply {
    /// The text that shows the answer.
    pub fn text(&self) -> (text: String)
        ensures
            text@ == self@.text(),
    {
        match self {
            Reply::TableCreated(table) => {
                let mut text = String::from_str("Tabela '");
                text.append(table.as_str());
                text.append("' criada com sucesso!");
                text
            },
            Reply::RowInserted(table) => {
                let mut text = String::from_str("Dados inseridos na tabela '");
                text.append(table.as_str());
                text.append("'.");
                text
            },
            Reply::ColumnAdded { column, table } => {
                let mut text = String::from_str("Coluna '");
                text.append(column.as_str());
                text.append("' adicionada à tabela '");
                text.append(table.as_str());
                text.append("'.");
                text
            },
            Reply::ColumnDropped { column, table } => {
                let mut text = String::from_str("Coluna '");
                text.append(column.as_str());
                text.append("' removida da tabela '");
                text.append(table.as_str());
                text.append("'.");
                text
            },
            Reply::TableDropped(table) => {
                let mut text = String::from_str("Tabela '");
                text.append(table.as_str());
                text.append("' excluída com sucesso.");
                text
            },
            Reply::Rows { header, rows } => render(header, rows),
        }
    }
}

} // verus!
