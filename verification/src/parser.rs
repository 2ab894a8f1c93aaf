//! The grammar of the command language, over the tokens of a command.
//!
//! ```text
//! command   := statement [ ";" ]
//! statement := CREATE TABLE name "(" column { "," column } ")"
//!            | INSERT INTO name word "(" value { "," value } ")"
//!            | ALTER TABLE name ADD COLUMN name
//!            | ALTER TABLE name DROP COLUMN name
//!            | DROP TABLE name
//!            | SELECT * FROM name [ WHERE name = word ]
//! column    := name { PRIMARY KEY | FOREIGN KEY REFERENCES name "(" name ")" }
//! value     := { word }
//! ```
//!
//! Keywords are read without regard to case. A name is any word. The words of
//! a value stand for themselves, with one space between two of them; the word
//! after `=` loses the quotes at its two ends.

use vstd::prelude::*;
use crate::error::{EngineError, ErrorView, Shape};
use crate::lexer::{lex, tokenize, Lexeme, Token};
use crate::statement::{ActionView, AlterAction, Statement, StatementView};
use crate::table::{Column, ColumnView};
use crate::text::{is_keyword, spells, to_chars, to_string};

verus! {

/// The token at `i` is a word.
pub open spec fn is_word(tokens: Seq<Lexeme>, i: int) -> bool {
    0 <= i < tokens.len() && tokens[i] is Word
}

/// The characters of the word at `i`.
pub open spec fn word(tokens: Seq<Lexeme>, i: int) -> Seq<char> {
    tokens[i]->Word_0
}

/// The token at `i` is a word that spells `keyword`.
pub open spec fn is_kw(tokens: Seq<Lexeme>, i: int, keyword: Seq<char>) -> bool {
    is_word(tokens, i) && spells(word(tokens, i), keyword)
}

/// The token at `i` is `token`.
pub open spec fn is_token(tokens: Seq<Lexeme>, i: int, token: Lexeme) -> bool {
    0 <= i < tokens.len() && tokens[i] == token
}

/// `tokens` without the semicolon at their end, if they end in one.
pub open spec fn body(tokens: Seq<Lexeme>) -> Seq<Lexeme> {
    if tokens.len() > 0 && tokens.last() == Lexeme::Semicolon {
        tokens.drop_last()
    } else {
        tokens
    }
}

/// The statements that a command can start as.
#[derive(Clone, Copy, Debug, PartialEq, Eq, Structural)]
pub enum Leading {
    Create,
    Insert,
    Alter,
    Drop,
    Select,
}

/// The statement that the first two or three tokens announce.
pub open spec fn leading(tokens: Seq<Lexeme>) -> Result<Leading, ErrorView> {
    if tokens.len() == 0 {
        Err(ErrorView::EmptyCommand)
    } else if is_kw(tokens, 0, "CREATE"@) && is_kw(tokens, 1, "TABLE"@) {
        Ok(Leading::Create)
    } else if is_kw(tokens, 0, "INSERT"@) && is_kw(tokens, 1, "INTO"@) {
        Ok(Leading::Insert)
    } else if is_kw(tokens, 0, "ALTER"@) && is_kw(tokens, 1, "TABLE"@) {
        Ok(Leading::Alter)
    } else if is_kw(tokens, 0, "DROP"@) && is_kw(tokens, 1, "TABLE"@) {
        Ok(Leading::Drop)
    } else if is_kw(tokens, 0, "SELECT"@) && is_kw(tokens, 1, "*"@) && is_kw(tokens, 2, "FROM"@) {
        Ok(Leading::Select)
    } else {
        Err(ErrorView::Unsupported)
    }
}

/// A statement that starts so changes the tables, and has to run inside a
/// transaction.
pub open spec fn needs_transaction(start: Leading) -> bool {
    start != Leading::Select
}

/// The groups that the commas part `rest` into, the first of them going on
/// from `current`.
pub open spec fn groups_from(rest: Seq<Lexeme>, current: Seq<Lexeme>) -> Seq<Seq<Lexeme>>
    decreases rest.len(),
{
    if rest.len() == 0 {
        seq![current]
    } else if rest[0] == Lexeme::Comma {
        seq![current] + groups_from(rest.drop_first(), Seq::empty())
    } else {
        groups_from(rest.drop_first(), current.push(rest[0]))
    }
}

/// The groups that the commas part `tokens` into: one more than there are commas.
pub open spec fn groups(tokens: Seq<Lexeme>) -> Seq<Seq<Lexeme>> {
    groups_from(tokens, Seq::empty())
}

/// The groups one after another, with a comma between two of them.
pub open spec fn comma_joined(groups: Seq<Seq<Lexeme>>) -> Seq<Lexeme>
    decreases groups.len(),
{
    if groups.len() == 0 {
        Seq::empty()
    } else if groups.len() == 1 {
        groups[0]
    } else {
        groups[0] + seq![Lexeme::Comma] + comma_joined(groups.drop_first())
    }
}

/// No token of the group is a comma.
pub open spec fn comma_free(group: Seq<Lexeme>) -> bool {
    forall|i: int| 0 <= i < group.len() ==> (#[trigger] group[i]) != Lexeme::Comma
}

/// The groups hold no comma, and with commas between them they are the
/// tokens that they were parted from.
pub proof fn lemma_groups_from(rest: Seq<Lexeme>, current: Seq<Lexeme>)
    requires
        comma_free(current),
    ensures
        groups_from(rest, current).len() >= 1,
        forall|k: int|
            0 <= k < groups_from(rest, current).len() ==> comma_free(#[trigger] groups_from(rest, current)[k]),
        comma_joined(groups_from(rest, current)) == current + rest,
    decreases rest.len(),
{
    let parts = groups_from(rest, current);
    if rest.len() == 0 {
        assert(parts == seq![current]);
        assert(current + rest =~= current);
    } else if rest[0] == Lexeme::Comma {
        let tail = groups_from(rest.drop_first(), Seq::empty());
        lemma_groups_from(rest.drop_first(), Seq::empty());
        assert(parts == seq![current] + tail);
        assert forall|k: int| 0 <= k < parts.len() implies comma_free(#[trigger] parts[k]) by {
            if k > 0 {
                assert(parts[k] == tail[k - 1]);
            }
        }
        assert(parts.drop_first() =~= tail);
        assert(Seq::<Lexeme>::empty() + rest.drop_first() =~= rest.drop_first());
        assert(current + seq![Lexeme::Comma] + rest.drop_first() =~= current + rest);
    } else {
        let longer = current.push(rest[0]);
        assert forall|i: int| 0 <= i < longer.len() implies (#[trigger] longer[i]) != Lexeme::Comma by {
            if i < current.len() {
                assert(longer[i] == current[i]);
            }
        }
        lemma_groups_from(rest.drop_first(), longer);
        assert(parts == groups_from(rest.drop_first(), longer));
        assert(longer + rest.drop_first() =~= current + rest);
    }
}

/// The commas part the tokens into groups without a comma, one more than
/// there are commas; with the commas put back between them, the groups are
/// the tokens.
pub proof fn lemma_groups(tokens: Seq<Lexeme>)
    ensures
        groups(tokens).len() >= 1,
        forall|k: int| 0 <= k < groups(tokens).len() ==> comma_free(#[trigger] groups(tokens)[k]),
        comma_joined(groups(tokens)) == tokens,
{
    lemma_groups_from(tokens, Seq::empty());
    assert(Seq::<Lexeme>::empty() + tokens =~= tokens);
}

/// The tokens from `from` up to `to` are words.
pub open spec fn all_words(tokens: Seq<Lexeme>, from: int, to: int) -> bool {
    forall|i: int| from <= i < to ==> (#[trigger] tokens[i]) is Word
}

/// The words from `from` up to `to`, with one space between two of them.
pub open spec fn spaced(tokens: Seq<Lexeme>, from: int, to: int) -> Seq<char>
    decreases to - from,
{
    if to <= from {
        Seq::empty()
    } else if to == from + 1 {
        word(tokens, from)
    } else {
        spaced(tokens, from, to - 1) + seq![' '] + word(tokens, to - 1)
    }
}

/// The value that a group of tokens stands for.
pub open spec fn value_of(group: Seq<Lexeme>) -> Option<Seq<char>> {
    if all_words(group, 0, group.len() as int) {
        Some(spaced(group, 0, group.len() as int))
    } else {
        None
    }
}

/// The values that the groups stand for, if each stands for one.
pub open spec fn values_of(groups: Seq<Seq<Lexeme>>) -> Option<Seq<Seq<char>>>
    decreases groups.len(),
{
    if groups.len() == 0 {
        Some(Seq::empty())
    } else {
        match (values_of(groups.drop_last()), value_of(groups.last())) {
            (Some(values), Some(value)) => Some(values.push(value)),
            _ => None,
        }
    }
}

/// `column` with the key clauses that the tokens from `from` on spell out.
pub open spec fn clauses(group: Seq<Lexeme>, from: int, column: ColumnView) -> Option<ColumnView>
    decreases group.len() - from,
{
    if from >= group.len() {
        Some(column)
    } else if is_kw(group, from, "PRIMARY"@) && is_kw(group, from + 1, "KEY"@) {
        clauses(group, from + 2, ColumnView { is_primary_key: true, ..column })
    } else if is_kw(group, from, "FOREIGN"@) && is_kw(group, from + 1, "KEY"@) && is_kw(
        group,
        from + 2,
        "REFERENCES"@,
    ) && is_word(group, from + 3) && is_token(group, from + 4, Lexeme::Open) && is_word(group, from + 5)
        && is_token(group, from + 6, Lexeme::Close) {
        clauses(
            group,
            from + 7,
            ColumnView { foreign_key: Some((word(group, from + 3), word(group, from + 5))), ..column },
        )
    } else {
        None
    }
}

/// The column that a group of tokens defines.
pub open spec fn column_of(group: Seq<Lexeme>) -> Option<ColumnView> {
    if is_word(group, 0) {
        clauses(group, 1, ColumnView::plain(word(group, 0)))
    } else {
        None
    }
}

/// The columns that the groups define, if each defines one.
pub open spec fn columns_of(groups: Seq<Seq<Lexeme>>) -> Option<Seq<ColumnView>>
    decreases groups.len(),
{
    if groups.len() == 0 {
        Some(Seq::empty())
    } else {
        match (columns_of(groups.drop_last()), column_of(groups.last())) {
            (Some(columns), Some(column)) => Some(columns.push(column)),
            _ => None,
        }
    }
}

/// `c` is a single or a double quote.
pub open spec fn is_quote(c: char) -> bool {
    c == '\'' || c == '"'
}

/// `s` without the quotes at its start.
pub open spec fn strip_front(s: Seq<char>) -> Seq<char>
    decreases s.len(),
{
    if s.len() > 0 && is_quote(s[0]) {
        strip_front(s.drop_first())
    } else {
        s
    }
}

/// `s` without the quotes at its end.
pub open spec fn strip_back(s: Seq<char>) -> Seq<char>
    decreases s.len(),
{
    if s.len() > 0 && is_quote(s.last()) {
        strip_back(s.drop_last())
    } else {
        s
    }
}

/// `s` without the quotes at its two ends.
pub open spec fn unquote(s: Seq<char>) -> Seq<char> {
    strip_back(strip_front(s))
}

/// `CREATE TABLE name ( column , ... )`.
pub open spec fn create_of(b: Seq<Lexeme>) -> Result<StatementView, ErrorView> {
    if b.len() >= 5 && is_word(b, 2) && is_token(b, 3, Lexeme::Open) && is_token(
        b,
        b.len() - 1,
        Lexeme::Close,
    ) {
        match columns_of(groups(b.subrange(4, b.len() - 1))) {
            Some(columns) => Ok(StatementView::CreateTable { name: word(b, 2), columns }),
            None => Err(ErrorView::Syntax(Shape::CreateTable)),
        }
    } else {
        Err(ErrorView::Syntax(Shape::CreateTable))
    }
}

/// `INSERT INTO name word ( value , ... )`.
pub open spec fn insert_of(b: Seq<Lexeme>) -> Result<StatementView, ErrorView> {
    if b.len() >= 6 && is_word(b, 2) && is_word(b, 3) && is_token(b, 4, Lexeme::Open) && is_token(
        b,
        b.len() - 1,
        Lexeme::Close,
    ) {
        match values_of(groups(b.subrange(5, b.len() - 1))) {
            Some(values) => Ok(StatementView::Insert { table: word(b, 2), values }),
            None => Err(ErrorView::Syntax(Shape::Insert)),
        }
    } else {
        Err(ErrorView::Syntax(Shape::Insert))
    }
}

/// `ALTER TABLE name ADD COLUMN name` and `ALTER TABLE name DROP COLUMN name`.
pub open spec fn alter_of(b: Seq<Lexeme>) -> Result<StatementView, ErrorView> {
    if is_kw(b, 3, "ADD"@) {
        if b.len() == 6 && is_word(b, 2) && is_kw(b, 4, "COLUMN"@) && is_word(b, 5) {
            Ok(StatementView::AlterTable { table: word(b, 2), action: ActionView::AddColumn(word(b, 5)) })
        } else {
            Err(ErrorView::Syntax(Shape::AlterAdd))
        }
    } else if is_kw(b, 3, "DROP"@) {
        if b.len() == 6 && is_word(b, 2) && is_kw(b, 4, "COLUMN"@) && is_word(b, 5) {
            Ok(StatementView::AlterTable { table: word(b, 2), action: ActionView::DropColumn(word(b, 5)) })
        } else {
            Err(ErrorView::Syntax(Shape::AlterDrop))
        }
    } else {
        Err(ErrorView::InvalidAlterAction)
    }
}

/// `DROP TABLE name`.
pub open spec fn drop_of(b: Seq<Lexeme>) -> Result<StatementView, ErrorView> {
    if b.len() == 3 && is_word(b, 2) {
        Ok(StatementView::DropTable { table: word(b, 2) })
    } else {
        Err(ErrorView::Syntax(Shape::DropTable))
    }
}

/// `SELECT * FROM name` and `SELECT * FROM name WHERE name = word`.
pub open spec fn select_of(b: Seq<Lexeme>) -> Result<StatementView, ErrorView> {
    if b.len() == 4 && is_word(b, 3) {
        Ok(StatementView::Select { table: word(b, 3), predicate: None })
    } else if b.len() == 8 && is_word(b, 3) && is_kw(b, 4, "WHERE"@) && is_word(b, 5) && is_kw(b, 6, "="@)
        && is_word(b, 7) {
        Ok(StatementView::Select { table: word(b, 3), predicate: Some((word(b, 5), unquote(word(b, 7)))) })
    } else {
        Err(ErrorView::Syntax(Shape::Select))
    }
}

/// The statement that the tokens `b` spell, given how they start.
pub open spec fn statement_of(start: Leading, b: Seq<Lexeme>) -> Result<StatementView, ErrorView> {
    match start {
        Leading::Create => create_of(b),
        Leading::Insert => insert_of(b),
        Leading::Alter => alter_of(b),
        Leading::Drop => drop_of(b),
        Leading::Select => select_of(b),
    }
}

/// The statement that `text` spells, inside a transaction (`active`) or outside.
///
/// The start of the command decides first: no token at all, or a start that
/// is no statement's, is an error. A statement that changes the tables is
/// refused outside a transaction, before the rest of it is looked at.
pub open spec fn parse_text(text: Seq<char>, active: bool) -> Result<StatementView, ErrorView> {
    let b = body(lex(text));
    match leading(b) {
        Err(error) => Err(error),
        Ok(start) => if needs_transaction(start) && !active {
            Err(ErrorView::TransactionRequired)
        } else {
            statement_of(start, b)
        },
    }
}

/// What a result of the parser means in contracts.
pub open spec fn parsed_view(parsed: Result<Statement, EngineError>) -> Result<StatementView, ErrorView> {
    match parsed {
        Ok(statement) => Ok(statement@),
        Err(error) => Err(error@),
    }
}

/// The word at `i`, if the token there is one.
pub fn word_at(tokens: &Vec<Token>, i: usize) -> (found: Option<String>)
    ensures
        match found {
            Some(w) => is_word(tokens.deep_view(), i as int) && w@ == word(tokens.deep_view(), i as int),
            None => !is_word(tokens.deep_view(), i as int),
        },
{
    if i >= tokens.len() {
        return None;
    }
    match &tokens[i] {
        Token::Word(chars) => Some(to_string(chars)),
        _ => None,
    }
}

/// Whether the token at `i` is a word that spells `keyword`.
pub fn keyword_at(tokens: &Vec<Token>, i: usize, keyword: &str) -> (yes: bool)
    ensures
        yes == is_kw(tokens.deep_view(), i as int, keyword@),
{
    if i >= tokens.len() {
        return false;
    }
    match &tokens[i] {
        Token::Word(chars) => is_keyword(chars, keyword),
        _ => false,
    }
}

/// Whether the token at `i` is `(`.
pub fn open_at(tokens: &Vec<Token>, i: usize) -> (yes: bool)
    ensures
        yes == is_token(tokens.deep_view(), i as int, Lexeme::Open),
{
    if i >= tokens.len() {
        return false;
    }
    match &tokens[i] {
        Token::Open => true,
        _ => false,
    }
}

/// Whether the token at `i` is `)`.
pub fn close_at(tokens: &Vec<Token>, i: usize) -> (yes: bool)
    ensures
        yes == is_token(tokens.deep_view(), i as int, Lexeme::Close),
{
    if i >= tokens.len() {
        return false;
    }
    match &tokens[i] {
        Token::Close => true,
        _ => false,
    }
}

/// The groups that the commas part the tokens from `from` up to `to` into.
pub fn split_groups(tokens: &Vec<Token>, from: usize, to: usize) -> (parts: Vec<Vec<Token>>)
    requires
        from <= to <= tokens.len(),
    ensures
        parts.deep_view() == groups(tokens.deep_view().subrange(from as int, to as int)),
{
    let ghost inner = tokens.deep_view().subrange(from as int, to as int);
    let mut parts: Vec<Vec<Token>> = Vec::new();
    let mut current: Vec<Token> = Vec::new();
    let mut i: usize = from;
    assert(inner.skip(0) =~= inner);
    assert(current.deep_view() =~= Seq::<Lexeme>::empty());
    assert(parts.deep_view() + groups_from(inner, current.deep_view()) =~= groups(inner));
    while i < to
        invariant
            from <= i <= to <= tokens.len(),
            inner == tokens.deep_view().subrange(from as int, to as int),
            groups(inner) == parts.deep_view() + groups_from(inner.skip(i - from), current.deep_view()),
        decreases to - i,
    {
        let ghost rest = inner.skip(i - from);
        let ghost done = parts.deep_view();
        let ghost group = current.deep_view();
        assert(rest[0] == tokens.deep_view()[i as int]);
        assert(rest.drop_first() =~= inner.skip(i + 1 - from));
        match &tokens[i] {
            Token::Comma => {
                parts.push(current);
                current = Vec::new();
                assert(parts.deep_view() =~= done + seq![group]);
                assert(current.deep_view() =~= Seq::<Lexeme>::empty());
                assert(groups(inner) =~= parts.deep_view() + groups_from(
                    inner.skip(i + 1 - from),
                    current.deep_view(),
                ));
            },
            token => {
                current.push(token.clone());
                assert(current.deep_view() =~= group.push(rest[0]));
            },
        }
        i += 1;
    }
    let ghost done = parts.deep_view();
    let ghost group = current.deep_view();
    parts.push(current);
    assert(parts.deep_view() =~= done + seq![group]);
    parts
}

/// The words from `from` up to `to`, with one space between two of them;
/// nothing if a token among them is no word.
pub fn spaced_words(tokens: &Vec<Token>, from: usize, to: usize) -> (found: Option<Vec<char>>)
    requires
        from <= to <= tokens.len(),
    ensures
        match found {
            Some(chars) => all_words(tokens.deep_view(), from as int, to as int) && chars@ == spaced(
                tokens.deep_view(),
                from as int,
                to as int,
            ),
            None => !all_words(tokens.deep_view(), from as int, to as int),
        },
{
    let ghost all = tokens.deep_view();
    let mut chars: Vec<char> = Vec::new();
    let mut i: usize = from;
    while i < to
        invariant
            from <= i <= to <= tokens.len(),
            all == tokens.deep_view(),
            all_words(all, from as int, i as int),
            chars@ == spaced(all, from as int, i as int),
        decreases to - i,
    {
        match &tokens[i] {
            Token::Word(w) => {
                assert(all[i as int] == Lexeme::Word(w@));
                let ghost before = chars@;
                if i > from {
                    chars.push(' ');
                }
                let ghost base = chars@;
                let mut k: usize = 0;
                while k < w.len()
                    invariant
                        k <= w.len(),
                        chars@ == base + w@.take(k as int),
                    decreases w.len() - k,
                {
                    chars.push(w[k]);
                    k += 1;
                }
                assert(w@.take(w.len() as int) =~= w@);
                assert(chars@ =~= spaced(all, from as int, i + 1)) by {
                    if i > from {
                        assert(base =~= before + seq![' ']);
                    } else {
                        assert(base =~= Seq::<char>::empty());
                    }
                }
            },
            _ => {
                assert(!(all[i as int] is Word));
                return None;
            },
        }
        i += 1;
    }
    Some(chars)
}

/// The values that the groups stand for, if each stands for one.
pub fn parse_values(parts: &Vec<Vec<Token>>) -> (found: Option<Vec<String>>)
    ensures
        found.deep_view() == values_of(parts.deep_view()),
{
    let ghost all = parts.deep_view();
    let mut values: Vec<String> = Vec::new();
    let mut i: usize = 0;
    assert(all.take(0) =~= Seq::empty());
    assert(values.deep_view() =~= Seq::empty());
    while i < parts.len()
        invariant
            i <= parts.len(),
            all == parts.deep_view(),
            values_of(all.take(i as int)) == Some(values.deep_view()),
        decreases parts.len() - i,
    {
        let ghost next = all.take(i + 1);
        assert(next.drop_last() =~= all.take(i as int));
        assert(next.last() == parts[i as int].deep_view());
        let ghost before = values.deep_view();
        match spaced_words(&parts[i], 0, parts[i].len()) {
            Some(chars) => {
                values.push(to_string(&chars));
                assert(values.deep_view() =~= before.push(chars@));
            },
            None => {
                proof {
                    lemma_values_prefix(all, i + 1);
                }
                return None;
            },
        }
        i += 1;
    }
    assert(all.take(i as int) =~= all);
    Some(values)
}

/// Groups that stand for values have a start that does so too.
pub proof fn lemma_values_prefix(groups: Seq<Seq<Lexeme>>, n: int)
    requires
        0 <= n <= groups.len(),
        values_of(groups.take(n)) is None,
    ensures
        values_of(groups) is None,
    decreases groups.len() - n,
{
    if n < groups.len() {
        assert(groups.take(n + 1).drop_last() =~= groups.take(n));
        lemma_values_prefix(groups, n + 1);
    } else {
        assert(groups.take(n) =~= groups);
    }
}

/// Groups that define columns have a start that does so too.
pub proof fn lemma_columns_prefix(groups: Seq<Seq<Lexeme>>, n: int)
    requires
        0 <= n <= groups.len(),
        columns_of(groups.take(n)) is None,
    ensures
        columns_of(groups) is None,
    decreases groups.len() - n,
{
    if n < groups.len() {
        assert(groups.take(n + 1).drop_last() =~= groups.take(n));
        lemma_columns_prefix(groups, n + 1);
    } else {
        assert(groups.take(n) =~= groups);
    }
}

/// The column that a group of tokens defines, if it defines one.
pub fn parse_column(group: &Vec<Token>) -> (found: Option<Column>)
    ensures
        found.deep_view() == column_of(group.deep_view()),
{
    let ghost g = group.deep_view();
    let name = match word_at(group, 0) {
        Some(name) => name,
        None => {
            return None;
        },
    };
    let mut column = Column::plain(name);
    let mut i: usize = 1;
    while i < group.len()
        invariant
            1 <= i <= group.len(),
            g == group.deep_view(),
            column_of(g) == clauses(g, i as int, column@),
        decreases group.len() - i,
    {
        let left = group.len() - i;
        if left >= 2 && keyword_at(group, i, "PRIMARY") && keyword_at(group, i + 1, "KEY") {
            column.is_primary_key = true;
            i += 2;
        } else if left >= 7 && keyword_at(group, i, "FOREIGN") && keyword_at(group, i + 1, "KEY")
            && keyword_at(group, i + 2, "REFERENCES") && open_at(group, i + 4) && close_at(group, i + 6) {
            let table = match word_at(group, i + 3) {
                Some(table) => table,
                None => {
                    return None;
                },
            };
            let referenced = match word_at(group, i + 5) {
                Some(referenced) => referenced,
                None => {
                    return None;
                },
            };
            column.foreign_key = Some((table, referenced));
            i += 7;
        } else {
            return None;
        }
    }
    Some(column)
}

/// The columns that the groups define, if each defines one.
pub fn parse_columns(parts: &Vec<Vec<Token>>) -> (found: Option<Vec<Column>>)
    ensures
        found.deep_view() == columns_of(parts.deep_view()),
{
    let ghost all = parts.deep_view();
    let mut columns: Vec<Column> = Vec::new();
    let mut i: usize = 0;
    assert(all.take(0) =~= Seq::empty());
    assert(columns.deep_view() =~= Seq::empty());
    while i < parts.len()
        invariant
            i <= parts.len(),
            all == parts.deep_view(),
            columns_of(all.take(i as int)) == Some(columns.deep_view()),
        decreases parts.len() - i,
    {
        let ghost next = all.take(i + 1);
        assert(next.drop_last() =~= all.take(i as int));
        assert(next.last() == parts[i as int].deep_view());
        let ghost before = columns.deep_view();
        match parse_column(&parts[i]) {
            Some(column) => {
                columns.push(column);
                assert(columns.deep_view() =~= before.push(column@));
            },
            None => {
                proof {
                    lemma_columns_prefix(all, i + 1);
                }
                return None;
            },
        }
        i += 1;
    }
    assert(all.take(i as int) =~= all);
    Some(columns)
}

/// `s` without the quotes at its two ends.
pub fn unquoted(s: &Vec<char>) -> (out: Vec<char>)
    ensures
        out@ == unquote(s@),
{
    let mut a: usize = 0;
    assert(s@.skip(0) =~= s@);
    while a < s.len() && (s[a] == '\'' || s[a] == '"')
        invariant
            a <= s.len(),
            strip_front(s@) == strip_front(s@.skip(a as int)),
        decreases s.len() - a,
    {
        assert(s@.skip(a as int).drop_first() =~= s@.skip(a + 1));
        a += 1;
    }
    assert(strip_front(s@) == s@.skip(a as int));
    let mut b: usize = s.len();
    assert(s@.subrange(a as int, b as int) =~= s@.skip(a as int));
    while b > a && (s[b - 1] == '\'' || s[b - 1] == '"')
        invariant
            a <= b <= s.len(),
            unquote(s@) == strip_back(s@.subrange(a as int, b as int)),
        decreases b - a,
    {
        assert(s@.subrange(a as int, b as int).drop_last() =~= s@.subrange(a as int, b - 1));
        b -= 1;
    }
    assert(unquote(s@) == s@.subrange(a as int, b as int));
    let mut out: Vec<char> = Vec::new();
    let mut i: usize = a;
    while i < b
        invariant
            a <= i <= b <= s.len(),
            out@ == s@.subrange(a as int, i as int),
        decreases b - i,
    {
        out.push(s[i]);
        assert(out@ =~= s@.subrange(a as int, i + 1));
        i += 1;
    }
    out
}

/// How the tokens start.
pub fn leading_of(b: &Vec<Token>) -> (start: Result<Leading, EngineError>)
    ensures
        match start {
            Ok(l) => leading(b.deep_view()) == Ok::<Leading, ErrorView>(l),
            Err(e) => leading(b.deep_view()) == Err::<Leading, ErrorView>(e@),
        },
{
    if b.len() == 0 {
        Err(EngineError::EmptyCommand)
    } else if keyword_at(b, 0, "CREATE") && keyword_at(b, 1, "TABLE") {
        Ok(Leading::Create)
    } else if keyword_at(b, 0, "INSERT") && keyword_at(b, 1, "INTO") {
        Ok(Leading::Insert)
    } else if keyword_at(b, 0, "ALTER") && keyword_at(b, 1, "TABLE") {
        Ok(Leading::Alter)
    } else if keyword_at(b, 0, "DROP") && keyword_at(b, 1, "TABLE") {
        Ok(Leading::Drop)
    } else if keyword_at(b, 0, "SELECT") && keyword_at(b, 1, "*") && keyword_at(b, 2, "FROM") {
        Ok(Leading::Select)
    } else {
        Err(EngineError::Unsupported)
    }
}

/// Reads `CREATE TABLE name ( column , ... )`.
pub fn parse_create(b: &Vec<Token>) -> (parsed: Result<Statement, EngineError>)
    ensures
        parsed_view(parsed) == create_of(b.deep_view()),
{
    let n = b.len();
    if n < 5 || !open_at(b, 3) || !close_at(b, n - 1) {
        return Err(EngineError::Syntax(Shape::CreateTable));
    }
    let name = match word_at(b, 2) {
        Some(name) => name,
        None => {
            return Err(EngineError::Syntax(Shape::CreateTable));
        },
    };
    let parts = split_groups(b, 4, n - 1);
    match parse_columns(&parts) {
        Some(columns) => Ok(Statement::CreateTable { name, columns }),
        None => Err(EngineError::Syntax(Shape::CreateTable)),
    }
}

/// Reads `INSERT INTO name word ( value , ... )`.
pub fn parse_insert(b: &Vec<Token>) -> (parsed: Result<Statement, EngineError>)
    ensures
        parsed_view(parsed) == insert_of(b.deep_view()),
{
    let n = b.len();
    if n < 6 || !open_at(b, 4) || !close_at(b, n - 1) {
        return Err(EngineError::Syntax(Shape::Insert));
    }
    let table = match word_at(b, 2) {
        Some(table) => table,
        None => {
            return Err(EngineError::Syntax(Shape::Insert));
        },
    };
    if word_at(b, 3).is_none() {
        return Err(EngineError::Syntax(Shape::Insert));
    }
    let parts = split_groups(b, 5, n - 1);
    match parse_values(&parts) {
        Some(values) => Ok(Statement::Insert { table, values }),
        None => Err(EngineError::Syntax(Shape::Insert)),
    }
}

/// Reads `ALTER TABLE name ADD COLUMN name` and `ALTER TABLE name DROP COLUMN name`.
pub fn parse_alter(b: &Vec<Token>) -> (parsed: Result<Statement, EngineError>)
    ensures
        parsed_view(parsed) == alter_of(b.deep_view()),
{
    let adds = keyword_at(b, 3, "ADD");
    if !adds && !keyword_at(b, 3, "DROP") {
        return Err(EngineError::InvalidAlterAction);
    }
    let shape = if adds {
        Shape::AlterAdd
    } else {
        Shape::AlterDrop
    };
    if b.len() != 6 || !keyword_at(b, 4, "COLUMN") {
        return Err(EngineError::Syntax(shape));
    }
    let table = match word_at(b, 2) {
        Some(table) => table,
        None => {
            return Err(EngineError::Syntax(shape));
        },
    };
    let column = match word_at(b, 5) {
        Some(column) => column,
        None => {
            return Err(EngineError::Syntax(shape));
        },
    };
    if adds {
        Ok(Statement::AlterTable { table, action: AlterAction::AddColumn(column) })
    } else {
        Ok(Statement::AlterTable { table, action: AlterAction::DropColumn(column) })
    }
}

/// Reads `DROP TABLE name`.
pub fn parse_drop(b: &Vec<Token>) -> (parsed: Result<Statement, EngineError>)
    ensures
        parsed_view(parsed) == drop_of(b.deep_view()),
{
    if b.len() != 3 {
        return Err(EngineError::Syntax(Shape::DropTable));
    }
    match word_at(b, 2) {
        Some(table) => Ok(Statement::DropTable { table }),
        None => Err(EngineError::Syntax(Shape::DropTable)),
    }
}

/// Reads `SELECT * FROM name` and `SELECT * FROM name WHERE name = word`.
pub fn parse_select(b: &Vec<Token>) -> (parsed: Result<Statement, EngineError>)
    ensures
        parsed_view(parsed) == select_of(b.deep_view()),
{
    let n = b.len();
    let table = match word_at(b, 3) {
        Some(table) => table,
        None => {
            return Err(EngineError::Syntax(Shape::Select));
        },
    };
    if n == 4 {
        return Ok(Statement::Select { table, predicate: None });
    }
    if n != 8 || !keyword_at(b, 4, "WHERE") || !keyword_at(b, 6, "=") {
        return Err(EngineError::Syntax(Shape::Select));
    }
    let column = match word_at(b, 5) {
        Some(column) => column,
        None => {
            return Err(EngineError::Syntax(Shape::Select));
        },
    };
    match word_at(b, 7) {
        Some(quoted) => {
            let value = to_string(&unquoted(&to_chars(quoted.as_str())));
            Ok(Statement::Select { table, predicate: Some((column, value)) })
        },
        None => Err(EngineError::Syntax(Shape::Select)),
    }
}

/// The statement that `command` spells, inside a transaction (`active`) or
/// outside.
pub fn parse(command: &str, active: bool) -> (parsed: Result<Statement, EngineError>)
    ensures
        parsed_view(parsed) == parse_text(command@, active),
{
    let chars = to_chars(command);
    let mut tokens = tokenize(&chars);
    let ghost all = tokens.deep_view();
    let n = tokens.len();
    if n > 0 {
        let ends = match &tokens[n - 1] {
            Token::Semicolon => true,
            _ => false,
        };
        assert(ends == (all.last() == Lexeme::Semicolon));
        if ends {
            tokens.pop();
            assert(tokens.deep_view() =~= all.drop_last());
        }
    }
    assert(tokens.deep_view() == body(lex(command@)));
    let start = match leading_of(&tokens) {
        Ok(start) => start,
        Err(error) => {
            return Err(error);
        },
    };
    if start != Leading::Select && !active {
        return Err(EngineError::TransactionRequired);
    }
    match start {
        Leading::Create => parse_create(&tokens),
        Leading::Insert => parse_insert(&tokens),
        Leading::Alter => parse_alter(&tokens),
        Leading::Drop => parse_drop(&tokens),
        Leading::Select => parse_select(&tokens),
    }
}

} // verus!
