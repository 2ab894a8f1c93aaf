//! The structured text form of a table mapping.
//!
//! ```text
//! mapping := list(entry)            entry  := string table
//! table   := list(column) list(row) row    := list(string)
//! column  := string flag key        flag   := "0" | "1"
//! key     := "-" | "+" string string
//! list(x) := count ";" x ... x      string := count ":" characters
//! ```
//!
//! A count is written in decimal digits, and says how many items, or how
//! many characters, follow the mark after it. So every value ends where its
//! text says, whatever characters a string holds.
//!
//! The form is this library's own. It is not JSON: a file that holds the
//! tables as JSON, whatever program wrote it, is refused as no table
//! mapping.

use vstd::prelude::*;
use crate::catalog::{Catalog, Listing};
use crate::named::distinct_names;
use crate::table::{Column, ColumnView, Table, TableView};
use crate::text::to_chars;

verus! {

/// `c` is one of the digits `0` to `9`.
pub open spec fn is_digit(c: char) -> bool {
    '0' <= c && c <= '9'
}

/// The digit that stands for `d`, for `d` below ten.
pub open spec fn digit(d: nat) -> char {
    ((48 + d) as u8) as char
}

/// The number that the digit `c` stands for.
pub open spec fn digit_value(c: char) -> nat {
    ((c as u8) - 48) as nat
}

/// `n` in decimal digits.
pub open spec fn digits(n: nat) -> Seq<char>
    decreases n,
{
    if n < 10 {
        seq![digit(n)]
    } else {
        digits(n / 10).push(digit(n % 10))
    }
}

/// The number that the decimal digits `ds` stand for.
pub open spec fn number(ds: Seq<char>) -> nat
    decreases ds.len(),
{
    if ds.len() == 0 {
        0
    } else {
        number(ds.drop_last()) * 10 + digit_value(ds.last())
    }
}

/// How many digits `input` starts with.
pub open spec fn digit_run(input: Seq<char>) -> nat
    decreases input.len(),
{
    if input.len() > 0 && is_digit(input[0]) {
        1 + digit_run(input.drop_first())
    } else {
        0
    }
}

/// The count `n`, with `mark` after it.
pub open spec fn enc_count(n: nat, mark: char) -> Seq<char> {
    digits(n).push(mark)
}

/// The count that `input` starts with, and what follows its mark. There is
/// none if `input` starts with no digit, if `mark` does not follow the
/// digits, or if the number is above `u64::MAX`.
pub open spec fn dec_count(input: Seq<char>, mark: char) -> Option<(nat, Seq<char>)> {
    let k = digit_run(input) as int;
    if 0 < k < input.len() && input[k] == mark && number(input.take(k)) <= u64::MAX {
        Some((number(input.take(k)), input.skip(k + 1)))
    } else {
        None
    }
}

/// A string: the count of its characters, a colon, the characters.
pub open spec fn enc_str(s: Seq<char>) -> Seq<char> {
    enc_count(s.len(), ':') + s
}

/// The string that `input` starts with, and what follows it.
pub open spec fn dec_str(input: Seq<char>) -> Option<(Seq<char>, Seq<char>)> {
    match dec_count(input, ':') {
        Some((n, rest)) => if n <= rest.len() {
            Some((rest.take(n as int), rest.skip(n as int)))
        } else {
            None
        },
        None => None,
    }
}

/// A flag: `1` for true, `0` for false.
pub open spec fn enc_flag(flag: bool) -> Seq<char> {
    if flag {
        seq!['1']
    } else {
        seq!['0']
    }
}

/// The flag that `input` starts with, and what follows it.
pub open spec fn dec_flag(input: Seq<char>) -> Option<(bool, Seq<char>)> {
    if input.len() > 0 && input[0] == '1' {
        Some((true, input.drop_first()))
    } else if input.len() > 0 && input[0] == '0' {
        Some((false, input.drop_first()))
    } else {
        None
    }
}

/// A foreign key: `-` for none, else `+`, the table and the column.
pub open spec fn enc_key(key: Option<(Seq<char>, Seq<char>)>) -> Seq<char> {
    match key {
        Some((table, column)) => seq!['+'] + enc_str(table) + enc_str(column),
        None => seq!['-'],
    }
}

/// The foreign key that `input` starts with, and what follows it.
pub open spec fn dec_key(input: Seq<char>) -> Option<(Option<(Seq<char>, Seq<char>)>, Seq<char>)> {
    if input.len() > 0 && input[0] == '-' {
        Some((None, input.drop_first()))
    } else if input.len() > 0 && input[0] == '+' {
        match dec_str(input.drop_first()) {
            Some((table, rest)) => match dec_str(rest) {
                Some((column, rest)) => Some((Some((table, column)), rest)),
                None => None,
            },
            None => None,
        }
    } else {
        None
    }
}

/// A column: its name, whether it is a primary key, its foreign key.
pub open spec fn enc_column(column: ColumnView) -> Seq<char> {
    enc_str(column.name) + enc_flag(column.is_primary_key) + enc_key(column.foreign_key)
}

/// The column that `input` starts with, and what follows it.
pub open spec fn dec_column(input: Seq<char>) -> Option<(ColumnView, Seq<char>)> {
    match dec_str(input) {
        Some((name, rest)) => match dec_flag(rest) {
            Some((is_primary_key, rest)) => match dec_key(rest) {
                Some((foreign_key, rest)) => Some((ColumnView { name, is_primary_key, foreign_key }, rest)),
                None => None,
            },
            None => None,
        },
        None => None,
    }
}

/// The items one after another, each as `enc` writes it.
pub open spec fn enc_items<T>(items: Seq<T>, enc: spec_fn(T) -> Seq<char>) -> Seq<char>
    decreases items.len(),
{
    if items.len() == 0 {
        Seq::empty()
    } else {
        enc_items(items.drop_last(), enc) + enc(items.last())
    }
}

/// `done` and the `n` items that `input` starts with, each as `dec` reads
/// it, and what follows them.
pub open spec fn dec_items<T>(
    n: nat,
    input: Seq<char>,
    dec: spec_fn(Seq<char>) -> Option<(T, Seq<char>)>,
    done: Seq<T>,
) -> Option<(Seq<T>, Seq<char>)>
    decreases n,
{
    if n == 0 {
        Some((done, input))
    } else {
        match dec(input) {
            Some((item, rest)) => dec_items((n - 1) as nat, rest, dec, done.push(item)),
            None => None,
        }
    }
}

/// A list: the count of its items, a semicolon, the items.
pub open spec fn enc_list<T>(items: Seq<T>, enc: spec_fn(T) -> Seq<char>) -> Seq<char> {
    enc_count(items.len(), ';') + enc_items(items, enc)
}

/// The list that `input` starts with, and what follows it.
pub open spec fn dec_list<T>(input: Seq<char>, dec: spec_fn(Seq<char>) -> Option<(T, Seq<char>)>) -> Option<
    (Seq<T>, Seq<char>),
> {
    match dec_count(input, ';') {
        Some((n, rest)) => dec_items(n, rest, dec, Seq::empty()),
        None => None,
    }
}

/// [`enc_str`], as a function to hand to a list.
pub open spec fn str_encoder() -> spec_fn(Seq<char>) -> Seq<char> {
    |s: Seq<char>| enc_str(s)
}

/// [`dec_str`], as a function to hand to a list.
pub open spec fn str_decoder() -> spec_fn(Seq<char>) -> Option<(Seq<char>, Seq<char>)> {
    |input: Seq<char>| dec_str(input)
}

/// [`enc_column`], as a function to hand to a list.
pub open spec fn column_encoder() -> spec_fn(ColumnView) -> Seq<char> {
    |column: ColumnView| enc_column(column)
}

/// [`dec_column`], as a function to hand to a list.
pub open spec fn column_decoder() -> spec_fn(Seq<char>) -> Option<(ColumnView, Seq<char>)> {
    |input: Seq<char>| dec_column(input)
}

/// A row: the list of its values.
pub open spec fn enc_row(row: Seq<Seq<char>>) -> Seq<char> {
    enc_list(row, str_encoder())
}

/// The row that `input` starts with, and what follows it.
pub open spec fn dec_row(input: Seq<char>) -> Option<(Seq<Seq<char>>, Seq<char>)> {
    dec_list(input, str_decoder())
}

/// [`enc_row`], as a function to hand to a list.
pub open spec fn row_encoder() -> spec_fn(Seq<Seq<char>>) -> Seq<char> {
    |row: Seq<Seq<char>>| enc_row(row)
}

/// [`dec_row`], as a function to hand to a list.
pub open spec fn row_decoder() -> spec_fn(Seq<char>) -> Option<(Seq<Seq<char>>, Seq<char>)> {
    |input: Seq<char>| dec_row(input)
}

/// A table: the list of its columns, then the list of its rows.
pub open spec fn enc_table(table: TableView) -> Seq<char> {
    enc_list(table.columns, column_encoder()) + enc_list(table.rows, row_encoder())
}

/// The table that `input` starts with, and what follows it.
pub open spec fn dec_table(input: Seq<char>) -> Option<(TableView, Seq<char>)> {
    match dec_list(input, column_decoder()) {
        Some((columns, rest)) => match dec_list(rest, row_decoder()) {
            Some((rows, rest)) => Some((TableView { columns, rows }, rest)),
            None => None,
        },
        None => None,
    }
}

/// An entry of the mapping: the name, then the table.
pub open spec fn enc_entry(entry: (Seq<char>, TableView)) -> Seq<char> {
    enc_str(entry.0) + enc_table(entry.1)
}

/// The entry that `input` starts with, and what follows it.
pub open spec fn dec_entry(input: Seq<char>) -> Option<((Seq<char>, TableView), Seq<char>)> {
    match dec_str(input) {
        Some((name, rest)) => match dec_table(rest) {
            Some((table, rest)) => Some(((name, table), rest)),
            None => None,
        },
        None => None,
    }
}

/// [`enc_entry`], as a function to hand to a list.
pub open spec fn entry_encoder() -> spec_fn((Seq<char>, TableView)) -> Seq<char> {
    |entry: (Seq<char>, TableView)| enc_entry(entry)
}

/// [`dec_entry`], as a function to hand to a list.
pub open spec fn entry_decoder() -> spec_fn(Seq<char>) -> Option<((Seq<char>, TableView), Seq<char>)> {
    |input: Seq<char>| dec_entry(input)
}

/// The text of a table mapping: the list of its entries.
pub open spec fn serialized(listing: Listing) -> Seq<char> {
    enc_list(listing, entry_encoder())
}

/// Every table has one value in every row for each of its columns.
pub open spec fn rows_fit(listing: Listing) -> bool {
    forall|i: int| 0 <= i < listing.len() ==> (#[trigger] listing[i]).1.wf()
}

/// The table mapping that `text` is the text of: there is one if `text` is a
/// list of entries and nothing more, no name occurs twice, and the rows of
/// every table fit its columns.
pub open spec fn deserialized(text: Seq<char>) -> Option<Listing> {
    match dec_list(text, entry_decoder()) {
        Some((listing, rest)) => if rest.len() == 0 && distinct_names(listing) && rows_fit(listing) {
            Some(listing)
        } else {
            None
        },
        None => None,
    }
}

/// The string is short enough for its length to be written as a count.
pub open spec fn fits_str(s: Seq<char>) -> bool {
    s.len() <= u64::MAX
}

/// The strings of the column are short enough.
pub open spec fn fits_column(column: ColumnView) -> bool {
    &&& fits_str(column.name)
    &&& match column.foreign_key {
        Some((table, referenced)) => fits_str(table) && fits_str(referenced),
        None => true,
    }
}

/// The row has few enough values, and each is short enough.
pub open spec fn fits_row(row: Seq<Seq<char>>) -> bool {
    &&& row.len() <= u64::MAX
    &&& forall|i: int| 0 <= i < row.len() ==> fits_str(#[trigger] row[i])
}

/// The table has few enough columns and rows, and each of them fits.
pub open spec fn fits_table(table: TableView) -> bool {
    &&& table.columns.len() <= u64::MAX
    &&& forall|i: int| 0 <= i < table.columns.len() ==> fits_column(#[trigger] table.columns[i])
    &&& table.rows.len() <= u64::MAX
    &&& forall|i: int| 0 <= i < table.rows.len() ==> fits_row(#[trigger] table.rows[i])
}

/// Every length in the mapping can be written as a count: none is above
/// `u64::MAX`. This holds of whatever a machine can hold.
pub open spec fn fits(listing: Listing) -> bool {
    &&& listing.len() <= u64::MAX
    &&& forall|i: int|
        0 <= i < listing.len() ==> fits_str((#[trigger] listing[i]).0) && fits_table(listing[i].1)
}

/// `dec` reads back what `enc` writes of `item`, whatever follows it.
pub open spec fn reads_back<T>(
    enc: spec_fn(T) -> Seq<char>,
    dec: spec_fn(Seq<char>) -> Option<(T, Seq<char>)>,
    item: T,
) -> bool {
    forall|rest: Seq<char>| #[trigger] dec(enc(item) + rest) == Some((item, rest))
}

/// A number below ten has a digit, which stands for it.
pub proof fn lemma_digit(d: nat)
    requires
        d < 10,
    ensures
        is_digit(digit(d)),
        digit_value(digit(d)) == d,
{
}

/// The digits of a number are digits, and stand for the number.
pub proof fn lemma_digits(n: nat)
    ensures
        digits(n).len() >= 1,
        forall|i: int| 0 <= i < digits(n).len() ==> is_digit(#[trigger] digits(n)[i]),
        number(digits(n)) == n,
    decreases n,
{
    if n < 10 {
        lemma_digit(n);
        let ds = digits(n);
        assert(ds.drop_last() =~= Seq::<char>::empty());
        assert(number(ds.drop_last()) == 0);
    } else {
        lemma_digits(n / 10);
        lemma_digit(n % 10);
        let ds = digits(n);
        assert(ds.drop_last() =~= digits(n / 10));
        assert(ds.last() == digit(n % 10));
    }
}

/// Digits followed by something that starts with no digit are a run of
/// their own length.
pub proof fn lemma_digit_run(ds: Seq<char>, rest: Seq<char>)
    requires
        forall|i: int| 0 <= i < ds.len() ==> is_digit(#[trigger] ds[i]),
        rest.len() == 0 || !is_digit(rest[0]),
    ensures
        digit_run(ds + rest) == ds.len(),
    decreases ds.len(),
{
    if ds.len() == 0 {
        assert(ds + rest =~= rest);
    } else {
        assert((ds + rest)[0] == ds[0]);
        assert((ds + rest).drop_first() =~= ds.drop_first() + rest);
        lemma_digit_run(ds.drop_first(), rest);
    }
}

/// A run of digits is no longer than the text it starts.
pub proof fn lemma_digit_run_bound(input: Seq<char>)
    ensures
        digit_run(input) <= input.len(),
    decreases input.len(),
{
    if input.len() > 0 && is_digit(input[0]) {
        lemma_digit_run_bound(input.drop_first());
    }
}

/// The first digits of a number stand for no more than all of them.
pub proof fn lemma_number_grows(ds: Seq<char>, k: int)
    requires
        0 <= k <= ds.len(),
    ensures
        number(ds.take(k)) <= number(ds),
    decreases ds.len() - k,
{
    if k == ds.len() {
        assert(ds.take(k) =~= ds);
    } else {
        assert(ds.drop_last().take(k) =~= ds.take(k));
        lemma_number_grows(ds.drop_last(), k);
    }
}

/// A count is read back, whatever follows its mark.
pub proof fn lemma_count(n: nat, mark: char, rest: Seq<char>)
    requires
        n <= u64::MAX,
        !is_digit(mark),
    ensures
        dec_count(enc_count(n, mark) + rest, mark) == Some((n, rest)),
{
    let ds = digits(n);
    let input = enc_count(n, mark) + rest;
    lemma_digits(n);
    assert(input =~= ds + (seq![mark] + rest));
    lemma_digit_run(ds, seq![mark] + rest);
    let k = ds.len() as int;
    assert(input.take(k) =~= ds);
    assert(input.skip(k + 1) =~= rest);
    assert(input[k] == mark);
}

/// A string is read back, whatever follows it.
pub proof fn lemma_str(s: Seq<char>, rest: Seq<char>)
    requires
        fits_str(s),
    ensures
        dec_str(enc_str(s) + rest) == Some((s, rest)),
{
    let input = enc_str(s) + rest;
    assert(input =~= enc_count(s.len(), ':') + (s + rest));
    lemma_count(s.len(), ':', s + rest);
    assert((s + rest).take(s.len() as int) =~= s);
    assert((s + rest).skip(s.len() as int) =~= rest);
}

/// A foreign key is read back, whatever follows it.
pub proof fn lemma_key(key: Option<(Seq<char>, Seq<char>)>, rest: Seq<char>)
    requires
        key matches Some((table, column)) ==> fits_str(table) && fits_str(column),
    ensures
        dec_key(enc_key(key) + rest) == Some((key, rest)),
{
    let input = enc_key(key) + rest;
    match key {
        Some((table, column)) => {
            assert(input[0] == '+');
            assert(input.drop_first() =~= enc_str(table) + (enc_str(column) + rest));
            lemma_str(table, enc_str(column) + rest);
            lemma_str(column, rest);
        },
        None => {
            assert(input[0] == '-');
            assert(input.drop_first() =~= rest);
        },
    }
}

/// A column is read back, whatever follows it.
pub proof fn lemma_column(column: ColumnView, rest: Seq<char>)
    requires
        fits_column(column),
    ensures
        dec_column(enc_column(column) + rest) == Some((column, rest)),
{
    let input = enc_column(column) + rest;
    let flag = enc_flag(column.is_primary_key);
    let key = enc_key(column.foreign_key);
    assert(input =~= enc_str(column.name) + (flag + (key + rest)));
    lemma_str(column.name, flag + (key + rest));
    assert((flag + (key + rest)).drop_first() =~= key + rest);
    lemma_key(column.foreign_key, rest);
}

/// The text of items starts with the text of the first of them.
pub proof fn lemma_items_front<T>(items: Seq<T>, enc: spec_fn(T) -> Seq<char>)
    requires
        items.len() > 0,
    ensures
        enc_items(items, enc) == enc(items[0]) + enc_items(items.drop_first(), enc),
    decreases items.len(),
{
    if items.len() == 1 {
        assert(items.drop_last() =~= Seq::<T>::empty());
        assert(items.drop_first() =~= Seq::<T>::empty());
        assert(enc_items(items, enc) =~= enc(items[0]) + enc_items(items.drop_first(), enc));
    } else {
        lemma_items_front(items.drop_last(), enc);
        assert(items.drop_last().drop_first() =~= items.drop_first().drop_last());
        assert(items.drop_first().last() == items.last());
        assert(items.drop_last()[0] == items[0]);
        assert(enc_items(items, enc) =~= enc(items[0]) + enc_items(items.drop_first(), enc));
    }
}

/// Items are read back, whatever follows them, where each of them is.
pub proof fn lemma_items<T>(
    items: Seq<T>,
    enc: spec_fn(T) -> Seq<char>,
    dec: spec_fn(Seq<char>) -> Option<(T, Seq<char>)>,
    rest: Seq<char>,
    done: Seq<T>,
)
    requires
        forall|i: int| 0 <= i < items.len() ==> reads_back(enc, dec, #[trigger] items[i]),
    ensures
        dec_items(items.len(), enc_items(items, enc) + rest, dec, done) == Some((done + items, rest)),
    decreases items.len(),
{
    if items.len() == 0 {
        assert(enc_items(items, enc) + rest =~= rest);
        assert(done + items =~= done);
    } else {
        let tail = items.drop_first();
        let after = enc_items(tail, enc) + rest;
        lemma_items_front(items, enc);
        assert(enc_items(items, enc) + rest =~= enc(items[0]) + after);
        assert(reads_back(enc, dec, items[0]));
        assert(dec(enc(items[0]) + after) == Some((items[0], after)));
        assert forall|i: int| 0 <= i < tail.len() implies reads_back(enc, dec, #[trigger] tail[i]) by {
            assert(tail[i] == items[i + 1]);
        }
        lemma_items(tail, enc, dec, rest, done.push(items[0]));
        assert(done.push(items[0]) + tail =~= done + items);
    }
}

/// A list is read back, whatever follows it, where each of its items is.
pub proof fn lemma_list<T>(
    items: Seq<T>,
    enc: spec_fn(T) -> Seq<char>,
    dec: spec_fn(Seq<char>) -> Option<(T, Seq<char>)>,
    rest: Seq<char>,
)
    requires
        items.len() <= u64::MAX,
        forall|i: int| 0 <= i < items.len() ==> reads_back(enc, dec, #[trigger] items[i]),
    ensures
        dec_list(enc_list(items, enc) + rest, dec) == Some((items, rest)),
{
    let body = enc_items(items, enc) + rest;
    assert(enc_list(items, enc) + rest =~= enc_count(items.len(), ';') + body);
    lemma_count(items.len(), ';', body);
    lemma_items(items, enc, dec, rest, Seq::empty());
    assert(Seq::<T>::empty() + items =~= items);
}

/// A row is read back, whatever follows it.
pub proof fn lemma_row(row: Seq<Seq<char>>, rest: Seq<char>)
    requires
        fits_row(row),
    ensures
        dec_row(enc_row(row) + rest) == Some((row, rest)),
{
    assert forall|i: int| 0 <= i < row.len() implies reads_back(str_encoder(), str_decoder(), #[trigger] row[i]) by {
        let s = row[i];
        assert forall|after: Seq<char>| #[trigger] str_decoder()(str_encoder()(s) + after) == Some((s, after)) by {
            lemma_str(s, after);
        }
    }
    lemma_list(row, str_encoder(), str_decoder(), rest);
}

/// A table is read back, whatever follows it.
pub proof fn lemma_table(table: TableView, rest: Seq<char>)
    requires
        fits_table(table),
    ensures
        dec_table(enc_table(table) + rest) == Some((table, rest)),
{
    let rows = enc_list(table.rows, row_encoder());
    assert forall|i: int| 0 <= i < table.columns.len() implies reads_back(
        column_encoder(),
        column_decoder(),
        #[trigger] table.columns[i],
    ) by {
        let column = table.columns[i];
        assert forall|after: Seq<char>| #[trigger]
            column_decoder()(column_encoder()(column) + after) == Some((column, after)) by {
            lemma_column(column, after);
        }
    }
    assert forall|i: int| 0 <= i < table.rows.len() implies reads_back(
        row_encoder(),
        row_decoder(),
        #[trigger] table.rows[i],
    ) by {
        let row = table.rows[i];
        assert forall|after: Seq<char>| #[trigger] row_decoder()(row_encoder()(row) + after) == Some(
            (row, after),
        ) by {
            lemma_row(row, after);
        }
    }
    assert(enc_table(table) + rest =~= enc_list(table.columns, column_encoder()) + (rows + rest));
    lemma_list(table.columns, column_encoder(), column_decoder(), rows + rest);
    lemma_list(table.rows, row_encoder(), row_decoder(), rest);
}

/// An entry is read back, whatever follows it.
pub proof fn lemma_entry_text(entry: (Seq<char>, TableView), rest: Seq<char>)
    requires
        fits_str(entry.0),
        fits_table(entry.1),
    ensures
        dec_entry(enc_entry(entry) + rest) == Some((entry, rest)),
{
    assert(enc_entry(entry) + rest =~= enc_str(entry.0) + (enc_table(entry.1) + rest));
    lemma_str(entry.0, enc_table(entry.1) + rest);
    lemma_table(entry.1, rest);
}

/// Reading the text of a table mapping gives the mapping back: every name
/// with its table, columns and rows, in the same order.
pub proof fn lemma_round_trip(listing: Listing)
    requires
        fits(listing),
        distinct_names(listing),
        rows_fit(listing),
    ensures
        deserialized(serialized(listing)) == Some(listing),
{
    assert forall|i: int| 0 <= i < listing.len() implies reads_back(
        entry_encoder(),
        entry_decoder(),
        #[trigger] listing[i],
    ) by {
        let entry = listing[i];
        assert forall|after: Seq<char>| #[trigger]
            entry_decoder()(entry_encoder()(entry) + after) == Some((entry, after)) by {
            lemma_entry_text(entry, after);
        }
    }
    lemma_list(listing, entry_encoder(), entry_decoder(), Seq::empty());
    assert(serialized(listing) + Seq::<char>::empty() =~= serialized(listing));
}

/// Where items are read, those that were there before come first in the result.
pub proof fn lemma_items_keep<T>(
    n: nat,
    input: Seq<char>,
    dec: spec_fn(Seq<char>) -> Option<(T, Seq<char>)>,
    done: Seq<T>,
)
    ensures
        match dec_items(n, input, dec, done) {
            Some((all, _)) => all.len() == done.len() + n && all.take(done.len() as int) == done,
            None => true,
        },
    decreases n,
{
    if n == 0 {
        assert(done.take(done.len() as int) =~= done);
    } else {
        match dec(input) {
            Some((item, rest)) => {
                lemma_items_keep((n - 1) as nat, rest, dec, done.push(item));
                match dec_items((n - 1) as nat, rest, dec, done.push(item)) {
                    Some((all, _)) => {
                        assert(all.take(done.len() as int) =~= all.take(done.len() as int + 1).take(
                            done.len() as int,
                        ));
                        assert(done.push(item).take(done.len() as int) =~= done);
                    },
                    None => {},
                }
            },
            None => {},
        }
    }
}

/// Adds `n` in decimal digits to `out`.
pub fn write_digits(out: &mut Vec<char>, n: u64)
    ensures
        final(out)@ == old(out)@ + digits(n as nat),
    decreases n,
{
    if n >= 10 {
        write_digits(out, n / 10);
    }
    let d = (n % 10) as u8;
    out.push((48 + d) as char);
    assert(out@ =~= old(out)@ + digits(n as nat));
}

/// Adds the count `n` and `mark` to `out`.
pub fn write_count(out: &mut Vec<char>, n: usize, mark: char)
    ensures
        final(out)@ == old(out)@ + enc_count(n as nat, mark),
{
    write_digits(out, n as u64);
    out.push(mark);
    assert(out@ =~= old(out)@ + enc_count(n as nat, mark));
}

/// Adds the string `s` to `out`.
pub fn write_str(out: &mut Vec<char>, s: &String)
    ensures
        final(out)@ == old(out)@ + enc_str(s@),
        fits_str(s@),
{
    let chars = to_chars(s.as_str());
    write_count(out, chars.len(), ':');
    let ghost start = out@;
    let mut i: usize = 0;
    while i < chars.len()
        invariant
            i <= chars.len(),
            out@ == start + chars@.take(i as int),
        decreases chars.len() - i,
    {
        out.push(chars[i]);
        assert(out@ =~= start + chars@.take(i + 1));
        i += 1;
    }
    assert(chars@.take(i as int) =~= chars@);
    assert(out@ =~= old(out)@ + enc_str(s@));
}

/// Adds the column `column` to `out`.
pub fn write_column(out: &mut Vec<char>, column: &Column)
    ensures
        final(out)@ == old(out)@ + enc_column(column@),
        fits_column(column@),
{
    write_str(out, &column.name);
    out.push(if column.is_primary_key { '1' } else { '0' });
    let ghost start = out@;
    assert(start =~= old(out)@ + enc_str(column@.name) + enc_flag(column@.is_primary_key));
    match &column.foreign_key {
        Some((table, referenced)) => {
            out.push('+');
            write_str(out, table);
            write_str(out, referenced);
            assert(out@ =~= start + enc_key(column@.foreign_key));
        },
        None => {
            out.push('-');
            assert(out@ =~= start + enc_key(column@.foreign_key));
        },
    }
    assert(out@ =~= old(out)@ + enc_column(column@));
}

/// Adds the row `row` to `out`.
pub fn write_row(out: &mut Vec<char>, row: &Vec<String>)
    ensures
        final(out)@ == old(out)@ + enc_row(row.deep_view()),
        fits_row(row.deep_view()),
{
    let ghost all = row.deep_view();
    write_count(out, row.len(), ';');
    let ghost start = out@;
    let mut i: usize = 0;
    assert(out@ =~= start + enc_items(all.take(0), str_encoder()));
    while i < row.len()
        invariant
            i <= row.len(),
            all == row.deep_view(),
            out@ == start + enc_items(all.take(i as int), str_encoder()),
            forall|k: int| 0 <= k < i ==> fits_str(#[trigger] all[k]),
        decreases row.len() - i,
    {
        let ghost next = all.take(i + 1);
        assert(next.drop_last() =~= all.take(i as int));
        assert(next.last() == row[i as int]@);
        write_str(out, &row[i]);
        assert(out@ =~= start + enc_items(next, str_encoder()));
        i += 1;
    }
    assert(all.take(i as int) =~= all);
    assert(out@ =~= old(out)@ + enc_row(all));
}

/// Adds the table `table` to `out`.
pub fn write_table(out: &mut Vec<char>, table: &Table)
    ensures
        final(out)@ == old(out)@ + enc_table(table@),
        fits_table(table@),
{
    let ghost columns = table@.columns;
    let ghost rows = table@.rows;
    write_count(out, table.columns.len(), ';');
    let ghost start = out@;
    let mut i: usize = 0;
    assert(out@ =~= start + enc_items(columns.take(0), column_encoder()));
    while i < table.columns.len()
        invariant
            i <= table.columns.len(),
            columns == table.columns.deep_view(),
            out@ == start + enc_items(columns.take(i as int), column_encoder()),
            forall|k: int| 0 <= k < i ==> fits_column(#[trigger] columns[k]),
        decreases table.columns.len() - i,
    {
        let ghost next = columns.take(i + 1);
        assert(next.drop_last() =~= columns.take(i as int));
        assert(next.last() == table.columns[i as int]@);
        write_column(out, &table.columns[i]);
        assert(out@ =~= start + enc_items(next, column_encoder()));
        i += 1;
    }
    assert(columns.take(i as int) =~= columns);
    let ghost middle = out@;
    assert(middle =~= old(out)@ + enc_list(columns, column_encoder()));
    write_count(out, table.data.len(), ';');
    let ghost second = out@;
    let mut r: usize = 0;
    assert(out@ =~= second + enc_items(rows.take(0), row_encoder()));
    while r < table.data.len()
        invariant
            r <= table.data.len(),
            rows == table.data.deep_view(),
            out@ == second + enc_items(rows.take(r as int), row_encoder()),
            forall|k: int| 0 <= k < r ==> fits_row(#[trigger] rows[k]),
        decreases table.data.len() - r,
    {
        let ghost next = rows.take(r + 1);
        assert(next.drop_last() =~= rows.take(r as int));
        assert(next.last() == table.data[r as int].deep_view());
        write_row(out, &table.data[r]);
        assert(out@ =~= second + enc_items(next, row_encoder()));
        r += 1;
    }
    assert(rows.take(r as int) =~= rows);
    assert(out@ =~= old(out)@ + enc_table(table@));
}

/// The text of the tables of `catalog`.
pub fn serialize(catalog: &Catalog) -> (text: Vec<char>)
    ensures
        text@ == serialized(catalog.listing()),
        fits(catalog.listing()),
{
    let ghost all = catalog.listing();
    let mut text: Vec<char> = Vec::new();
    write_count(&mut text, catalog.len(), ';');
    let ghost start = text@;
    let count = catalog.len();
    let mut i: usize = 0;
    assert(text@ =~= start + enc_items(all.take(0), entry_encoder()));
    while i < count
        invariant
            i <= count,
            count == all.len(),
            all == catalog.listing(),
            text@ == start + enc_items(all.take(i as int), entry_encoder()),
            forall|k: int| 0 <= k < i ==> fits_str((#[trigger] all[k]).0) && fits_table(all[k].1),
        decreases count - i,
    {
        let ghost next = all.take(i + 1);
        let ghost before = text@;
        assert(next.drop_last() =~= all.take(i as int));
        assert(next.last() == all[i as int]);
        write_str(&mut text, catalog.name_at(i));
        write_table(&mut text, catalog.table_at(i));
        assert(text@ =~= before + enc_entry(all[i as int]));
        assert(text@ =~= start + enc_items(next, entry_encoder()));
        i += 1;
    }
    assert(all.take(i as int) =~= all);
    assert(text@ =~= serialized(all));
    text
}

/// Reads the count at `pos` and the `mark` after it.
pub fn read_count(input: &Vec<char>, pos: usize, mark: char) -> (found: Option<(u64, usize)>)
    requires
        pos <= input.len(),
    ensures
        match found {
            Some((n, next)) => pos < next <= input.len() && dec_count(input@.skip(pos as int), mark) == Some(
                (n as nat, input@.skip(next as int)),
            ),
            None => dec_count(input@.skip(pos as int), mark) is None,
        },
{
    let ghost s = input@.skip(pos as int);
    let mut i: usize = pos;
    let mut acc: u64 = 0;
    assert(input@.subrange(pos as int, pos as int) =~= Seq::<char>::empty());
    while i < input.len() && '0' <= input[i] && input[i] <= '9'
        invariant
            pos <= i <= input.len(),
            s == input@.skip(pos as int),
            acc == number(input@.subrange(pos as int, i as int)),
            digit_run(s) == (i - pos) + digit_run(input@.skip(i as int)),
        decreases input.len() - i,
    {
        let d = ((input[i] as u8) - 48) as u64;
        let ghost longer = input@.subrange(pos as int, i + 1);
        assert(longer.drop_last() =~= input@.subrange(pos as int, i as int));
        assert(longer.last() == input[i as int]);
        assert(input@.skip(i as int).drop_first() =~= input@.skip(i + 1));
        assert(input@.skip(i as int)[0] == input[i as int]);
        if acc > (u64::MAX - d) / 10 {
            proof {
                let k = digit_run(s) as int;
                lemma_digit_run_bound(s);
                assert(number(longer) > u64::MAX);
                assert(s.take(k).take(i + 1 - pos) =~= longer);
                lemma_number_grows(s.take(k), i + 1 - pos);
            }
            return None;
        }
        acc = acc * 10 + d;
        i += 1;
    }
    proof {
        assert(digit_run(input@.skip(i as int)) == 0) by {
            if i < input.len() {
                assert(input@.skip(i as int)[0] == input[i as int]);
            }
        }
        assert(s.take(i - pos) =~= input@.subrange(pos as int, i as int));
    }
    if i == pos || i >= input.len() || input[i] != mark {
        proof {
            if i < input.len() {
                assert(s[i - pos] == input[i as int]);
            }
        }
        return None;
    }
    assert(s[i - pos] == input[i as int]);
    assert(s.skip(i - pos + 1) =~= input@.skip(i + 1));
    Some((acc, i + 1))
}

/// Reads the string at `pos`.
pub fn read_str(input: &Vec<char>, pos: usize) -> (found: Option<(String, usize)>)
    requires
        pos <= input.len(),
    ensures
        match found {
            Some((s, next)) => pos < next <= input.len() && dec_str(input@.skip(pos as int)) == Some(
                (s@, input@.skip(next as int)),
            ),
            None => dec_str(input@.skip(pos as int)) is None,
        },
{
    let (n, start) = match read_count(input, pos, ':') {
        Some(found) => found,
        None => {
            return None;
        },
    };
    if n > (input.len() - start) as u64 {
        return None;
    }
    let end = start + (n as usize);
    let ghost rest = input@.skip(start as int);
    let mut s = String::new();
    let mut i: usize = start;
    assert(input@.subrange(start as int, start as int) =~= Seq::<char>::empty());
    while i < end
        invariant
            start <= i <= end <= input.len(),
            s@ == input@.subrange(start as int, i as int),
        decreases end - i,
    {
        s.push(input[i]);
        assert(s@ =~= input@.subrange(start as int, i + 1));
        i += 1;
    }
    assert(rest.take(n as int) =~= input@.subrange(start as int, end as int));
    assert(rest.skip(n as int) =~= input@.skip(end as int));
    Some((s, end))
}

/// Reads the flag at `pos`.
pub fn read_flag(input: &Vec<char>, pos: usize) -> (found: Option<(bool, usize)>)
    requires
        pos <= input.len(),
    ensures
        match found {
            Some((flag, next)) => pos < next <= input.len() && dec_flag(input@.skip(pos as int)) == Some(
                (flag, input@.skip(next as int)),
            ),
            None => dec_flag(input@.skip(pos as int)) is None,
        },
{
    if pos >= input.len() {
        return None;
    }
    assert(input@.skip(pos as int)[0] == input[pos as int]);
    assert(input@.skip(pos as int).drop_first() =~= input@.skip(pos + 1));
    if input[pos] == '1' {
        Some((true, pos + 1))
    } else if input[pos] == '0' {
        Some((false, pos + 1))
    } else {
        None
    }
}

/// Reads the foreign key at `pos`.
pub fn read_key(input: &Vec<char>, pos: usize) -> (found: Option<(Option<(String, String)>, usize)>)
    requires
        pos <= input.len(),
    ensures
        match found {
            Some((key, next)) => pos < next <= input.len() && dec_key(input@.skip(pos as int)) == Some(
                (key.deep_view(), input@.skip(next as int)),
            ),
            None => dec_key(input@.skip(pos as int)) is None,
        },
{
    if pos >= input.len() {
        return None;
    }
    assert(input@.skip(pos as int)[0] == input[pos as int]);
    assert(input@.skip(pos as int).drop_first() =~= input@.skip(pos + 1));
    if input[pos] == '-' {
        Some((None, pos + 1))
    } else if input[pos] == '+' {
        let (table, next) = match read_str(input, pos + 1) {
            Some(found) => found,
            None => {
                return None;
            },
        };
        let (column, next) = match read_str(input, next) {
            Some(found) => found,
            None => {
                return None;
            },
        };
        Some((Some((table, column)), next))
    } else {
        None
    }
}

/// Reads the column at `pos`.
pub fn read_column(input: &Vec<char>, pos: usize) -> (found: Option<(Column, usize)>)
    requires
        pos <= input.len(),
    ensures
        match found {
            Some((column, next)) => pos < next <= input.len() && dec_column(input@.skip(pos as int)) == Some(
                (column@, input@.skip(next as int)),
            ),
            None => dec_column(input@.skip(pos as int)) is None,
        },
{
    let (name, next) = match read_str(input, pos) {
        Some(found) => found,
        None => {
            return None;
        },
    };
    let (is_primary_key, next) = match read_flag(input, next) {
        Some(found) => found,
        None => {
            return None;
        },
    };
    let (foreign_key, next) = match read_key(input, next) {
        Some(found) => found,
        None => {
            return None;
        },
    };
    Some((Column { name, is_primary_key, foreign_key }, next))
}

/// Reads the row at `pos`.
pub fn read_row(input: &Vec<char>, pos: usize) -> (found: Option<(Vec<String>, usize)>)
    requires
        pos <= input.len(),
    ensures
        match found {
            Some((row, next)) => pos < next <= input.len() && dec_row(input@.skip(pos as int)) == Some(
                (row.deep_view(), input@.skip(next as int)),
            ),
            None => dec_row(input@.skip(pos as int)) is None,
        },
{
    let (n, start) = match read_count(input, pos, ';') {
        Some(found) => found,
        None => {
            return None;
        },
    };
    let ghost whole = dec_row(input@.skip(pos as int));
    let mut row: Vec<String> = Vec::new();
    let mut at: usize = start;
    let mut k: u64 = 0;
    assert(row.deep_view() =~= Seq::<Seq<char>>::empty());
    while k < n
        invariant
            k <= n,
            pos < start <= at <= input.len(),
            whole == dec_row(input@.skip(pos as int)),
            whole == dec_items((n - k) as nat, input@.skip(at as int), str_decoder(), row.deep_view()),
        decreases n - k,
    {
        let ghost before = row.deep_view();
        match read_str(input, at) {
            Some((value, next)) => {
                row.push(value);
                assert(row.deep_view() =~= before.push(value@));
                at = next;
            },
            None => {
                return None;
            },
        }
        k += 1;
    }
    Some((row, at))
}

/// Reads the table at `pos`.
pub fn read_table(input: &Vec<char>, pos: usize) -> (found: Option<(Table, usize)>)
    requires
        pos <= input.len(),
    ensures
        match found {
            Some((table, next)) => pos < next <= input.len() && dec_table(input@.skip(pos as int)) == Some(
                (table@, input@.skip(next as int)),
            ),
            None => dec_table(input@.skip(pos as int)) is None,
        },
{
    let (n, start) = match read_count(input, pos, ';') {
        Some(found) => found,
        None => {
            return None;
        },
    };
    let ghost first = dec_list(input@.skip(pos as int), column_decoder());
    let mut columns: Vec<Column> = Vec::new();
    let mut at: usize = start;
    let mut k: u64 = 0;
    assert(columns.deep_view() =~= Seq::<ColumnView>::empty());
    while k < n
        invariant
            k <= n,
            pos < start <= at <= input.len(),
            first == dec_list(input@.skip(pos as int), column_decoder()),
            first == dec_items((n - k) as nat, input@.skip(at as int), column_decoder(), columns.deep_view()),
        decreases n - k,
    {
        let ghost before = columns.deep_view();
        match read_column(input, at) {
            Some((column, next)) => {
                columns.push(column);
                assert(columns.deep_view() =~= before.push(column@));
                at = next;
            },
            None => {
                return None;
            },
        }
        k += 1;
    }
    let middle = at;
    let (m, start) = match read_count(input, middle, ';') {
        Some(found) => found,
        None => {
            return None;
        },
    };
    let ghost second = dec_list(input@.skip(middle as int), row_decoder());
    let mut data: Vec<Vec<String>> = Vec::new();
    let mut at: usize = start;
    let mut k: u64 = 0;
    assert(data.deep_view() =~= Seq::<Seq<Seq<char>>>::empty());
    while k < m
        invariant
            k <= m,
            middle < start <= at <= input.len(),
            dec_list(input@.skip(pos as int), column_decoder()) == Some(
                (columns.deep_view(), input@.skip(middle as int)),
            ),
            second == dec_list(input@.skip(middle as int), row_decoder()),
            second == dec_items((m - k) as nat, input@.skip(at as int), row_decoder(), data.deep_view()),
        decreases m - k,
    {
        let ghost before = data.deep_view();
        match read_row(input, at) {
            Some((row, next)) => {
                data.push(row);
                assert(data.deep_view() =~= before.push(row.deep_view()));
                at = next;
            },
            None => {
                return None;
            },
        }
        k += 1;
    }
    Some((Table { columns, data }, at))
}

/// The tables that `text` is the text of, if it is the text of any.
pub fn deserialize(text: &Vec<char>) -> (found: Option<Catalog>)
    ensures
        match found {
            Some(catalog) => catalog.wf() && deserialized(text@) == Some(catalog.listing()),
            None => deserialized(text@) is None,
        },
{
    assert(text@.skip(0) =~= text@);
    let (n, start) = match read_count(text, 0, ';') {
        Some(found) => found,
        None => {
            return None;
        },
    };
    let ghost whole = dec_list(text@, entry_decoder());
    let mut catalog = Catalog::new();
    let mut at: usize = start;
    let mut k: u64 = 0;
    while k < n
        invariant
            k <= n,
            start <= at <= text.len(),
            catalog.wf(),
            whole == dec_list(text@, entry_decoder()),
            whole == dec_items((n - k) as nat, text@.skip(at as int), entry_decoder(), catalog.listing()),
        decreases n - k,
    {
        let ghost before = catalog.listing();
        let (name, next) = match read_str(text, at) {
            Some(found) => found,
            None => {
                return None;
            },
        };
        let (table, next) = match read_table(text, next) {
            Some(found) => found,
            None => {
                return None;
            },
        };
        let ghost entry = (name@, table@);
        let ghost after = before.push(entry);
        assert(whole == dec_items((n - k - 1) as nat, text@.skip(next as int), entry_decoder(), after));
        proof {
            lemma_items_keep((n - k - 1) as nat, text@.skip(next as int), entry_decoder(), after);
        }
        if !table.is_well_formed() {
            proof {
                if let Some((all, _)) = whole {
                    assert(all.take(after.len() as int)[before.len() as int] == entry);
                    assert(!all[before.len() as int].1.wf());
                }
            }
            return None;
        }
        if !catalog.add_new(name, table) {
            proof {
                if let Some((all, _)) = whole {
                    let j = choose|j: int| 0 <= j < before.len() && (#[trigger] before[j]).0 == entry.0;
                    assert(all.take(after.len() as int)[before.len() as int] == entry);
                    assert(all.take(after.len() as int)[j] == before[j]);
                    assert(all[j].0 == all[before.len() as int].0);
                }
            }
            return None;
        }
        at = next;
        k += 1;
    }
    if at != text.len() {
        return None;
    }
    proof {
        assert(text@.skip(at as int).len() == 0);
        assert(rows_fit(catalog.listing()));
    }
    Some(catalog)
}

} // verus!
