use hexendb::catalog::Catalog;
use hexendb::database::Database;
use hexendb::error::{EngineError, ErrorKind};
use hexendb::reply::Reply;
use hexendb::statement::{AlterAction, Statement};
use hexendb::table::{Column, Table};

fn text(s: &str) -> String {
    s.to_string()
}

fn row(values: &[&str]) -> Vec<String> {
    values.iter().map(|v| v.to_string()).collect()
}

fn users() -> Catalog {
    let mut catalog = Catalog::new();
    catalog.create_table(
        text("users"),
        vec![
            Column { name: text("id"), is_primary_key: true, foreign_key: None },
            Column::plain(text("name")),
        ],
    );
    assert_eq!(catalog.insert_row(&text("users"), row(&["1", "Alice"])), Ok(()));
    assert_eq!(catalog.insert_row(&text("users"), row(&["2", "Bob"])), Ok(()));
    assert_eq!(catalog.insert_row(&text("users"), row(&["3", "Alice"])), Ok(()));
    catalog
}

fn rows_fit(table: &Table) -> bool {
    table.data.iter().all(|r| r.len() == table.columns.len())
}

#[test]
fn a_plain_column_has_no_keys() {
    assert_eq!(
        Column::plain(text("a")),
        Column { name: text("a"), is_primary_key: false, foreign_key: None }
    );
}

#[test]
fn a_new_table_has_no_rows() {
    let table = Table::new(vec![Column::plain(text("a"))]);
    assert_eq!(table.columns, vec![Column::plain(text("a"))]);
    assert!(table.data.is_empty());
    assert!(table.is_well_formed());
}

#[test]
fn a_table_with_a_short_row_is_not_well_formed() {
    let table = Table { columns: vec![Column::plain(text("a")), Column::plain(text("b"))], data: vec![row(&["1"])] };
    assert!(!table.is_well_formed());
    let table = Table { columns: vec![Column::plain(text("a"))], data: vec![row(&["1"]), row(&["1", "2"])] };
    assert!(!table.is_well_formed());
}

#[test]
fn position_is_that_of_the_first_column_of_the_name() {
    let table = Table::new(vec![Column::plain(text("a")), Column::plain(text("b")), Column::plain(text("a"))]);
    assert_eq!(table.position(&text("a")), Some(0));
    assert_eq!(table.position(&text("b")), Some(1));
    assert_eq!(table.position(&text("c")), None);
    assert_eq!(table.position(&text("A")), None);
}

#[test]
fn create_table_replaces_a_table_of_the_same_name() {
    let mut catalog = users();
    assert_eq!(catalog.len(), 1);
    catalog.create_table(text("users"), vec![Column::plain(text("only"))]);
    assert_eq!(catalog.len(), 1);
    assert_eq!(catalog.table(&text("users")), Some(&Table::new(vec![Column::plain(text("only"))])));
}

#[test]
fn tables_keep_the_order_in_which_they_came() {
    let mut catalog = users();
    catalog.create_table(text("b"), vec![]);
    catalog.create_table(text("a"), vec![]);
    catalog.create_table(text("users"), vec![]);
    assert_eq!(catalog.len(), 3);
    assert_eq!(catalog.name_at(0), "users");
    assert_eq!(catalog.name_at(1), "b");
    assert_eq!(catalog.name_at(2), "a");
    assert_eq!(catalog.table_at(1), &Table::new(vec![]));
    assert_eq!(catalog.find(&text("a")), Some(2));
    assert_eq!(catalog.find(&text("c")), None);
}

#[test]
fn add_new_does_not_replace() {
    let mut catalog = users();
    assert!(!catalog.add_new(text("users"), Table::new(vec![])));
    assert_eq!(catalog.table(&text("users")).unwrap().data.len(), 3);
    assert!(catalog.add_new(text("other"), Table::new(vec![])));
    assert_eq!(catalog.len(), 2);
}

#[test]
fn snapshot_is_a_copy_of_its_own() {
    let mut catalog = users();
    let copy = catalog.snapshot();
    assert_eq!(catalog.drop_table(&text("users")), Ok(()));
    assert_eq!(copy.len(), 1);
    assert_eq!(copy.table(&text("users")).unwrap().data.len(), 3);
    assert_eq!(catalog.len(), 0);
}

#[test]
fn insert_into_a_missing_table_fails() {
    let mut catalog = users();
    let failed = catalog.insert_row(&text("nobody"), row(&["1"]));
    assert_eq!(failed, Err(EngineError::TableNotFound(text("nobody"))));
    assert_eq!(failed.unwrap_err().kind(), ErrorKind::Schema);
}

#[test]
fn insert_of_too_few_or_too_many_values_fails() {
    let mut catalog = users();
    assert_eq!(
        catalog.insert_row(&text("users"), row(&["4"])),
        Err(EngineError::ValueCount { table: text("users") })
    );
    assert_eq!(
        catalog.insert_row(&text("users"), row(&["4", "Dan", "x"])),
        Err(EngineError::ValueCount { table: text("users") })
    );
    assert_eq!(catalog.table(&text("users")).unwrap().data.len(), 3);
    assert!(rows_fit(catalog.table(&text("users")).unwrap()));
}

#[test]
fn foreign_key_is_looked_up_in_the_column_referred_to() {
    let catalog = users();
    assert!(catalog.is_valid_foreign_key(&text("users"), &text("id"), &text("2")));
    assert!(catalog.is_valid_foreign_key(&text("users"), &text("name"), &text("Bob")));
    assert!(!catalog.is_valid_foreign_key(&text("users"), &text("id"), &text("Bob")));
    assert!(!catalog.is_valid_foreign_key(&text("users"), &text("id"), &text("4")));
    assert!(!catalog.is_valid_foreign_key(&text("users"), &text("age"), &text("1")));
    assert!(!catalog.is_valid_foreign_key(&text("nobody"), &text("id"), &text("1")));
}

#[test]
fn insert_names_the_first_value_that_breaks_a_foreign_key() {
    let mut catalog = users();
    catalog.create_table(
        text("pairs"),
        vec![
            Column::plain(text("n")),
            Column { name: text("a"), is_primary_key: false, foreign_key: Some((text("users"), text("id"))) },
            Column { name: text("b"), is_primary_key: false, foreign_key: Some((text("users"), text("name"))) },
        ],
    );
    assert_eq!(catalog.insert_row(&text("pairs"), row(&["x", "1", "Bob"])), Ok(()));
    assert_eq!(
        catalog.insert_row(&text("pairs"), row(&["x", "9", "Zed"])),
        Err(EngineError::ForeignKey { value: text("9"), column: text("a"), table: text("pairs") })
    );
    assert_eq!(
        catalog.insert_row(&text("pairs"), row(&["x", "1", "Zed"])),
        Err(EngineError::ForeignKey { value: text("Zed"), column: text("b"), table: text("pairs") })
    );
    assert_eq!(catalog.table(&text("pairs")).unwrap().data, vec![row(&["x", "1", "Bob"])]);
}

#[test]
fn a_foreign_key_fault_is_reported_before_the_value_count() {
    let mut catalog = users();
    catalog.create_table(
        text("pairs"),
        vec![
            Column::plain(text("n")),
            Column { name: text("a"), is_primary_key: false, foreign_key: Some((text("users"), text("id"))) },
            Column { name: text("b"), is_primary_key: false, foreign_key: Some((text("users"), text("name"))) },
        ],
    );
    let fault = EngineError::ForeignKey { value: text("9"), column: text("a"), table: text("pairs") };
    // too few values, and the one for `a` is absent from users.id
    assert_eq!(catalog.insert_row(&text("pairs"), row(&["x", "9"])), Err(fault));
    // too many values, and the one for `a` is absent from users.id
    let fault = EngineError::ForeignKey { value: text("9"), column: text("a"), table: text("pairs") };
    assert_eq!(catalog.insert_row(&text("pairs"), row(&["x", "9", "Bob", "y"])), Err(fault));
    // too few values, and those that are there meet their keys
    assert_eq!(
        catalog.insert_row(&text("pairs"), row(&["x", "1"])),
        Err(EngineError::ValueCount { table: text("pairs") })
    );
    assert_eq!(
        catalog.insert_row(&text("pairs"), row(&["x"])),
        Err(EngineError::ValueCount { table: text("pairs") })
    );
    // too many values, and those that have a column meet their keys
    assert_eq!(
        catalog.insert_row(&text("pairs"), row(&["x", "1", "Bob", "9"])),
        Err(EngineError::ValueCount { table: text("pairs") })
    );
    assert!(catalog.table(&text("pairs")).unwrap().data.is_empty());

    let mut db = Database::new(text("t.hxn"), "key", "UTF-8");
    db.begin_transaction();
    db.execute_command("CREATE TABLE users (id);");
    db.execute_command("CREATE TABLE orders (user_id FOREIGN KEY REFERENCES users(id), item);");
    assert_eq!(
        db.execute_command("INSERT INTO orders VALUES (99);"),
        "Erro: Valor '99' inválido para a coluna 'user_id' na tabela 'orders'."
    );
    assert_eq!(
        db.execute_command("INSERT INTO orders VALUES (99, widget, more);"),
        "Erro: Valor '99' inválido para a coluna 'user_id' na tabela 'orders'."
    );
    assert!(db.table("orders").unwrap().data.is_empty());
}

#[test]
fn foreign_key_to_a_missing_table_or_column_refuses_every_row() {
    let mut catalog = users();
    catalog.create_table(
        text("t"),
        vec![Column { name: text("a"), is_primary_key: false, foreign_key: Some((text("ghost"), text("id"))) }],
    );
    assert_eq!(
        catalog.insert_row(&text("t"), row(&["1"])),
        Err(EngineError::ForeignKey { value: text("1"), column: text("a"), table: text("t") })
    );
    catalog.create_table(
        text("u"),
        vec![Column { name: text("a"), is_primary_key: false, foreign_key: Some((text("users"), text("age"))) }],
    );
    assert_eq!(
        catalog.insert_row(&text("u"), row(&["1"])),
        Err(EngineError::ForeignKey { value: text("1"), column: text("a"), table: text("u") })
    );
}

#[test]
fn add_column_gives_every_row_an_empty_value() {
    let mut catalog = users();
    assert_eq!(catalog.add_column(&text("users"), text("age")), Ok(()));
    let table = catalog.table(&text("users")).unwrap();
    assert_eq!(table.columns.len(), 3);
    assert_eq!(table.columns[2], Column::plain(text("age")));
    assert_eq!(table.data, vec![row(&["1", "Alice", ""]), row(&["2", "Bob", ""]), row(&["3", "Alice", ""])]);
    assert!(rows_fit(table));
    assert_eq!(catalog.insert_row(&text("users"), row(&["4", "Dan", "30"])), Ok(()));
    assert_eq!(
        catalog.add_column(&text("nobody"), text("age")),
        Err(EngineError::TableNotFound(text("nobody")))
    );
}

#[test]
fn drop_column_takes_the_same_position_out_of_every_row() {
    let mut catalog = users();
    assert_eq!(catalog.drop_column(&text("users"), &text("id")), Ok(()));
    let table = catalog.table(&text("users")).unwrap();
    assert_eq!(table.columns, vec![Column::plain(text("name"))]);
    assert_eq!(table.data, vec![row(&["Alice"]), row(&["Bob"]), row(&["Alice"])]);
    assert!(rows_fit(table));
}

#[test]
fn drop_column_of_the_last_column() {
    let mut catalog = users();
    assert_eq!(catalog.drop_column(&text("users"), &text("name")), Ok(()));
    assert_eq!(catalog.drop_column(&text("users"), &text("id")), Ok(()));
    let table = catalog.table(&text("users")).unwrap();
    assert!(table.columns.is_empty());
    assert_eq!(table.data, vec![row(&[]), row(&[]), row(&[])]);
}

#[test]
fn drop_column_that_is_missing_fails() {
    let mut catalog = users();
    let failed = catalog.drop_column(&text("users"), &text("age"));
    assert_eq!(failed, Err(EngineError::ColumnNotInTable { column: text("age"), table: text("users") }));
    assert_eq!(failed.unwrap_err().kind(), ErrorKind::Schema);
    assert_eq!(
        catalog.drop_column(&text("nobody"), &text("id")),
        Err(EngineError::TableNotFound(text("nobody")))
    );
    assert_eq!(catalog.table(&text("users")).unwrap().columns.len(), 2);
}

#[test]
fn drop_table_fails_the_second_time() {
    let mut catalog = users();
    assert_eq!(catalog.drop_table(&text("users")), Ok(()));
    assert_eq!(catalog.drop_table(&text("users")), Err(EngineError::TableNotFound(text("users"))));
    assert!(catalog.table(&text("users")).is_none());
}

#[test]
fn select_without_a_predicate_gives_all_rows_in_order() {
    let catalog = users();
    assert_eq!(
        catalog.select(&text("users"), &None),
        Ok((row(&["id", "name"]), vec![row(&["1", "Alice"]), row(&["2", "Bob"]), row(&["3", "Alice"])]))
    );
}

#[test]
fn select_with_a_predicate_gives_the_matching_rows_in_order() {
    let catalog = users();
    assert_eq!(
        catalog.select(&text("users"), &Some((text("name"), text("Alice")))),
        Ok((row(&["id", "name"]), vec![row(&["1", "Alice"]), row(&["3", "Alice"])]))
    );
    assert_eq!(
        catalog.select(&text("users"), &Some((text("id"), text("2")))),
        Ok((row(&["id", "name"]), vec![row(&["2", "Bob"])]))
    );
    assert_eq!(
        catalog.select(&text("users"), &Some((text("name"), text("alice")))),
        Ok((row(&["id", "name"]), vec![]))
    );
}

#[test]
fn select_that_names_something_missing_fails() {
    let mut catalog = users();
    assert_eq!(
        catalog.select(&text("users"), &Some((text("age"), text("1")))),
        Err(EngineError::ColumnNotFound(text("age")))
    );
    assert_eq!(catalog.select(&text("nobody"), &None), Err(EngineError::TableNotFound(text("nobody"))));
    catalog.create_table(text("empty"), vec![Column::plain(text("a"))]);
    assert_eq!(
        catalog.select(&text("empty"), &Some((text("b"), text("1")))),
        Err(EngineError::ColumnNotFound(text("b")))
    );
}

#[test]
fn table_rows_can_be_read_by_value() {
    let catalog = users();
    let table = catalog.table(&text("users")).unwrap();
    assert!(table.holds(1, &text("Bob")));
    assert!(!table.holds(0, &text("Bob")));
    assert_eq!(table.rows_where(1, &text("Alice")), vec![row(&["1", "Alice"]), row(&["3", "Alice"])]);
    assert_eq!(table.all_rows().len(), 3);
    assert_eq!(table.header(), row(&["id", "name"]));
    assert_eq!(&table.clone(), table);
}

#[test]
fn statements_are_applied_inside_a_transaction_only() {
    let mut db = Database::new(text("t.hxn"), "key", "UTF-8");
    let create = || Statement::CreateTable { name: text("t"), columns: vec![Column::plain(text("a"))] };
    assert_eq!(db.apply(create()), Err(EngineError::TransactionRequired));
    assert_eq!(
        db.apply(Statement::Select { table: text("t"), predicate: None }),
        Err(EngineError::TableNotFound(text("t")))
    );
    db.begin_transaction();
    assert_eq!(db.apply(create()), Ok(Reply::TableCreated(text("t"))));
    assert_eq!(
        db.apply(Statement::Insert { table: text("t"), values: row(&["1"]) }),
        Ok(Reply::RowInserted(text("t")))
    );
    assert_eq!(
        db.apply(Statement::AlterTable { table: text("t"), action: AlterAction::AddColumn(text("b")) }),
        Ok(Reply::ColumnAdded { column: text("b"), table: text("t") })
    );
    assert_eq!(
        db.apply(Statement::AlterTable { table: text("t"), action: AlterAction::DropColumn(text("a")) }),
        Ok(Reply::ColumnDropped { column: text("a"), table: text("t") })
    );
    assert_eq!(
        db.apply(Statement::Select { table: text("t"), predicate: None }),
        Ok(Reply::Rows { header: row(&["b"]), rows: vec![row(&[""])] })
    );
    assert!(db.is_valid_foreign_key("t", "b", ""));
    assert!(!db.is_valid_foreign_key("t", "a", ""));
    assert_eq!(db.apply(Statement::DropTable { table: text("t") }), Ok(Reply::TableDropped(text("t"))));
    assert_eq!(
        db.apply(Statement::DropTable { table: text("t") }),
        Err(EngineError::TableNotFound(text("t")))
    );
}

#[test]
fn rows_fit_their_columns_after_every_statement() {
    let mut db = Database::new(text("t.hxn"), "key", "UTF-8");
    db.begin_transaction();
    for command in [
        "CREATE TABLE t (a, b);",
        "INSERT INTO t VALUES (1, 2);",
        "INSERT INTO t VALUES (1);",
        "INSERT INTO t VALUES (1, 2, 3);",
        "ALTER TABLE t ADD COLUMN c;",
        "INSERT INTO t VALUES (4, 5, 6);",
        "INSERT INTO t VALUES (4, 5);",
        "ALTER TABLE t DROP COLUMN a;",
        "INSERT INTO t VALUES (7, 8);",
        "ALTER TABLE t DROP COLUMN zz;",
    ] {
        db.execute_command(command);
        assert!(rows_fit(db.table("t").unwrap()), "{}", command);
    }
    assert_eq!(db.table("t").unwrap().data, vec![row(&["2", ""]), row(&["5", "6"]), row(&["7", "8"])]);
}
