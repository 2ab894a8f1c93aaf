use hexendb::database::Database;
use hexendb::error::{EngineError, ErrorKind};
use hexendb::registry::Registry;
use hexendb::reply::Reply;

fn text(s: &str) -> String {
    s.to_string()
}

#[test]
fn create_inside_then_refused_outside_a_transaction() {
    let mut db = Database::new(text("shop.hxn"), "secret", "UTF-8");
    assert_eq!(db.begin_transaction(), "Transação iniciada com sucesso.");
    assert_eq!(
        db.execute_command("CREATE TABLE users (id PRIMARY KEY, name);"),
        "Tabela 'users' criada com sucesso!"
    );
    let done = db.commit_transaction();
    assert_eq!(done.message, "Transação confirmada com sucesso.");
    assert!(done.write.is_some());
    assert_eq!(
        db.execute_command("CREATE TABLE x (a);"),
        "Erro: Operações devem ser executadas dentro de uma transação."
    );
    assert!(db.table("x").is_none());
    assert!(db.table("users").is_some());
}

#[test]
fn inserted_row_is_selected_after_commit() {
    let mut db = Database::new(text("shop.hxn"), "secret", "UTF-8");
    db.begin_transaction();
    db.execute_command("CREATE TABLE users (id PRIMARY KEY, name);");
    db.commit_transaction();
    db.begin_transaction();
    assert_eq!(
        db.execute_command("INSERT INTO users VALUES (1, Alice);"),
        "Dados inseridos na tabela 'users'."
    );
    db.commit_transaction();
    assert_eq!(
        db.execute("SELECT * FROM users;"),
        Ok(Reply::Rows {
            header: vec![text("id"), text("name")],
            rows: vec![vec![text("1"), text("Alice")]],
        })
    );
    assert_eq!(
        db.execute_command("SELECT * FROM users;"),
        "+-----------\n| id | name\n+-----------\n| 1 | Alice\n+-----------\n"
    );
}

#[test]
fn insert_with_absent_reference_is_refused() {
    let mut db = Database::new(text("shop.hxn"), "secret", "UTF-8");
    db.begin_transaction();
    db.execute_command("CREATE TABLE users (id PRIMARY KEY, name);");
    db.execute_command("INSERT INTO users VALUES (1, Alice);");
    db.execute_command("CREATE TABLE orders (user_id FOREIGN KEY REFERENCES users(id), item);");
    let refused = db.execute("INSERT INTO orders VALUES (99, widget);");
    assert_eq!(
        refused,
        Err(EngineError::ForeignKey { value: text("99"), column: text("user_id"), table: text("orders") })
    );
    assert_eq!(refused.unwrap_err().kind(), ErrorKind::Integrity);
    assert_eq!(
        db.execute_command("INSERT INTO orders VALUES (99, widget);"),
        "Erro: Valor '99' inválido para a coluna 'user_id' na tabela 'orders'."
    );
    assert_eq!(db.table("orders").unwrap().data.len(), 0);
    assert_eq!(db.execute("INSERT INTO orders VALUES (1, widget);"), Ok(Reply::RowInserted(text("orders"))));
    assert_eq!(db.table("orders").unwrap().data, vec![vec![text("1"), text("widget")]]);
}

#[test]
fn rollback_takes_the_inserted_row_away() {
    let mut db = Database::new(text("shop.hxn"), "secret", "UTF-8");
    db.begin_transaction();
    db.execute_command("CREATE TABLE users (id PRIMARY KEY, name);");
    db.commit_transaction();
    db.begin_transaction();
    db.execute_command("INSERT INTO users VALUES (1, Alice);");
    assert_eq!(db.table("users").unwrap().data.len(), 1);
    assert_eq!(db.rollback_transaction(), "Transação revertida com sucesso.");
    assert_eq!(db.table("users").unwrap().data.len(), 0);
    assert!(!db.is_active());
}

#[test]
fn restored_backup_shows_the_same_rows() {
    let mut registry = Registry::new();
    assert_eq!(registry.connect("db1", "secret"), Ok(text("Conexão estabelecida.")));
    registry.begin_transaction("db1");
    registry.execute_command("db1", "CREATE TABLE users (id PRIMARY KEY, name);");
    registry.execute_command("db1", "INSERT INTO users VALUES (1, Alice);");
    registry.execute_command("db1", "INSERT INTO users VALUES (2, Bob);");
    registry.commit_transaction("db1");
    let backup = Database::create_backup("db1", &registry, "20240102030405").unwrap();
    assert_eq!(backup.path, "backups/db1_20240102030405.hxn.gz");
    assert_eq!(backup.message(), "Backup criado com sucesso: backups/db1_20240102030405.hxn.gz");
    assert_eq!(
        Database::restore_backup("db2", &backup.contents, &mut registry),
        Ok(text("Backup restaurado com sucesso para 'db2'."))
    );
    let first = registry.execute_command("db1", "SELECT * FROM users;").unwrap();
    let second = registry.execute_command("db2", "SELECT * FROM users;").unwrap();
    assert_eq!(first, "+-----------\n| id | name\n+-----------\n| 1 | Alice\n| 2 | Bob\n+-----------\n");
    assert_eq!(second, first);
    assert_eq!(registry.get("db2").unwrap().table("users"), registry.get("db1").unwrap().table("users"));
    assert_eq!(registry.get("db2").unwrap().file_path(), "db2.hxn");
}
