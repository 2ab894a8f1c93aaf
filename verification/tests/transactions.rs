use hexendb::database::{Commit, Database};
use hexendb::error::EngineError;

fn text(s: &str) -> String {
    s.to_string()
}

fn fresh() -> Database {
    Database::new(text("t.hxn"), "key", "UTF-8")
}

#[test]
fn new_database_is_idle_and_empty() {
    let db = fresh();
    assert!(!db.is_active());
    assert_eq!(db.file_path(), "t.hxn");
    assert!(db.table("users").is_none());
}

#[test]
fn begin_twice_fails_the_second_time() {
    let mut db = fresh();
    assert_eq!(db.begin_transaction(), "Transação iniciada com sucesso.");
    assert!(db.is_active());
    assert_eq!(db.begin_transaction(), "Erro: Já existe uma transação ativa.");
    assert!(db.is_active());
}

#[test]
fn begin_works_again_after_commit_and_after_rollback() {
    let mut db = fresh();
    db.begin_transaction();
    db.commit_transaction();
    assert_eq!(db.begin_transaction(), "Transação iniciada com sucesso.");
    db.rollback_transaction();
    assert_eq!(db.begin_transaction(), "Transação iniciada com sucesso.");
}

#[test]
fn commit_while_idle_fails_and_writes_nothing() {
    let mut db = fresh();
    assert_eq!(
        db.commit_transaction(),
        Commit { message: text("Erro: Nenhuma transação ativa para confirmar."), write: None }
    );
    assert!(!db.is_active());
}

#[test]
fn rollback_while_idle_fails() {
    let mut db = fresh();
    assert_eq!(db.rollback_transaction(), "Erro: Nenhuma transação ativa para reverter.");
    assert!(!db.is_active());
}

#[test]
fn rollback_restores_tables_after_many_statements() {
    let mut db = fresh();
    db.begin_transaction();
    db.execute_command("CREATE TABLE users (id PRIMARY KEY, name);");
    db.execute_command("INSERT INTO users VALUES (1, Alice);");
    db.commit_transaction();
    let before = db.table("users").unwrap().clone();

    db.begin_transaction();
    db.execute_command("INSERT INTO users VALUES (2, Bob);");
    db.execute_command("ALTER TABLE users ADD COLUMN age;");
    db.execute_command("ALTER TABLE users DROP COLUMN name;");
    db.execute_command("CREATE TABLE extra (a);");
    db.execute_command("INSERT INTO extra VALUES (x);");
    db.execute_command("DROP TABLE users;");
    assert!(db.table("users").is_none());
    assert!(db.table("extra").is_some());
    db.rollback_transaction();

    assert_eq!(db.table("users"), Some(&before));
    assert!(db.table("extra").is_none());
}

#[test]
fn rollback_of_an_empty_transaction_changes_nothing() {
    let mut db = fresh();
    db.begin_transaction();
    db.execute_command("CREATE TABLE t (a);");
    db.commit_transaction();
    let before = db.table("t").unwrap().clone();
    db.begin_transaction();
    db.rollback_transaction();
    assert_eq!(db.table("t"), Some(&before));
}

#[test]
fn commit_keeps_the_mutations_and_asks_for_one_write() {
    let mut db = fresh();
    db.begin_transaction();
    db.execute_command("CREATE TABLE users (id PRIMARY KEY, name);");
    db.execute_command("INSERT INTO users VALUES (1, Alice);");
    let during = db.table("users").unwrap().clone();
    let done = db.commit_transaction();
    assert_eq!(done.message, "Transação confirmada com sucesso.");
    let write = done.write.unwrap();
    assert_eq!(write.path, "t.hxn");
    assert!(!db.is_active());
    assert_eq!(db.table("users"), Some(&during));
    assert_eq!(
        db.decrypt_data(&write.contents),
        Ok("1;5:users2;2:id1-4:name0-1;2;1:15:Alice".as_bytes().to_vec())
    );
    assert_eq!(db.rollback_transaction(), "Erro: Nenhuma transação ativa para reverter.");
    assert_eq!(db.table("users"), Some(&during));
}

#[test]
fn commit_without_an_image_leaves_the_transaction_open() {
    let mut db = fresh();
    db.begin_transaction();
    db.execute_command("CREATE TABLE t (a);");
    let done = db.commit_image(Err(EngineError::Encryption));
    assert_eq!(done, Commit { message: text("Erro ao criptografar dados."), write: None });
    assert!(db.is_active());
    assert!(db.table("t").is_some());
}

#[test]
fn commit_with_an_image_hands_it_on_unchanged() {
    let mut db = fresh();
    db.begin_transaction();
    let done = db.commit_image(Ok(vec![1, 2, 3]));
    let write = done.write.unwrap();
    assert_eq!(write.contents, vec![1, 2, 3]);
    assert_eq!(write.path, "t.hxn");
    assert!(!db.is_active());
}

#[test]
fn select_needs_no_transaction() {
    let mut db = fresh();
    db.begin_transaction();
    db.execute_command("CREATE TABLE t (a);");
    db.commit_transaction();
    assert_eq!(db.execute_command("SELECT * FROM t;"), "+---\n| a\n+---\n+---\n");
    db.begin_transaction();
    assert_eq!(db.execute_command("SELECT * FROM t;"), "+---\n| a\n+---\n+---\n");
}

#[test]
fn every_mutating_statement_is_refused_outside_a_transaction() {
    let mut db = fresh();
    db.begin_transaction();
    db.execute_command("CREATE TABLE t (a);");
    db.commit_transaction();
    let before = db.table("t").unwrap().clone();
    for command in [
        "CREATE TABLE u (a);",
        "INSERT INTO t VALUES (1);",
        "ALTER TABLE t ADD COLUMN b;",
        "ALTER TABLE t DROP COLUMN a;",
        "DROP TABLE t;",
        "CREATE TABLE",
    ] {
        assert_eq!(db.execute(command), Err(EngineError::TransactionRequired));
    }
    assert_eq!(db.table("t"), Some(&before));
    assert!(db.table("u").is_none());
}
