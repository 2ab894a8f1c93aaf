use hexendb::catalog::Catalog;
use hexendb::database::Database;
use hexendb::error::EngineError;
use hexendb::registry::Registry;
use hexendb::table::Column;

fn text(s: &str) -> String {
    s.to_string()
}

#[test]
fn a_new_registry_is_empty() {
    let registry = Registry::new();
    assert!(!registry.contains("db"));
    assert_eq!(registry.first_name(), None);
    assert!(registry.get("db").is_none());
}

#[test]
fn connect_makes_an_empty_database_once() {
    let mut registry = Registry::new();
    assert_eq!(registry.connect("db", "secret"), Ok(text("Conexão estabelecida.")));
    assert!(registry.contains("db"));
    let db = registry.get("db").unwrap();
    assert_eq!(db.file_path(), "db.hxn");
    assert!(!db.is_active());
    registry.begin_transaction("db");
    registry.execute_command("db", "CREATE TABLE t (a);");
    assert_eq!(registry.connect("db", "other"), Err(EngineError::AlreadyConnected));
    assert!(registry.get("db").unwrap().table("t").is_some());
    assert!(registry.get("db").unwrap().is_active());
}

#[test]
fn the_first_name_is_that_of_the_first_connection() {
    let mut registry = Registry::new();
    registry.connect("b", "k").unwrap();
    registry.connect("a", "k").unwrap();
    assert_eq!(registry.first_name(), Some(text("b")));
}

#[test]
fn operations_reach_the_database_that_is_named() {
    let mut registry = Registry::new();
    registry.connect("a", "k").unwrap();
    registry.connect("b", "k").unwrap();
    assert_eq!(registry.begin_transaction("a"), Some(text("Transação iniciada com sucesso.")));
    assert_eq!(
        registry.execute_command("a", "CREATE TABLE t (x);"),
        Some(text("Tabela 't' criada com sucesso!"))
    );
    assert_eq!(
        registry.execute_command("b", "CREATE TABLE t (x);"),
        Some(text("Erro: Operações devem ser executadas dentro de uma transação."))
    );
    assert!(registry.get("a").unwrap().table("t").is_some());
    assert!(registry.get("b").unwrap().table("t").is_none());
    assert_eq!(registry.rollback_transaction("b"), Some(text("Erro: Nenhuma transação ativa para reverter.")));
    assert_eq!(registry.rollback_transaction("a"), Some(text("Transação revertida com sucesso.")));
    assert!(registry.get("a").unwrap().table("t").is_none());
    registry.begin_transaction("a");
    let done = registry.commit_transaction("a").unwrap();
    assert_eq!(done.message, "Transação confirmada com sucesso.");
    assert_eq!(done.write.unwrap().path, "a.hxn");
    let idle = registry.commit_transaction("a").unwrap();
    assert_eq!(idle.message, "Erro: Nenhuma transação ativa para confirmar.");
    assert!(idle.write.is_none());
}

#[test]
fn operations_on_a_missing_database_do_nothing() {
    let mut registry = Registry::new();
    registry.connect("a", "k").unwrap();
    assert_eq!(registry.begin_transaction("z"), None);
    assert_eq!(registry.execute_command("z", "SELECT * FROM t"), None);
    assert_eq!(registry.rollback_transaction("z"), None);
    assert!(registry.commit_transaction("z").is_none());
    assert!(!registry.get("a").unwrap().is_active());
}

#[test]
fn install_replaces_the_database_of_the_name() {
    let mut registry = Registry::new();
    registry.connect("a", "k").unwrap();
    let mut tables = Catalog::new();
    tables.create_table(text("t"), vec![Column::plain(text("x"))]);
    registry.install(text("a"), Database::restored("a", tables));
    assert!(registry.get("a").unwrap().table("t").is_some());
    registry.install(text("b"), Database::new(text("b.hxn"), "k", "UTF-8"));
    assert!(registry.contains("b"));
    assert_eq!(registry.first_name(), Some(text("a")));
}

#[test]
fn backup_of_a_missing_database_fails() {
    let registry = Registry::new();
    assert_eq!(Database::create_backup("db", &registry, "1"), Err(EngineError::DatabaseNotFound));
}

#[test]
fn backup_is_named_after_the_time_that_is_given() {
    let mut registry = Registry::new();
    registry.connect("db", "k").unwrap();
    let backup = Database::create_backup("db", &registry, "20240102030405").unwrap();
    assert_eq!(backup.path, "backups/db_20240102030405.hxn.gz");
    assert_eq!(backup.contents, Database::create_backup("db", &registry, "x").unwrap().contents);
    assert_eq!(Database::create_backup("db", &registry, "").unwrap().path, "backups/db_.hxn.gz");
}

#[test]
fn backup_holds_the_tables_of_an_open_transaction_too() {
    let mut registry = Registry::new();
    registry.connect("db", "k").unwrap();
    registry.begin_transaction("db");
    registry.execute_command("db", "CREATE TABLE t (a);");
    registry.execute_command("db", "INSERT INTO t VALUES (1);");
    let backup = Database::create_backup("db", &registry, "1").unwrap();
    registry.rollback_transaction("db");
    assert!(registry.get("db").unwrap().table("t").is_none());
    Database::restore_backup("copy", &backup.contents, &mut registry).unwrap();
    assert_eq!(registry.get("copy").unwrap().table("t").unwrap().data, vec![vec![text("1")]]);
    assert!(!registry.get("copy").unwrap().is_active());
}

#[test]
fn restore_overwrites_the_database_of_the_name() {
    let mut registry = Registry::new();
    registry.connect("src", "k").unwrap();
    registry.begin_transaction("src");
    registry.execute_command("src", "CREATE TABLE kept (a);");
    registry.commit_transaction("src");
    let backup = Database::create_backup("src", &registry, "1").unwrap();

    registry.connect("dst", "k").unwrap();
    registry.begin_transaction("dst");
    registry.execute_command("dst", "CREATE TABLE lost (a);");
    assert_eq!(
        Database::restore_backup("dst", &backup.contents, &mut registry),
        Ok(text("Backup restaurado com sucesso para 'dst'."))
    );
    let dst = registry.get("dst").unwrap();
    assert!(dst.table("kept").is_some());
    assert!(dst.table("lost").is_none());
    assert!(!dst.is_active());
    assert_eq!(dst.file_path(), "dst.hxn");
}

#[test]
fn a_restored_database_has_the_zero_key() {
    let mut registry = Registry::new();
    registry.connect("src", "secret").unwrap();
    let backup = Database::create_backup("src", &registry, "1").unwrap();
    Database::restore_backup("dst", &backup.contents, &mut registry).unwrap();
    let blob = registry.get("dst").unwrap().encrypt_data(b"x").unwrap();
    assert_eq!(hexendb::cipher::decrypt(&[0u8; 32], &blob), Ok(b"x".to_vec()));
    assert_eq!(registry.get("src").unwrap().decrypt_data(&blob), Err(EngineError::Decryption));
}
