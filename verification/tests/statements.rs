use hexendb::error::{EngineError, Shape};
use hexendb::lexer::{tokenize, Token};
use hexendb::parser::{parse, unquoted};
use hexendb::statement::{AlterAction, Statement};
use hexendb::table::Column;
use hexendb::text::{is_keyword, to_chars, to_string, to_upper};

fn text(s: &str) -> String {
    s.to_string()
}

fn word(s: &str) -> Token {
    Token::Word(s.chars().collect())
}

#[test]
fn marks_are_tokens_of_their_own() {
    assert_eq!(
        tokenize(&to_chars("a(b, c) ;x")),
        vec![
            word("a"),
            Token::Open,
            word("b"),
            Token::Comma,
            word("c"),
            Token::Close,
            Token::Semicolon,
            word("x"),
        ]
    );
}

#[test]
fn spaces_of_every_kind_separate_words() {
    assert_eq!(tokenize(&to_chars("  a\tb\nc\r\nd\u{b}e\u{c}f  ")), vec![
        word("a"),
        word("b"),
        word("c"),
        word("d"),
        word("e"),
        word("f"),
    ]);
    assert_eq!(tokenize(&to_chars("")), vec![]);
    assert_eq!(tokenize(&to_chars(" \t ")), vec![]);
}

#[test]
fn spaces_beyond_ascii_separate_words_too() {
    assert_eq!(tokenize(&to_chars("a\u{a0}b\u{2003}c\u{3000}d\u{85}e\u{200b}f")), vec![
        word("a"),
        word("b"),
        word("c"),
        word("d"),
        word("e\u{200b}f"),
    ]);
}

#[test]
fn words_are_split_where_the_standard_library_splits_them() {
    let mut all = String::new();
    for code in 0u32..0x3100 {
        if let Some(c) = char::from_u32(code) {
            if !"(),;".contains(c) {
                all.push('x');
                all.push(c);
            }
        }
    }
    let expected: Vec<Token> = all.split_whitespace().map(word).collect();
    assert_eq!(tokenize(&to_chars(&all)), expected);
}

#[test]
fn other_characters_stay_inside_words() {
    assert_eq!(tokenize(&to_chars("a=b 'c' * é-x")), vec![word("a=b"), word("'c'"), word("*"), word("é-x")]);
}

#[test]
fn characters_and_strings_convert_both_ways() {
    assert_eq!(to_chars("héllo"), vec!['h', 'é', 'l', 'l', 'o']);
    assert_eq!(to_string(&vec!['h', 'é', 'l', 'l', 'o']), "héllo");
    assert_eq!(to_string(&vec![]), "");
}

#[test]
fn keywords_ignore_the_case_of_ascii_letters() {
    assert_eq!(to_upper('a'), 'A');
    assert_eq!(to_upper('z'), 'Z');
    assert_eq!(to_upper('A'), 'A');
    assert_eq!(to_upper('1'), '1');
    assert_eq!(to_upper('é'), 'é');
    assert!(is_keyword(&to_chars("select"), "SELECT"));
    assert!(is_keyword(&to_chars("SeLeCt"), "SELECT"));
    assert!(!is_keyword(&to_chars("selec"), "SELECT"));
    assert!(!is_keyword(&to_chars("selects"), "SELECT"));
    assert!(!is_keyword(&to_chars("ſelect"), "SELECT"));
}

#[test]
fn create_table_with_keys() {
    assert_eq!(
        parse("create table orders (id primary key, user_id Foreign Key References users(id), note);", true),
        Ok(Statement::CreateTable {
            name: text("orders"),
            columns: vec![
                Column { name: text("id"), is_primary_key: true, foreign_key: None },
                Column {
                    name: text("user_id"),
                    is_primary_key: false,
                    foreign_key: Some((text("users"), text("id"))),
                },
                Column { name: text("note"), is_primary_key: false, foreign_key: None },
            ],
        })
    );
}

#[test]
fn create_table_with_both_keys_on_one_column_in_either_order() {
    let expected = Ok(Statement::CreateTable {
        name: text("t"),
        columns: vec![Column {
            name: text("a"),
            is_primary_key: true,
            foreign_key: Some((text("u"), text("x"))),
        }],
    });
    assert_eq!(parse("CREATE TABLE t (a PRIMARY KEY FOREIGN KEY REFERENCES u ( x ))", true), expected);
    assert_eq!(parse("CREATE TABLE t(a FOREIGN KEY REFERENCES u(x) PRIMARY KEY)", true), expected);
}

#[test]
fn create_table_that_is_malformed() {
    for command in [
        "CREATE TABLE",
        "CREATE TABLE t",
        "CREATE TABLE t ()",
        "CREATE TABLE t (a",
        "CREATE TABLE t a)",
        "CREATE TABLE t (a,)",
        "CREATE TABLE t (a INT)",
        "CREATE TABLE t (a PRIMARY)",
        "CREATE TABLE t (a FOREIGN KEY REFERENCES u)",
        "CREATE TABLE t (a FOREIGN KEY u(x))",
        "CREATE TABLE ( (a)",
        "CREATE TABLE t (a) b",
    ] {
        assert_eq!(parse(command, true), Err(EngineError::Syntax(Shape::CreateTable)), "{}", command);
    }
}

#[test]
fn insert_values_are_trimmed_and_spaced() {
    assert_eq!(
        parse("INSERT INTO users VALUES (1,  Alice   Smith , , 'x')", true),
        Ok(Statement::Insert {
            table: text("users"),
            values: vec![text("1"), text("Alice Smith"), text(""), text("'x'")],
        })
    );
    assert_eq!(
        parse("insert into t values ()", true),
        Ok(Statement::Insert { table: text("t"), values: vec![text("")] })
    );
}

#[test]
fn insert_that_is_malformed() {
    for command in [
        "INSERT INTO",
        "INSERT INTO t",
        "INSERT INTO t VALUES",
        "INSERT INTO t (1, 2)",
        "INSERT INTO t VALUES (1, 2",
        "INSERT INTO t VALUES 1, 2)",
        "INSERT INTO t VALUES (a(b))",
        "INSERT INTO t VALUES (1) x",
    ] {
        assert_eq!(parse(command, true), Err(EngineError::Syntax(Shape::Insert)), "{}", command);
    }
}

#[test]
fn alter_table_adds_and_drops() {
    assert_eq!(
        parse("ALTER TABLE users ADD COLUMN age;", true),
        Ok(Statement::AlterTable { table: text("users"), action: AlterAction::AddColumn(text("age")) })
    );
    assert_eq!(
        parse("alter table users drop column age", true),
        Ok(Statement::AlterTable { table: text("users"), action: AlterAction::DropColumn(text("age")) })
    );
}

#[test]
fn alter_table_that_is_malformed() {
    assert_eq!(parse("ALTER TABLE t", true), Err(EngineError::InvalidAlterAction));
    assert_eq!(parse("ALTER TABLE t RENAME COLUMN a", true), Err(EngineError::InvalidAlterAction));
    assert_eq!(parse("ALTER TABLE t ADD a", true), Err(EngineError::Syntax(Shape::AlterAdd)));
    assert_eq!(parse("ALTER TABLE t ADD COLUMN", true), Err(EngineError::Syntax(Shape::AlterAdd)));
    assert_eq!(parse("ALTER TABLE t ADD COLUMN a b", true), Err(EngineError::Syntax(Shape::AlterAdd)));
    assert_eq!(parse("ALTER TABLE t DROP a", true), Err(EngineError::Syntax(Shape::AlterDrop)));
    assert_eq!(parse("ALTER TABLE t DROP COLUMN (", true), Err(EngineError::Syntax(Shape::AlterDrop)));
}

#[test]
fn drop_table_names_one_table() {
    assert_eq!(parse("DROP TABLE users;", true), Ok(Statement::DropTable { table: text("users") }));
    assert_eq!(parse("DROP TABLE users", true), Ok(Statement::DropTable { table: text("users") }));
    assert_eq!(parse("DROP TABLE", true), Err(EngineError::Syntax(Shape::DropTable)));
    assert_eq!(parse("DROP TABLE a b", true), Err(EngineError::Syntax(Shape::DropTable)));
    assert_eq!(parse("DROP TABLE users;;", true), Err(EngineError::Syntax(Shape::DropTable)));
}

#[test]
fn select_with_and_without_a_predicate() {
    assert_eq!(
        parse("SELECT * FROM users;", false),
        Ok(Statement::Select { table: text("users"), predicate: None })
    );
    assert_eq!(
        parse("select * from users where name = Alice", true),
        Ok(Statement::Select { table: text("users"), predicate: Some((text("name"), text("Alice"))) })
    );
    assert_eq!(
        parse("SELECT * FROM users WHERE name = '\"Alice\"';", false),
        Ok(Statement::Select { table: text("users"), predicate: Some((text("name"), text("Alice"))) })
    );
    assert_eq!(
        parse("SELECT * FROM users WHERE name = \"\"", false),
        Ok(Statement::Select { table: text("users"), predicate: Some((text("name"), text(""))) })
    );
}

#[test]
fn select_that_is_malformed() {
    for command in [
        "SELECT * FROM",
        "SELECT * FROM (",
        "SELECT * FROM t u",
        "SELECT * FROM t WHERE",
        "SELECT * FROM t WHERE a",
        "SELECT * FROM t WHERE a =",
        "SELECT * FROM t WHERE a == 1",
        "SELECT * FROM t WHERE a=1",
        "SELECT * FROM t HAVING a = 1",
        "SELECT * FROM t WHERE a = (1)",
        "SELECT * FROM t WHERE a = 'Alice Smith'",
        "SELECT * FROM t WHERE a = 1 AND b = 2",
    ] {
        assert_eq!(parse(command, false), Err(EngineError::Syntax(Shape::Select)), "{}", command);
    }
}

#[test]
fn quotes_leave_only_the_two_ends() {
    assert_eq!(to_string(&unquoted(&to_chars("'a'"))), "a");
    assert_eq!(to_string(&unquoted(&to_chars("\"'a b'\""))), "a b");
    assert_eq!(to_string(&unquoted(&to_chars("a'b"))), "a'b");
    assert_eq!(to_string(&unquoted(&to_chars("''"))), "");
    assert_eq!(to_string(&unquoted(&to_chars(""))), "");
    assert_eq!(to_string(&unquoted(&to_chars("abc"))), "abc");
}

#[test]
fn commands_without_a_statement() {
    assert_eq!(parse("", true), Err(EngineError::EmptyCommand));
    assert_eq!(parse("   \n", false), Err(EngineError::EmptyCommand));
    assert_eq!(parse(";", true), Err(EngineError::EmptyCommand));
    for command in ["HELLO", "CREATE", "CREATE INDEX i", "SELECT name FROM t", "SELECT *", "DROP", "( )", "UPDATE t"] {
        assert_eq!(parse(command, true), Err(EngineError::Unsupported), "{}", command);
        assert_eq!(parse(command, false), Err(EngineError::Unsupported), "{}", command);
    }
}

#[test]
fn the_transaction_is_asked_for_before_the_rest_is_read() {
    assert_eq!(parse("CREATE TABLE t (a)", false), Err(EngineError::TransactionRequired));
    assert_eq!(parse("CREATE TABLE", false), Err(EngineError::TransactionRequired));
    assert_eq!(parse("INSERT INTO t VALUES (1)", false), Err(EngineError::TransactionRequired));
    assert_eq!(parse("ALTER TABLE t ADD COLUMN a", false), Err(EngineError::TransactionRequired));
    assert_eq!(parse("DROP TABLE t", false), Err(EngineError::TransactionRequired));
    assert_eq!(parse("SELECT * FROM", false), Err(EngineError::Syntax(Shape::Select)));
}

#[test]
fn statements_that_mutate() {
    assert!(Statement::DropTable { table: text("t") }.mutates());
    assert!(Statement::CreateTable { name: text("t"), columns: vec![] }.mutates());
    assert!(Statement::Insert { table: text("t"), values: vec![] }.mutates());
    assert!(Statement::AlterTable { table: text("t"), action: AlterAction::AddColumn(text("a")) }.mutates());
    assert!(!Statement::Select { table: text("t"), predicate: None }.mutates());
}
