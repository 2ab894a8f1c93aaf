//! One database: its tables, its key, and the transaction that may be open.

use vstd::prelude::*;
use vstd::utf8::encode_utf8;
use crate::backup::{backup_path, pack, plain_bytes, restore_message, to_bytes, unpack, unpacked, Backup};
use crate::catalog::{Catalog, Listing};
use crate::cipher::{bytes_view, decrypt, encrypt, unsealed};
use crate::error::{EngineError, ErrorView};
use crate::gzip::gzipped;
use crate::named::as_map;
use crate::registry::Registry;
use crate::model;
use crate::model::Tables;
use crate::parser::{parse, parse_text};
use crate::reply::{Reply, ReplyView};
use crate::statement::{AlterAction, Statement, StatementView};
use crate::table::{Column, Table};

verus! {

/// The number of bytes of an encryption key.
pub const KEY_LEN: usize = 32;

/// A database: named tables, the key under which its file is encrypted, and,
/// while a transaction is open, the tables as they were when it began.
pub struct Database {
    file_path: String,
    tables: Catalog,
    encryption_key: [u8; 32],
    charset: String,
    connected: bool,
    transaction_state: Option<Catalog>,
}

/// What a [`Database`] means in contracts.
pub struct DatabaseView {
    pub file_path: Seq<char>,
    pub tables: Tables,
    pub encryption_key: Seq<u8>,
    pub charset: Seq<char>,
    /// Whether the database is connected: it is from the moment it is made.
    pub connected: bool,
    /// The tables as they were at `begin`; there is one while a transaction
    /// is open, and only then.
    pub snapshot: Option<Tables>,
}

impl DatabaseView {
    /// A transaction is open.
    pub open spec fn active(self) -> bool {
        self.snapshot is Some
    }
}

/// The key made of a passphrase: the first 32 bytes of its UTF-8 form, with
/// zeros after them where it has fewer.
pub open spec fn derive_key(passphrase: Seq<char>) -> Seq<u8> {
    Seq::new(
        32,
        |i: int|
            if i < encode_utf8(passphrase).len() {
                encode_utf8(passphrase)[i]
            } else {
                0u8
            },
    )
}

/// The key of a database that was restored from a backup: 32 zero bytes.
pub open spec fn zero_key() -> Seq<u8> {
    Seq::new(32, |i: int| 0u8)
}

/// The path of the file of the database `db_name`.
pub open spec fn database_path(db_name: Seq<char>) -> Seq<char> {
    db_name + ".hxn"@
}

/// The database that a backup with the tables `tables` is restored to.
pub open spec fn restored(db_name: Seq<char>, tables: Tables) -> DatabaseView {
    DatabaseView {
        file_path: database_path(db_name),
        tables,
        encryption_key: zero_key(),
        charset: "UTF-8"@,
        connected: true,
        snapshot: None,
    }
}

/// A file that is to be written: its path and the bytes that it is to hold.
#[derive(Debug, PartialEq, Eq)]
pub struct FileWrite {
    pub path: String,
    pub contents: Vec<u8>,
}

/// What came of a commit: the text that reports it and, where the
/// transaction was closed, the one write of the database file that is due.
#[derive(Debug, PartialEq, Eq)]
pub struct Commit {
    pub message: String,
    pub write: Option<FileWrite>,
}

/// What a [`Commit`] means in contracts; the write is a path and bytes.
pub struct CommitView {
    pub message: Seq<char>,
    pub write: Option<(Seq<char>, Seq<u8>)>,
}

impl View for Commit {
    type V = CommitView;

    open spec fn view(&self) -> CommitView {
        CommitView {
            message: self.message@,
            write: match self.write {
                Some(write) => Some((write.path@, write.contents@)),
                None => None,
            },
        }
    }
}

/// `commit`, given the encrypted image of the tables or the error that kept
/// it from being made: from active to idle with the image to be written to
/// the database's file, once. Outside a transaction, and where there is no
/// image, nothing changes and nothing is to be written.
pub open spec fn commit(db: DatabaseView, image: Result<Seq<u8>, ErrorView>) -> (DatabaseView, CommitView) {
    if !db.active() {
        (db, CommitView { message: ErrorView::NothingToCommit.text(), write: None })
    } else {
        match image {
            Ok(bytes) => (
                DatabaseView { snapshot: None, ..db },
                CommitView { message: "Transação confirmada com sucesso."@, write: Some((db.file_path, bytes)) },
            ),
            Err(error) => (db, CommitView { message: error.text(), write: None }),
        }
    }
}

/// What a result of the engine means in contracts.
pub open spec fn outcome_view(outcome: Result<Reply, EngineError>) -> Result<ReplyView, ErrorView> {
    match outcome {
        Ok(reply) => Ok(reply@),
        Err(error) => Err(error@),
    }
}

/// The text that reports an outcome.
pub open spec fn outcome_text(outcome: Result<ReplyView, ErrorView>) -> Seq<char> {
    match outcome {
        Ok(reply) => reply.text(),
        Err(error) => error.text(),
    }
}

/// `begin`: from idle to active, with the tables kept as the snapshot.
pub open spec fn begin(db: DatabaseView) -> (DatabaseView, Seq<char>) {
    if db.active() {
        (db, ErrorView::TransactionActive.text())
    } else {
        (DatabaseView { snapshot: Some(db.tables), ..db }, "Transação iniciada com sucesso."@)
    }
}

/// `rollback`: from active to idle, with the tables as they were at `begin`.
pub open spec fn rollback(db: DatabaseView) -> (DatabaseView, Seq<char>) {
    match db.snapshot {
        Some(tables) => (
            DatabaseView { tables, snapshot: None, ..db },
            "Transação revertida com sucesso."@,
        ),
        None => (db, ErrorView::NothingToRollback.text()),
    }
}

/// What carrying out `statement` makes of the database, and what it answers.
/// Outside a transaction a statement that changes the tables is refused.
pub open spec fn apply(db: DatabaseView, statement: StatementView) -> (
    DatabaseView,
    Result<ReplyView, ErrorView>,
) {
    if statement.mutates() && !db.active() {
        (db, Err(ErrorView::TransactionRequired))
    } else {
        let (tables, outcome) = model::apply(db.tables, statement);
        (DatabaseView { tables, ..db }, outcome)
    }
}

/// What the command `text` makes of the database, and what it answers.
pub open spec fn execute(db: DatabaseView, text: Seq<char>) -> (DatabaseView, Result<ReplyView, ErrorView>) {
    match parse_text(text, db.active()) {
        Ok(statement) => apply(db, statement),
        Err(error) => (db, Err(error)),
    }
}

/// The database after the commands, one after the other.
pub open spec fn run(db: DatabaseView, commands: Seq<Seq<char>>) -> DatabaseView
    decreases commands.len(),
{
    if commands.len() == 0 {
        db
    } else {
        execute(run(db, commands.drop_last()), commands.last()).0
    }
}

/// `begin` fails inside a transaction, and so fails when it is called twice;
/// `commit` and `rollback` fail outside one. Each failure leaves the
/// database as it was and has a text of its own.
pub proof fn lemma_transaction_states(db: DatabaseView, image: Result<Seq<u8>, ErrorView>)
    ensures
        db.active() ==> begin(db) == (db, ErrorView::TransactionActive.text()),
        !db.active() ==> begin(db).0.active() && begin(begin(db).0) == (
            begin(db).0,
            ErrorView::TransactionActive.text(),
        ),
        !db.active() ==> commit(db, image) == (
            db,
            CommitView { message: ErrorView::NothingToCommit.text(), write: None },
        ),
        !db.active() ==> rollback(db) == (db, ErrorView::NothingToRollback.text()),
{
}

/// Commands change nothing of a database but its tables.
pub proof fn lemma_run_frame(db: DatabaseView, commands: Seq<Seq<char>>)
    ensures
        run(db, commands) == (DatabaseView { tables: run(db, commands).tables, ..db }),
    decreases commands.len(),
{
    if commands.len() > 0 {
        lemma_run_frame(db, commands.drop_last());
    }
}

/// After `rollback` the database is what it was before the `begin` that
/// opened the transaction, whatever commands ran in between, and however
/// many.
pub proof fn lemma_rollback_restores(db: DatabaseView, commands: Seq<Seq<char>>)
    requires
        !db.active(),
    ensures
        rollback(run(begin(db).0, commands)).0 == db,
        rollback(run(begin(db).0, commands)).0.tables == db.tables,
{
    lemma_run_frame(begin(db).0, commands);
}

/// After `commit` the tables are what the commands of the transaction made
/// of them, the transaction is closed, and there is one write to do: of the
/// image, to the database's file.
pub proof fn lemma_commit_keeps(db: DatabaseView, commands: Seq<Seq<char>>, image: Seq<u8>)
    requires
        !db.active(),
    ensures
        commit(run(begin(db).0, commands), Ok(image)).0.tables == run(begin(db).0, commands).tables,
        !commit(run(begin(db).0, commands), Ok(image)).0.active(),
        commit(run(begin(db).0, commands), Ok(image)).1.write == Some((db.file_path, image)),
{
    lemma_run_frame(begin(db).0, commands);
}

/// A backup that is restored gives the tables that it was made of: where
/// `contents` unpack to the tables of the database `source` of `before`, and
/// `after` is `before` with the database restored from `contents` under
/// `target`, the tables under `target` are those under `source`.
pub proof fn lemma_backup_restores(
    before: Registry,
    source: Seq<char>,
    contents: Seq<u8>,
    after: Registry,
    target: Seq<char>,
)
    requires
        before.wf(),
        before@.contains_key(source),
        unpacked(contents) == Ok::<Listing, ErrorView>(before.database(source).listing()),
        after@ == before@.insert(target, restored(target, as_map(unpacked(contents)->Ok_0))),
    ensures
        after@[target].tables == before@[source].tables,
{
    before.lemma_database(source);
    before.database(source).lemma_listing();
}

impl View for Database {
    type V = DatabaseView;

    closed spec fn view(&self) -> DatabaseView {
        DatabaseView {
            file_path: self.file_path@,
            tables: self.tables@,
            encryption_key: self.encryption_key@,
            charset: self.charset@,
            connected: self.connected,
            snapshot: match self.transaction_state {
                Some(snapshot) => Some(snapshot@),
                None => None,
            },
        }
    }
}

impl Database {
    /// No table name occurs twice and the rows of every table fit its
    /// columns, in the tables and in the snapshot.
    pub closed spec fn wf(&self) -> bool {
        &&& self.tables.wf()
        &&& match self.transaction_state {
            Some(snapshot) => snapshot.wf(),
            None => true,
        }
    }

    /// The names and tables in the order in which the database keeps them.
    pub closed spec fn listing(&self) -> Listing {
        self.tables.listing()
    }

    /// In every table, and in every table of the snapshot, each row has one
    /// value for each column.
    pub proof fn lemma_rows_fit(&self)
        requires
            self.wf(),
        ensures
            model::rows_fit(self@.tables),
            self@.snapshot is Some ==> model::rows_fit(self@.snapshot->0),
    {
        self.tables.lemma_rows_fit();
        if let Some(snapshot) = self.transaction_state {
            snapshot.lemma_rows_fit();
        }
    }

    /// The mapping is that of the listing.
    pub proof fn lemma_listing(&self)
        ensures
            self@.tables == crate::named::as_map(self.listing()),
    {
    }

    /// A database without tables, connected, with no transaction open. Its
    /// key is made of `encryption_key` as [`derive_key`] says.
    pub fn new(file_path: String, encryption_key: &str, charset: &str) -> (db: Database)
        ensures
            db.wf(),
            db.listing() == Seq::<(Seq<char>, crate::table::TableView)>::empty(),
            db@ == (DatabaseView {
                file_path: file_path@,
                tables: Map::empty(),
                encryption_key: derive_key(encryption_key@),
                charset: charset@,
                connected: true,
                snapshot: None,
            }),
    {
        let bytes = encryption_key.as_bytes();
        let mut key = [0u8; 32];
        let mut i: usize = 0;
        while i < 32 && i < bytes.len()
            invariant
                i <= 32,
                i <= bytes.len(),
                bytes@ == encode_utf8(encryption_key@),
                forall|k: int| 0 <= k < i ==> key@[k] == bytes@[k],
                forall|k: int| i <= k < 32 ==> key@[k] == 0u8,
            decreases 32 - i,
        {
            key[i] = bytes[i];
            i += 1;
        }
        assert(key@ =~= derive_key(encryption_key@));
        Database {
            file_path,
            tables: Catalog::new(),
            encryption_key: key,
            charset: String::from_str(charset),
            connected: true,
            transaction_state: None,
        }
    }

    /// Whether a transaction is open.
    pub fn is_active(&self) -> (active: bool)
        ensures
            active == self@.active(),
    {
        self.transaction_state.is_some()
    }

    /// The path of the database's file.
    pub fn file_path(&self) -> (path: &String)
        ensures
            path@ == self@.file_path,
    {
        &self.file_path
    }

    /// The table called `name`, if there is one.
    pub fn table(&self, name: &str) -> (found: Option<&Table>)
        requires
            self.wf(),
        ensures
            match found {
                Some(table) => self@.tables.contains_key(name@) && table@ == self@.tables[name@],
                None => !self@.tables.contains_key(name@),
            },
    {
        let name = String::from_str(name);
        self.tables.table(&name)
    }

    /// Opens a transaction and keeps a copy of the tables, to which
    /// `rollback_transaction` returns. Fails if a transaction is open.
    pub fn begin_transaction(&mut self) -> (text: String)
        requires
            old(self).wf(),
        ensures
            final(self).wf(),
            (final(self)@, text@) == begin(old(self)@),
    {
        if self.transaction_state.is_some() {
            return EngineError::TransactionActive.message();
        }
        self.transaction_state = Some(self.tables.snapshot());
        String::from_str("Transação iniciada com sucesso.")
    }

    /// Closes the transaction and puts the tables back as they were when it
    /// began. Fails if no transaction is open.
    pub fn rollback_transaction(&mut self) -> (text: String)
        requires
            old(self).wf(),
        ensures
            final(self).wf(),
            (final(self)@, text@) == rollback(old(self)@),
    {
        match self.transaction_state.take() {
            Some(snapshot) => {
                self.tables = snapshot;
                String::from_str("Transação revertida com sucesso.")
            },
            None => EngineError::NothingToRollback.message(),
        }
    }

    /// Whether `value` occurs in column `referenced_column` of table
    /// `referenced_table`.
    pub fn is_valid_foreign_key(&self, referenced_table: &str, referenced_column: &str, value: &str) -> (valid:
        bool)
        requires
            self.wf(),
        ensures
            valid == model::reference_holds(self@.tables, (referenced_table@, referenced_column@), value@),
    {
        let table = String::from_str(referenced_table);
        let column = String::from_str(referenced_column);
        let value = String::from_str(value);
        self.tables.is_valid_foreign_key(&table, &column, &value)
    }

    /// Creates the table `name` with `columns` and no rows, in place of any
    /// table that had the name.
    fn execute_create_table(&mut self, name: String, columns: Vec<Column>) -> (outcome: Result<
        Reply,
        EngineError,
    >)
        requires
            old(self).wf(),
        ensures
            final(self).wf(),
            (final(self)@, outcome_view(outcome)) == (
                DatabaseView {
                    tables: model::apply(
                        old(self)@.tables,
                        StatementView::CreateTable { name: name@, columns: columns.deep_view() },
                    ).0,
                    ..old(self)@
                },
                model::apply(
                    old(self)@.tables,
                    StatementView::CreateTable { name: name@, columns: columns.deep_view() },
                ).1,
            ),
    {
        let reply = Reply::TableCreated(name.clone());
        self.tables.create_table(name, columns);
        Ok(reply)
    }

    /// Adds `values` to `table` as a row, if they fit its columns and meet
    /// its foreign keys.
    fn execute_insert(&mut self, table: String, values: Vec<String>) -> (outcome: Result<Reply, EngineError>)
        requires
            old(self).wf(),
        ensures
            final(self).wf(),
            (final(self)@, outcome_view(outcome)) == (
                DatabaseView {
                    tables: model::apply(
                        old(self)@.tables,
                        StatementView::Insert { table: table@, values: values.deep_view() },
                    ).0,
                    ..old(self)@
                },
                model::apply(
                    old(self)@.tables,
                    StatementView::Insert { table: table@, values: values.deep_view() },
                ).1,
            ),
    {
        match self.tables.insert_row(&table, values) {
            Ok(()) => Ok(Reply::RowInserted(table)),
            Err(error) => Err(error),
        }
    }

    /// Reads the rows of `table`, all of them or those that `predicate` picks.
    fn execute_select(&self, table: String, predicate: Option<(String, String)>) -> (outcome: Result<
        Reply,
        EngineError,
    >)
        requires
            self.wf(),
        ensures
            outcome_view(outcome) == model::apply(
                self@.tables,
                StatementView::Select { table: table@, predicate: predicate.deep_view() },
            ).1,
    {
        match self.tables.select(&table, &predicate) {
            Ok((header, rows)) => Ok(Reply::Rows { header, rows }),
            Err(error) => Err(error),
        }
    }

    /// Adds a column to `table`, or takes one out of it.
    fn execute_alter_table(&mut self, table: String, action: AlterAction) -> (outcome: Result<
        Reply,
        EngineError,
    >)
        requires
            old(self).wf(),
        ensures
            final(self).wf(),
            (final(self)@, outcome_view(outcome)) == (
                DatabaseView {
                    tables: model::apply(
                        old(self)@.tables,
                        StatementView::AlterTable { table: table@, action: action@ },
                    ).0,
                    ..old(self)@
                },
                model::apply(
                    old(self)@.tables,
                    StatementView::AlterTable { table: table@, action: action@ },
                ).1,
            ),
    {
        match action {
            AlterAction::AddColumn(column) => {
                match self.tables.add_column(&table, column.clone()) {
                    Ok(()) => Ok(Reply::ColumnAdded { column, table }),
                    Err(error) => Err(error),
                }
            },
            AlterAction::DropColumn(column) => {
                match self.tables.drop_column(&table, &column) {
                    Ok(()) => Ok(Reply::ColumnDropped { column, table }),
                    Err(error) => Err(error),
                }
            },
        }
    }

    /// Takes `table` out of the database.
    fn execute_drop_table(&mut self, table: String) -> (outcome: Result<Reply, EngineError>)
        requires
            old(self).wf(),
        ensures
            final(self).wf(),
            (final(self)@, outcome_view(outcome)) == (
                DatabaseView {
                    tables: model::apply(old(self)@.tables, StatementView::DropTable { table: table@ }).0,
                    ..old(self)@
                },
                model::apply(old(self)@.tables, StatementView::DropTable { table: table@ }).1,
            ),
    {
        match self.tables.drop_table(&table) {
            Ok(()) => Ok(Reply::TableDropped(table)),
            Err(error) => Err(error),
        }
    }

    /// Carries out `statement`. One that changes the tables is refused
    /// outside a transaction. A statement that fails changes nothing.
    pub fn apply(&mut self, statement: Statement) -> (outcome: Result<Reply, EngineError>)
        requires
            old(self).wf(),
        ensures
            final(self).wf(),
            (final(self)@, outcome_view(outcome)) == apply(old(self)@, statement@),
    {
        if statement.mutates() && self.transaction_state.is_none() {
            return Err(EngineError::TransactionRequired);
        }
        match statement {
            Statement::CreateTable { name, columns } => self.execute_create_table(name, columns),
            Statement::Insert { table, values } => self.execute_insert(table, values),
            Statement::Select { table, predicate } => self.execute_select(table, predicate),
            Statement::AlterTable { table, action } => self.execute_alter_table(table, action),
            Statement::DropTable { table } => self.execute_drop_table(table),
        }
    }

    /// Reads the command `command` and carries it out.
    pub fn execute(&mut self, command: &str) -> (outcome: Result<Reply, EngineError>)
        requires
            old(self).wf(),
        ensures
            final(self).wf(),
            (final(self)@, outcome_view(outcome)) == execute(old(self)@, command@),
    {
        match parse(command, self.transaction_state.is_some()) {
            Ok(statement) => self.apply(statement),
            Err(error) => Err(error),
        }
    }

    /// Reads the command `command`, carries it out, and reports in words what
    /// came of it.
    pub fn execute_command(&mut self, command: &str) -> (text: String)
        requires
            old(self).wf(),
        ensures
            final(self).wf(),
            final(self)@ == execute(old(self)@, command@).0,
            text@ == outcome_text(execute(old(self)@, command@).1),
    {
        match self.execute(command) {
            Ok(reply) => reply.text(),
            Err(error) => error.message(),
        }
    }

    /// The database that a backup is restored to: the tables of the backup,
    /// a key of 32 zero bytes, no transaction open.
    ///
    /// A backup does not hold the key of its database. A commit on the
    /// restored database writes its file under the zero key, and nothing
    /// here gives the database another key.
    pub fn restored(db_name: &str, tables: Catalog) -> (db: Database)
        requires
            tables.wf(),
        ensures
            db.wf(),
            db@ == restored(db_name@, tables@),
            db.listing() == tables.listing(),
    {
        let mut file_path = String::from_str(db_name);
        file_path.append(".hxn");
        let key = [0u8; 32];
        assert(key@ =~= zero_key());
        Database {
            file_path,
            tables,
            encryption_key: key,
            charset: String::from_str("UTF-8"),
            connected: true,
            transaction_state: None,
        }
    }

    /// Encrypts `data` under the database's key and a nonce drawn for this
    /// call; the nonce stands in front of the ciphertext.
    /// `decrypt_data` reads `data` out of the result.
    pub fn encrypt_data(&self, data: &[u8]) -> (blob: Result<Vec<u8>, EngineError>)
        ensures
            match blob {
                Ok(bytes) => unsealed(self@.encryption_key, bytes@) == Some(data@),
                Err(error) => error@ == ErrorView::Encryption,
            },
    {
        encrypt(&self.encryption_key, data)
    }

    /// Reads the plaintext out of a blob that `encrypt_data` made under the
    /// database's key.
    pub fn decrypt_data(&self, blob: &[u8]) -> (data: Result<Vec<u8>, EngineError>)
        ensures
            bytes_view(data) == match unsealed(self@.encryption_key, blob@) {
                Some(bytes) => Ok::<Seq<u8>, ErrorView>(bytes),
                None => Err(ErrorView::Decryption),
            },
    {
        decrypt(&self.encryption_key, blob)
    }

    /// The encrypted image of the tables, to be written to the database's file.
    /// Under the database's key it decrypts to the bytes of the tables.
    pub fn save_database(&self) -> (image: Result<Vec<u8>, EngineError>)
        ensures
            match image {
                Ok(bytes) => unsealed(self@.encryption_key, bytes@) == Some(plain_bytes(self.listing())),
                Err(error) => error@ == ErrorView::Encryption,
            },
    {
        let plain = to_bytes(&self.tables);
        self.encrypt_data(plain.as_slice())
    }

    /// Closes the transaction, given the encrypted image of the tables or
    /// the error that kept it from being made.
    pub fn commit_image(&mut self, image: Result<Vec<u8>, EngineError>) -> (done: Commit)
        requires
            old(self).wf(),
        ensures
            final(self).wf(),
            final(self).listing() == old(self).listing(),
            (final(self)@, done@) == commit(old(self)@, bytes_view(image)),
    {
        if self.transaction_state.is_none() {
            return Commit { message: EngineError::NothingToCommit.message(), write: None };
        }
        match image {
            Ok(contents) => {
                self.transaction_state = None;
                Commit {
                    message: String::from_str("Transação confirmada com sucesso."),
                    write: Some(FileWrite { path: self.file_path.clone(), contents }),
                }
            },
            Err(error) => Commit { message: error.message(), write: None },
        }
    }

    /// Closes the transaction and keeps what it did to the tables. The
    /// result holds the one write of the database's file that is due: the
    /// tables, serialized and encrypted under the database's key.
    ///
    /// Fails, and changes nothing, if no transaction is open or if the
    /// tables cannot be encrypted; then nothing is to be written.
    pub fn commit_transaction(&mut self) -> (done: Commit)
        requires
            old(self).wf(),
        ensures
            final(self).wf(),
            final(self).listing() == old(self).listing(),
            final(self)@.tables == old(self)@.tables,
            exists|image: Result<Seq<u8>, ErrorView>|
                {
                    &&& (final(self)@, done@) == #[trigger] commit(old(self)@, image)
                    &&& match image {
                        Ok(bytes) => unsealed(old(self)@.encryption_key, bytes) == Some(
                            plain_bytes(old(self).listing()),
                        ),
                        Err(error) => error == ErrorView::Encryption,
                    }
                },
    {
        let image = self.save_database();
        let ghost seen = bytes_view(image);
        let done = self.commit_image(image);
        assert((self@, done@) == commit(old(self)@, seen));
        done
    }

    /// The backup of the database `db_name` of `databases`, named after
    /// `timestamp`, which the caller has read off the clock.
    /// `restore_backup` reads the same tables out of its contents. The
    /// caller writes the file.
    ///
    /// Fails if `databases` has no database of that name, or, with the
    /// compressor's error, if the compressor fails.
    pub fn create_backup(db_name: &str, databases: &Registry, timestamp: &str) -> (backup: Result<
        Backup,
        EngineError,
    >)
        requires
            databases.wf(),
        ensures
            match backup {
                Ok(backup) => {
                    &&& databases@.contains_key(db_name@)
                    &&& backup.path@ == backup_path(db_name@, timestamp@)
                    &&& gzipped(plain_bytes(databases.database(db_name@).listing())) == Some(backup.contents@)
                    &&& unpacked(backup.contents@) == Ok::<Listing, ErrorView>(
                        databases.database(db_name@).listing(),
                    )
                },
                Err(error) => if databases@.contains_key(db_name@) {
                    &&& gzipped(plain_bytes(databases.database(db_name@).listing())) is None
                    &&& error is BackupWrite || error is Compression
                } else {
                    error@ == ErrorView::DatabaseNotFound
                },
            },
    {
        let db = match databases.get(db_name) {
            Some(db) => db,
            None => {
                return Err(EngineError::DatabaseNotFound);
            },
        };
        let stream = pack(&db.tables);
        Backup::assemble(db_name, timestamp, stream)
    }

    /// Reads the tables out of `contents`, the contents of a backup file,
    /// and puts a new database with these tables under `db_name`, in place
    /// of any database that had the name. The new database has a key of 32
    /// zero bytes (see [`Database::restored`]).
    ///
    /// Fails, and changes nothing, if `contents` cannot be decompressed or
    /// hold no table mapping.
    pub fn restore_backup(db_name: &str, contents: &[u8], databases: &mut Registry) -> (done: Result<
        String,
        EngineError,
    >)
        requires
            old(databases).wf(),
        ensures
            final(databases).wf(),
            match unpacked(contents@) {
                Ok(listing) => {
                    &&& done is Ok
                    &&& done->Ok_0@ == restore_message(db_name@)
                    &&& final(databases)@ == old(databases)@.insert(db_name@, restored(db_name@, as_map(listing)))
                    &&& final(databases).database(db_name@).listing() == listing
                },
                Err(error) => done is Err && done->Err_0@ == error && final(databases)@ == old(databases)@,
            },
    {
        let tables = match unpack(contents) {
            Ok(tables) => tables,
            Err(error) => {
                return Err(error);
            },
        };
        databases.install(String::from_str(db_name), Database::restored(db_name, tables));
        let mut text = String::from_str("Backup restaurado com sucesso para '");
        text.append(db_name);
        text.append("'.");
        Ok(text)
    }
}

} // verus!
