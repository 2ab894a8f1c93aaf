//! The server's part in a request: what it does to the registry, what it
//! answers, and which file is to be written before the answer is sent.

use vstd::prelude::*;
use crate::backup::{backup_message, backup_path, plain_bytes, restore_message, unpacked};
use crate::cipher::unsealed;
use crate::database::{
    begin, commit, database_path, derive_key, execute, outcome_text, restored, rollback, Database, DatabaseView,
    FileWrite,
};
use crate::error::ErrorView;
use crate::gzip::gzipped;
use crate::named::as_map;
use crate::registry::{connect_message, Registry};

verus! {

/// A request of a client. A backup comes with the time of day, which the
/// caller has read off the clock and written in digits; a restore comes with
/// the contents of the backup file, which the caller has read.
#[derive(Debug, PartialEq, Eq)]
pub enum ServerCommand {
    Connect { db_name: String, encryption_key: String },
    Disconnect,
    Execute { command: String },
    Backup { db_name: String, timestamp: String },
    Restore { db_name: String, contents: Vec<u8> },
    BeginTransaction,
    CommitTransaction,
    RollbackTransaction,
}

/// What the client is told.
#[derive(Debug, PartialEq, Eq)]
pub enum ServerResponse {
    Success(String),
    Error(String),
}

/// The answer to a request, and the file that is to be written before the
/// answer is sent. Where the file cannot be written, the caller answers
/// with that failure instead.
#[derive(Debug, PartialEq, Eq)]
pub struct Answer {
    pub response: ServerResponse,
    pub write: Option<FileWrite>,
}

/// What an [`Answer`] means in contracts.
pub struct AnswerView {
    pub success: bool,
    pub text: Seq<char>,
    pub write: Option<(Seq<char>, Seq<u8>)>,
}

impl View for Answer {
    type V = AnswerView;

    open spec fn view(&self) -> AnswerView {
        AnswerView {
            success: self.response is Success,
            text: match self.response {
                ServerResponse::Success(text) => text@,
                ServerResponse::Error(text) => text@,
            },
            write: match self.write {
                Some(write) => Some((write.path@, write.contents@)),
                None => None,
            },
        }
    }
}

/// The answer that says `text` and asks for no file.
pub open spec fn success(text: Seq<char>) -> AnswerView {
    AnswerView { success: true, text, write: None }
}

/// The answer that reports the failure `text`.
pub open spec fn failure(text: Seq<char>) -> AnswerView {
    AnswerView { success: false, text, write: None }
}

/// The text that answers a request for which no database is connected.
pub open spec fn no_database() -> Seq<char> {
    "Nenhum banco de dados conectado."@
}

/// The text that answers a disconnect.
pub open spec fn disconnected() -> Seq<char> {
    "Desconectado."@
}

/// The server: the registry of the databases that are connected. Commands
/// and transactions go to the database that was connected first.
pub struct HexenServer {
    databases: Registry,
}

impl View for HexenServer {
    type V = Map<Seq<char>, DatabaseView>;

    closed spec fn view(&self) -> Map<Seq<char>, DatabaseView> {
        self.databases@
    }
}

impl HexenServer {
    /// The registry of the server.
    pub closed spec fn registry(&self) -> Registry {
        self.databases
    }

    /// The registry is well formed.
    pub closed spec fn wf(&self) -> bool {
        self.databases.wf()
    }

    /// The databases of the server are those of its registry.
    pub proof fn lemma_registry(&self)
        ensures
            self@ == self.registry()@,
            self.wf() == self.registry().wf(),
    {
    }

    /// A server without databases.
    pub fn new() -> (server: HexenServer)
        ensures
            server.wf(),
            server@ == Map::<Seq<char>, DatabaseView>::empty(),
            server.registry().first() is None,
    {
        HexenServer { databases: Registry::new() }
    }

    /// The registry of the server.
    pub fn databases(&self) -> (databases: &Registry)
        ensures
            *databases == self.registry(),
    {
        &self.databases
    }

    /// Carries out one request.
    ///
    /// `Connect` adds an empty database, unless the name is taken.
    /// `Execute` and the three transaction requests go to the database that
    /// was connected first, and answer with its text, be it of success or of
    /// failure; without a database they fail. A commit that closed the
    /// transaction asks for the database's file to be written. `Backup`
    /// changes nothing and asks for the backup file to be written; `Restore`
    /// puts the database of the backup under the name. `Disconnect` is
    /// acknowledged and changes nothing.
    pub fn process_request(&mut self, command: ServerCommand) -> (answer: Answer)
        requires
            old(self).wf(),
        ensures
            final(self).wf(),
            match command {
                ServerCommand::Connect { db_name, encryption_key } => if old(self)@.contains_key(db_name@) {
                    final(self)@ == old(self)@ && answer@ == failure(ErrorView::AlreadyConnected.text())
                } else {
                    &&& answer@ == success(connect_message())
                    &&& final(self)@ == old(self)@.insert(
                        db_name@,
                        DatabaseView {
                            file_path: database_path(db_name@),
                            tables: Map::empty(),
                            encryption_key: derive_key(encryption_key@),
                            charset: "UTF-8"@,
                            connected: true,
                            snapshot: None,
                        },
                    )
                },
                ServerCommand::Disconnect => final(self)@ == old(self)@ && answer@ == success(disconnected()),
                ServerCommand::Execute { command } => match old(self).registry().first() {
                    Some(name) => {
                        &&& answer@ == success(outcome_text(execute(old(self)@[name], command@).1))
                        &&& final(self)@ == old(self)@.insert(name, execute(old(self)@[name], command@).0)
                    },
                    None => final(self)@ == old(self)@ && answer@ == failure(no_database()),
                },
                ServerCommand::BeginTransaction => match old(self).registry().first() {
                    Some(name) => {
                        &&& answer@ == success(begin(old(self)@[name]).1)
                        &&& final(self)@ == old(self)@.insert(name, begin(old(self)@[name]).0)
                    },
                    None => final(self)@ == old(self)@ && answer@ == failure(no_database()),
                },
                ServerCommand::RollbackTransaction => match old(self).registry().first() {
                    Some(name) => {
                        &&& answer@ == success(rollback(old(self)@[name]).1)
                        &&& final(self)@ == old(self)@.insert(name, rollback(old(self)@[name]).0)
                    },
                    None => final(self)@ == old(self)@ && answer@ == failure(no_database()),
                },
                ServerCommand::CommitTransaction => match old(self).registry().first() {
                    Some(name) => exists|image: Result<Seq<u8>, ErrorView>|
                        {
                            &&& answer@ == (AnswerView {
                                success: true,
                                text: (#[trigger] commit(old(self)@[name], image)).1.message,
                                write: commit(old(self)@[name], image).1.write,
                            })
                            &&& final(self)@ == old(self)@.insert(name, commit(old(self)@[name], image).0)
                            &&& match image {
                                Ok(bytes) => unsealed(old(self)@[name].encryption_key, bytes) == Some(
                                    plain_bytes(old(self).registry().database(name).listing()),
                                ),
                                Err(error) => error == ErrorView::Encryption,
                            }
                        },
                    None => final(self)@ == old(self)@ && answer@ == failure(no_database()),
                },
                ServerCommand::Backup { db_name, timestamp } => {
                    &&& final(self)@ == old(self)@
                    &&& if !old(self)@.contains_key(db_name@) {
                        answer@ == failure(ErrorView::DatabaseNotFound.text())
                    } else {
                        match gzipped(plain_bytes(old(self).registry().database(db_name@).listing())) {
                            Some(stream) => answer@ == (AnswerView {
                                success: true,
                                text: backup_message(backup_path(db_name@, timestamp@)),
                                write: Some((backup_path(db_name@, timestamp@), stream)),
                            }),
                            None => {
                                ||| exists|cause: Seq<char>|
                                    answer@ == failure(#[trigger] ErrorView::BackupWrite(cause).text())
                                ||| exists|cause: Seq<char>|
                                    answer@ == failure(#[trigger] ErrorView::Compression(cause).text())
                            },
                        }
                    }
                },
                ServerCommand::Restore { db_name, contents } => match unpacked(contents@) {
                    Ok(listing) => {
                        &&& answer@ == success(restore_message(db_name@))
                        &&& final(self)@ == old(self)@.insert(db_name@, restored(db_name@, as_map(listing)))
                    },
                    Err(error) => final(self)@ == old(self)@ && answer@ == failure(error.text()),
                },
            },
    {
        let current = self.databases.first_name();
        match command {
            ServerCommand::Connect { db_name, encryption_key } => {
                match self.databases.connect(db_name.as_str(), encryption_key.as_str()) {
                    Ok(text) => Answer { response: ServerResponse::Success(text), write: None },
                    Err(error) => Answer { response: ServerResponse::Error(error.message()), write: None },
                }
            },
            ServerCommand::Disconnect => Answer {
                response: ServerResponse::Success(String::from_str("Desconectado.")),
                write: None,
            },
            ServerCommand::Backup { db_name, timestamp } => {
                match Database::create_backup(db_name.as_str(), &self.databases, timestamp.as_str()) {
                    Ok(backup) => {
                        let text = backup.message();
                        Answer {
                            response: ServerResponse::Success(text),
                            write: Some(FileWrite { path: backup.path, contents: backup.contents }),
                        }
                    },
                    Err(error) => {
                        let answer = Answer { response: ServerResponse::Error(error.message()), write: None };
                        proof {
                            match error@ {
                                ErrorView::BackupWrite(cause) => {
                                    assert(answer@ == failure(ErrorView::BackupWrite(cause).text()));
                                },
                                ErrorView::Compression(cause) => {
                                    assert(answer@ == failure(ErrorView::Compression(cause).text()));
                                },
                                _ => {},
                            }
                        }
                        answer
                    },
                }
            },
            ServerCommand::Restore { db_name, contents } => {
                match Database::restore_backup(db_name.as_str(), contents.as_slice(), &mut self.databases) {
                    Ok(text) => Answer { response: ServerResponse::Success(text), write: None },
                    Err(error) => Answer { response: ServerResponse::Error(error.message()), write: None },
                }
            },
            ServerCommand::Execute { command } => {
                let done = match current {
                    Some(name) => self.databases.execute_command(name.as_str(), command.as_str()),
                    None => None,
                };
                Self::text_answer(done)
            },
            ServerCommand::BeginTransaction => {
                let done = match current {
                    Some(name) => self.databases.begin_transaction(name.as_str()),
                    None => None,
                };
                Self::text_answer(done)
            },
            ServerCommand::RollbackTransaction => {
                let done = match current {
                    Some(name) => self.databases.rollback_transaction(name.as_str()),
                    None => None,
                };
                Self::text_answer(done)
            },
            ServerCommand::CommitTransaction => {
                let done = match current {
                    Some(name) => self.databases.commit_transaction(name.as_str()),
                    None => None,
                };
                match done {
                    Some(done) => Answer { response: ServerResponse::Success(done.message), write: done.write },
                    None => Self::text_answer(None),
                }
            },
        }
    }

    /// The answer that hands on what a database said, or that says that
    /// there is no database.
    fn text_answer(done: Option<String>) -> (answer: Answer)
        ensures
            answer@ == match done {
                Some(text) => success(text@),
                None => failure(no_database()),
            },
    {
        match done {
            Some(text) => Answer { response: ServerResponse::Success(text), write: None },
            None => Answer {
                response: ServerResponse::Error(String::from_str("Nenhum banco de dados conectado.")),
                write: None,
            },
        }
    }
}

} // verus!
