//! The registry: the databases that are connected, each under its name.

use vstd::prelude::*;
use crate::database::{
    begin, commit, database_path, derive_key, execute, outcome_text, rollback, Commit, Database, DatabaseView,
};
use crate::backup::plain_bytes;
use crate::cipher::unsealed;
use crate::error::{EngineError, ErrorView};
use crate::named::{as_map, distinct_names, lemma_append, lemma_entry, lemma_replace, place};

verus! {

/// The databases that are connected, each under its name; no name occurs
/// twice. A database comes in by `connect` or by the restoring of a backup,
/// and leaves only where a restored one takes its name.
pub struct Registry {
    entries: Vec<(String, Database)>,
}

impl View for Registry {
    type V = Map<Seq<char>, DatabaseView>;

    open spec fn view(&self) -> Map<Seq<char>, DatabaseView> {
        as_map(self.roster())
    }
}

/// The text that reports a connection.
pub open spec fn connect_message() -> Seq<char> {
    "Conexão estabelecida."@
}

impl Registry {
    /// The names and databases in the order in which the registry keeps them.
    pub closed spec fn roster(&self) -> Seq<(Seq<char>, DatabaseView)> {
        Seq::new(self.entries.len() as nat, |i: int| (self.entries[i].0@, self.entries[i].1@))
    }

    /// The database under `name`.
    pub closed spec fn database(&self, name: Seq<char>) -> Database {
        self.entries[place(self.roster(), name)].1
    }

    /// The name that came first among those that are there.
    pub closed spec fn first(&self) -> Option<Seq<char>> {
        if self.entries.len() > 0 {
            Some(self.entries[0].0@)
        } else {
            None
        }
    }

    /// No name occurs twice, and every database is well formed.
    pub closed spec fn wf(&self) -> bool {
        &&& distinct_names(self.roster())
        &&& forall|i: int| 0 <= i < self.entries.len() ==> (#[trigger] self.entries[i]).1.wf()
    }

    /// The database under a name is well formed, and is what the mapping
    /// holds under the name.
    pub proof fn lemma_database(&self, name: Seq<char>)
        requires
            self.wf(),
            self@.contains_key(name),
        ensures
            self.database(name).wf(),
            self.database(name)@ == self@[name],
    {
        let p = place(self.roster(), name);
        assert(0 <= p < self.roster().len() && self.roster()[p].0 == name);
        assert(self.entries[p].1.wf());
    }

    /// The first name, if there is one, is the name of a database; there is
    /// none only where there is no database.
    pub proof fn lemma_first(&self)
        requires
            self.wf(),
        ensures
            match self.first() {
                Some(name) => self@.contains_key(name),
                None => self@ == Map::<Seq<char>, DatabaseView>::empty(),
            },
    {
        if self.entries.len() > 0 {
            lemma_entry(self.roster(), 0);
        } else {
            assert(self@ =~= Map::empty());
        }
    }

    /// A registry without databases.
    pub fn new() -> (registry: Registry)
        ensures
            registry.wf(),
            registry@ == Map::<Seq<char>, DatabaseView>::empty(),
            registry.first() is None,
    {
        let registry = Registry { entries: Vec::new() };
        assert(registry@ =~= Map::empty());
        registry
    }

    /// The place of the database under `name`, if there is one.
    fn find(&self, name: &String) -> (found: Option<usize>)
        requires
            self.wf(),
        ensures
            match found {
                Some(i) => i < self.entries.len() && self.entries[i as int].0@ == name@ && place(
                    self.roster(),
                    name@,
                ) == i && self@.contains_key(name@) && self@[name@] == self.entries[i as int].1@,
                None => !self@.contains_key(name@),
            },
    {
        let mut i: usize = 0;
        while i < self.entries.len()
            invariant
                i <= self.entries.len(),
                self.wf(),
                forall|k: int| 0 <= k < i ==> (#[trigger] self.roster()[k]).0 != name@,
            decreases self.entries.len() - i,
        {
            if self.entries[i].0 == *name {
                proof {
                    assert(self.roster()[i as int].0 == name@);
                    lemma_entry(self.roster(), i as int);
                }
                return Some(i);
            }
            i += 1;
        }
        None
    }

    /// Whether a database is connected under `name`.
    pub fn contains(&self, name: &str) -> (yes: bool)
        requires
            self.wf(),
        ensures
            yes == self@.contains_key(name@),
    {
        self.find(&String::from_str(name)).is_some()
    }

    /// The name that came first among those that are there, if any is.
    pub fn first_name(&self) -> (name: Option<String>)
        requires
            self.wf(),
        ensures
            name.deep_view() == self.first(),
            match name {
                Some(name) => self@.contains_key(name@),
                None => self@ == Map::<Seq<char>, DatabaseView>::empty(),
            },
    {
        proof {
            self.lemma_first();
        }
        if self.entries.len() == 0 {
            None
        } else {
            Some(self.entries[0].0.clone())
        }
    }

    /// The database under `name`, if there is one.
    pub fn get(&self, name: &str) -> (found: Option<&Database>)
        requires
            self.wf(),
        ensures
            match found {
                Some(db) => self@.contains_key(name@) && *db == self.database(name@) && db.wf() && db@
                    == self@[name@],
                None => !self@.contains_key(name@),
            },
    {
        match self.find(&String::from_str(name)) {
            Some(i) => Some(&self.entries[i].1),
            None => None,
        }
    }

    /// Puts `db` under `name`, in place of any database that had the name.
    pub fn install(&mut self, name: String, db: Database)
        requires
            old(self).wf(),
            db.wf(),
        ensures
            final(self).wf(),
            final(self)@ == old(self)@.insert(name@, db@),
            final(self).database(name@) == db,
            final(self).first() == (if old(self).first() is Some {
                old(self).first()
            } else {
                Some(name@)
            }),
    {
        let ghost before = self.roster();
        match self.find(&name) {
            Some(i) => {
                proof {
                    lemma_replace(before, i as int, db@);
                }
                self.entries[i].1 = db;
                assert(self.roster() =~= before.update(i as int, (name@, db@)));
                proof {
                    lemma_entry(self.roster(), i as int);
                }
            },
            None => {
                proof {
                    lemma_append(before, name@, db@);
                }
                self.entries.push((name, db));
                assert(self.roster() =~= before.push((name@, db@)));
                proof {
                    lemma_entry(self.roster(), before.len() as int);
                }
            },
        }
    }

    /// Connects a new, empty database under `db_name`, with the key made of
    /// `encryption_key`. Fails, and changes nothing, if a database is
    /// connected under the name.
    pub fn connect(&mut self, db_name: &str, encryption_key: &str) -> (done: Result<String, EngineError>)
        requires
            old(self).wf(),
        ensures
            final(self).wf(),
            match done {
                Ok(text) => {
                    &&& !old(self)@.contains_key(db_name@)
                    &&& text@ == connect_message()
                    &&& final(self)@ == old(self)@.insert(
                        db_name@,
                        DatabaseView {
                            file_path: database_path(db_name@),
                            tables: Map::empty(),
                            encryption_key: derive_key(encryption_key@),
                            charset: "UTF-8"@,
                            connected: true,
                            snapshot: None,
                        },
                    )
                },
                Err(error) => old(self)@.contains_key(db_name@) && error@ == ErrorView::AlreadyConnected
                    && final(self)@ == old(self)@,
            },
            final(self).first() == (if old(self).first() is Some {
                old(self).first()
            } else {
                Some(db_name@)
            }),
    {
        if self.contains(db_name) {
            return Err(EngineError::AlreadyConnected);
        }
        let mut path = String::from_str(db_name);
        path.append(".hxn");
        let db = Database::new(path, encryption_key, "UTF-8");
        self.install(String::from_str(db_name), db);
        Ok(String::from_str("Conexão estabelecida."))
    }

    /// Runs `command` on the database under `db_name`; nothing if there is
    /// no such database.
    pub fn execute_command(&mut self, db_name: &str, command: &str) -> (text: Option<String>)
        requires
            old(self).wf(),
        ensures
            final(self).wf(),
            match text {
                Some(text) => {
                    &&& old(self)@.contains_key(db_name@)
                    &&& text@ == outcome_text(execute(old(self)@[db_name@], command@).1)
                    &&& final(self)@ == old(self)@.insert(db_name@, execute(old(self)@[db_name@], command@).0)
                },
                None => !old(self)@.contains_key(db_name@) && final(self)@ == old(self)@,
            },
            final(self).first() == old(self).first(),
    {
        let i = match self.find(&String::from_str(db_name)) {
            Some(i) => i,
            None => {
                return None;
            },
        };
        let ghost before = self.roster();
        let text = self.entries[i].1.execute_command(command);
        proof {
            lemma_replace(before, i as int, self.entries[i as int].1@);
            assert(self.roster() =~= before.update(i as int, (db_name@, self.entries[i as int].1@)));
        }
        Some(text)
    }

    /// Opens a transaction on the database under `db_name`; nothing if
    /// there is no such database.
    pub fn begin_transaction(&mut self, db_name: &str) -> (text: Option<String>)
        requires
            old(self).wf(),
        ensures
            final(self).wf(),
            match text {
                Some(text) => {
                    &&& old(self)@.contains_key(db_name@)
                    &&& text@ == begin(old(self)@[db_name@]).1
                    &&& final(self)@ == old(self)@.insert(db_name@, begin(old(self)@[db_name@]).0)
                },
                None => !old(self)@.contains_key(db_name@) && final(self)@ == old(self)@,
            },
            final(self).first() == old(self).first(),
    {
        let i = match self.find(&String::from_str(db_name)) {
            Some(i) => i,
            None => {
                return None;
            },
        };
        let ghost before = self.roster();
        let text = self.entries[i].1.begin_transaction();
        proof {
            lemma_replace(before, i as int, self.entries[i as int].1@);
            assert(self.roster() =~= before.update(i as int, (db_name@, self.entries[i as int].1@)));
        }
        Some(text)
    }

    /// Rolls back the transaction of the database under `db_name`; nothing
    /// if there is no such database.
    pub fn rollback_transaction(&mut self, db_name: &str) -> (text: Option<String>)
        requires
            old(self).wf(),
        ensures
            final(self).wf(),
            match text {
                Some(text) => {
                    &&& old(self)@.contains_key(db_name@)
                    &&& text@ == rollback(old(self)@[db_name@]).1
                    &&& final(self)@ == old(self)@.insert(db_name@, rollback(old(self)@[db_name@]).0)
                },
                None => !old(self)@.contains_key(db_name@) && final(self)@ == old(self)@,
            },
            final(self).first() == old(self).first(),
    {
        let i = match self.find(&String::from_str(db_name)) {
            Some(i) => i,
            None => {
                return None;
            },
        };
        let ghost before = self.roster();
        let text = self.entries[i].1.rollback_transaction();
        proof {
            lemma_replace(before, i as int, self.entries[i as int].1@);
            assert(self.roster() =~= before.update(i as int, (db_name@, self.entries[i as int].1@)));
        }
        Some(text)
    }

    /// Commits the transaction of the database under `db_name`; nothing if
    /// there is no such database.
    pub fn commit_transaction(&mut self, db_name: &str) -> (done: Option<Commit>)
        requires
            old(self).wf(),
        ensures
            final(self).wf(),
            match done {
                Some(done) => {
                    &&& old(self)@.contains_key(db_name@)
                    &&& exists|image: Result<Seq<u8>, ErrorView>|
                        {
                            &&& done@ == (#[trigger] commit(old(self)@[db_name@], image)).1
                            &&& final(self)@ == old(self)@.insert(
                                db_name@,
                                commit(old(self)@[db_name@], image).0,
                            )
                            &&& match image {
                                Ok(bytes) => unsealed(old(self)@[db_name@].encryption_key, bytes) == Some(
                                    plain_bytes(old(self).database(db_name@).listing()),
                                ),
                                Err(error) => error == ErrorView::Encryption,
                            }
                        }
                },
                None => !old(self)@.contains_key(db_name@) && final(self)@ == old(self)@,
            },
            final(self).first() == old(self).first(),
    {
        let i = match self.find(&String::from_str(db_name)) {
            Some(i) => i,
            None => {
                return None;
            },
        };
        let ghost before = self.roster();
        let ghost db = self.entries[i as int].1;
        let done = self.entries[i].1.commit_transaction();
        proof {
            lemma_replace(before, i as int, self.entries[i as int].1@);
            assert(self.roster() =~= before.update(i as int, (db_name@, self.entries[i as int].1@)));
            let image = choose|image: Result<Seq<u8>, ErrorView>|
                {
                    &&& (self.entries[i as int].1@, done@) == #[trigger] commit(db@, image)
                    &&& match image {
                        Ok(bytes) => unsealed(db@.encryption_key, bytes) == Some(plain_bytes(db.listing())),
                        Err(error) => error == ErrorView::Encryption,
                    }
                };
            assert((self.entries[i as int].1@, done@) == commit(db@, image));
        }
        Some(done)
    }
}

} // verus!
