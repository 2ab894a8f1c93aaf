//! The users of the server and their passwords, kept as bcrypt hashes.

use vstd::prelude::*;
use crate::named::{as_map, distinct_names, lemma_append, lemma_entry};

verus! {

/// What bcrypt says when `password` is held against `hash`: whether they
/// fit, or nothing where `hash` is no bcrypt hash.
pub uninterp spec fn bcrypt_verified(password: Seq<char>, hash: Seq<char>) -> Option<bool>;

/// Calls `bcrypt::verify`. Believed, not proved: the result is a function
/// of the password and the hash, named [`bcrypt_verified`]. The call takes
/// the longer, the higher the cost that the hash names.
#[verifier::external_body]
fn bcrypt_verify(password: &str, hash: &str) -> (out: Option<bool>)
    ensures
        out == bcrypt_verified(password@, hash@),
{
    match bcrypt::verify(password, hash) {
        Ok(fits) => Some(fits),
        Err(_) => None,
    }
}

/// Calls `bcrypt::hash` at the default cost. The salt is drawn at random, so
/// nothing is claimed of the hash but this, believed and not proved: the
/// password fits it. There is no hash where no salt can be drawn.
#[verifier::external_body]
fn bcrypt_hash(password: &str) -> (out: Option<String>)
    ensures
        out matches Some(hash) ==> bcrypt_verified(password@, hash@) == Some(true),
{
    match bcrypt::hash(password, bcrypt::DEFAULT_COST) {
        Ok(hash) => Some(hash),
        Err(_) => None,
    }
}

/// The hashes by user name.
pub type Hashes = Map<Seq<char>, Seq<char>>;

/// `username` is listed, and `password` fits the hash that is kept for it.
pub open spec fn accepts(users: Hashes, username: Seq<char>, password: Seq<char>) -> bool {
    users.contains_key(username) && bcrypt_verified(password, users[username]) == Some(true)
}

/// The name of the user that a new manager starts with.
pub open spec fn admin_name() -> Seq<char> {
    "admin"@
}

/// The password of the user that a new manager starts with.
pub open spec fn admin_password() -> Seq<char> {
    "admin123"@
}

/// The users after `username` was to be added with `hash`: added where the
/// name was free and there is a hash, unchanged otherwise.
pub open spec fn with_user(users: Hashes, username: Seq<char>, hash: Option<Seq<char>>) -> Hashes {
    match hash {
        Some(hash) => if users.contains_key(username) {
            users
        } else {
            users.insert(username, hash)
        },
        None => users,
    }
}

/// The users of the server, each with the bcrypt hash of a password. No
/// name occurs twice.
pub struct UserManager {
    users: Vec<(String, String)>,
}

impl View for UserManager {
    type V = Hashes;

    closed spec fn view(&self) -> Hashes {
        as_map(self.users.deep_view())
    }
}

impl UserManager {
    /// No name occurs twice.
    pub closed spec fn wf(&self) -> bool {
        distinct_names(self.users.deep_view())
    }

    /// The manager that has the one user `admin`, given the hash of its
    /// password; without a hash, the manager without users.
    pub fn with_admin(hash: Option<String>) -> (manager: UserManager)
        ensures
            manager.wf(),
            manager@ == with_user(Map::empty(), admin_name(), hash.deep_view()),
    {
        let mut manager = UserManager { users: Vec::new() };
        assert(manager.users.deep_view() =~= Seq::empty());
        assert(manager@ =~= Map::empty());
        manager.add_hashed(String::from_str("admin"), hash);
        manager
    }

    /// The manager that a server starts with: the user `admin` with the
    /// password `admin123`, or no user where the password cannot be hashed.
    pub fn new() -> (manager: UserManager)
        ensures
            manager.wf(),
            manager@ == Map::<Seq<char>, Seq<char>>::empty() || (manager@.dom() == set![admin_name()] && accepts(
                manager@,
                admin_name(),
                admin_password(),
            )),
    {
        let hash = bcrypt_hash("admin123");
        let ghost hashed = hash is Some;
        let manager = Self::with_admin(hash);
        proof {
            if hashed {
                assert(manager@.dom() =~= set![admin_name()]);
            }
        }
        manager
    }

    /// The place of `username`, if it is listed.
    fn find(&self, username: &str) -> (found: Option<usize>)
        requires
            self.wf(),
        ensures
            match found {
                Some(i) => i < self.users.len() && self.users[i as int].0@ == username@ && self@.contains_key(
                    username@,
                ) && self@[username@] == self.users[i as int].1@,
                None => !self@.contains_key(username@),
            },
    {
        let name = String::from_str(username);
        let mut i: usize = 0;
        while i < self.users.len()
            invariant
                i <= self.users.len(),
                self.wf(),
                name@ == username@,
                forall|k: int| 0 <= k < i ==> (#[trigger] self.users.deep_view()[k]).0 != username@,
            decreases self.users.len() - i,
        {
            if self.users[i].0 == name {
                proof {
                    assert(self.users.deep_view()[i as int].0 == username@);
                    lemma_entry(self.users.deep_view(), i as int);
                }
                return Some(i);
            }
            i += 1;
        }
        None
    }

    /// Whether `username` is listed and `password` fits its hash.
    pub fn authenticate(&self, username: &str, password: &str) -> (ok: bool)
        requires
            self.wf(),
        ensures
            ok == accepts(self@, username@, password@),
    {
        match self.find(username) {
            Some(i) => match bcrypt_verify(password, self.users[i].1.as_str()) {
                Some(fits) => fits,
                None => false,
            },
            None => false,
        }
    }

    /// Adds `username` with `hash`, the hash of its password, unless the name
    /// is taken or there is no hash; says whether it did.
    pub fn add_hashed(&mut self, username: String, hash: Option<String>) -> (added: bool)
        requires
            old(self).wf(),
        ensures
            final(self).wf(),
            final(self)@ == with_user(old(self)@, username@, hash.deep_view()),
            added == (hash is Some && !old(self)@.contains_key(username@)),
    {
        let hash = match hash {
            Some(hash) => hash,
            None => {
                return false;
            },
        };
        if self.find(username.as_str()).is_some() {
            return false;
        }
        let ghost before = self.users.deep_view();
        proof {
            lemma_append(before, username@, hash@);
        }
        self.users.push((username, hash));
        assert(self.users.deep_view() =~= before.push((username@, hash@)));
        true
    }

    /// Adds `username` with the hash of `password`, unless the name is taken;
    /// says whether it did. A user that was added is accepted with the
    /// password. Nothing is added where the password cannot be hashed.
    pub fn add_user(&mut self, username: String, password: String) -> (added: bool)
        requires
            old(self).wf(),
        ensures
            final(self).wf(),
            old(self)@.contains_key(username@) ==> !added,
            !added ==> final(self)@ == old(self)@,
            added ==> !old(self)@.contains_key(username@) && accepts(final(self)@, username@, password@)
                && final(self)@ == old(self)@.insert(username@, final(self)@[username@]),
    {
        if self.find(username.as_str()).is_some() {
            return false;
        }
        let hash = bcrypt_hash(password.as_str());
        self.add_hashed(username, hash)
    }
}

} // verus!
