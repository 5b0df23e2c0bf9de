//! A small user store exercising presence and error handling: ids are
//! unique, emails are optional, and every lookup says exactly when it
//! succeeds.

use vstd::prelude::*;

verus! {

/// Relies on std's `PartialEq` for `str`: string slices compare equal
/// exactly when their contents do.
pub assume_specification[ <str as PartialEq<str>>::eq ](a: &str, b: &str) -> (r: bool)
    ensures
        r == (a@ == b@),
;

/// Compares two string slices by contents.
fn str_equal(a: &str, b: &str) -> (r: bool)
    ensures
        r == (a@ == b@),
{
    <str as PartialEq<str>>::eq(a, b)
}

/// A stored user.  The email is optional.
#[derive(Debug, Clone)]
pub struct User {
    pub id: u64,
    pub username: String,
    pub email: Option<String>,
}

/// Why a store operation failed.
#[derive(Debug)]
pub enum DatabaseError {
    /// No user has the requested id.
    NotFound,
    /// A user with this id is already stored.
    DuplicateId,
    /// The record itself is unacceptable, with the reason.
    InvalidData(String),
}

/// No two users share an id.
pub open spec fn ids_unique(s: Seq<User>) -> bool {
    forall|i: int, j: int| 0 <= i < j < s.len() ==> (#[trigger] s[i]).id != (#[trigger] s[j]).id
}

/// Some stored user has this id.
pub open spec fn contains_id(s: Seq<User>, id: u64) -> bool {
    exists|k: int| 0 <= k < s.len() && (#[trigger] s[k]).id == id
}

/// Some stored user has this username.
pub open spec fn contains_name(s: Seq<User>, name: Seq<char>) -> bool {
    exists|k: int| 0 <= k < s.len() && (#[trigger] s[k]).username@ == name
}

/// The first stored user with this id, if any; with unique ids, the
/// only one.
pub open spec fn find_user(s: Seq<User>, id: u64) -> Option<User>
    decreases s.len(),
{
    if s.len() == 0 {
        None
    } else if s.first().id == id {
        Some(s.first())
    } else {
        find_user(s.drop_first(), id)
    }
}

proof fn lemma_find_none(s: Seq<User>, id: u64)
    requires
        forall|k: int| 0 <= k < s.len() ==> (#[trigger] s[k]).id != id,
    ensures
        find_user(s, id) is None,
    decreases s.len(),
{
    if s.len() > 0 {
        assert forall|k: int| 0 <= k < s.drop_first().len() implies (#[trigger] s.drop_first()[k]).id
            != id by {
            assert(s.drop_first()[k] == s[k + 1]);
        }
        lemma_find_none(s.drop_first(), id);
    }
}

proof fn lemma_find_at(s: Seq<User>, id: u64, j: int)
    requires
        0 <= j < s.len(),
        s[j].id == id,
        forall|k: int| 0 <= k < j ==> (#[trigger] s[k]).id != id,
    ensures
        find_user(s, id) == Some(s[j]),
    decreases j,
{
    if j > 0 {
        assert forall|k: int| 0 <= k < j - 1 implies (#[trigger] s.drop_first()[k]).id != id by {
            assert(s.drop_first()[k] == s[k + 1]);
        }
        lemma_find_at(s.drop_first(), id, j - 1);
    }
}

/// The store: users in insertion order, ids unique.
pub struct UserDatabase {
    users: Vec<User>,
}

impl UserDatabase {
    /// The stored users, in insertion order.
    pub closed spec fn spec_users(self) -> Seq<User> {
        self.users@
    }

    /// The store's invariant: no two users share an id.
    pub open spec fn wf(self) -> bool {
        ids_unique(self.spec_users())
    }

    /// An empty store.
    pub fn new() -> (db: UserDatabase)
        ensures
            db.wf(),
            db.spec_users() == Seq::<User>::empty(),
    {
        UserDatabase { users: Vec::new() }
    }

    /// Stores a user.  Refused — leaving the store unchanged — when the
    /// username is empty or the id is already taken; each refusal names
    /// its reason.
    pub fn add_user(&mut self, user: User) -> (r: Result<(), DatabaseError>)
        requires
            old(self).wf(),
        ensures
            final(self).wf(),
            user.username@.len() == 0 ==> (r matches Err(DatabaseError::InvalidData(m)) && m@
                == "Username cannot be empty"@ && final(self).spec_users() == old(
                self,
            ).spec_users()),
            user.username@.len() > 0 && contains_id(old(self).spec_users(), user.id) ==> (r
                matches Err(DatabaseError::DuplicateId) && final(self).spec_users() == old(
                self,
            ).spec_users()),
            user.username@.len() > 0 && !contains_id(old(self).spec_users(), user.id) ==> (r is Ok
                && final(self).spec_users() == old(self).spec_users().push(user)),
    {
        if user.username.as_str().is_empty() {
            return Err(DatabaseError::InvalidData("Username cannot be empty".to_owned()));
        }
        let n = self.users.len();
        let mut k: usize = 0;
        while k < n
            invariant
                k <= n,
                n == self.spec_users().len(),
                self.wf(),
                self.spec_users() == old(self).spec_users(),
                user.username@.len() > 0,
                forall|j: int| 0 <= j < k ==> (#[trigger] self.spec_users()[j]).id != user.id,
            decreases n - k,
        {
            if self.users[k].id == user.id {
                return Err(DatabaseError::DuplicateId);
            }
            k = k + 1;
        }
        self.users.push(user);
        proof {
            assert(self.spec_users().drop_last() =~= old(self).spec_users());
        }
        Ok(())
    }

    /// The user with this id, if one is stored.
    pub fn get_user(&self, id: u64) -> (r: Option<&User>)
        ensures
            (r is Some) == contains_id(self.spec_users(), id),
            r matches Some(u) ==> find_user(self.spec_users(), id) == Some(*u) && u.id == id,
    {
        let n = self.users.len();
        let mut k: usize = 0;
        while k < n
            invariant
                k <= n,
                n == self.spec_users().len(),
                forall|j: int| 0 <= j < k ==> (#[trigger] self.spec_users()[j]).id != id,
            decreases n - k,
        {
            if self.users[k].id == id {
                proof {
                    lemma_find_at(self.spec_users(), id, k as int);
                }
                return Some(&self.users[k]);
            }
            k = k + 1;
        }
        proof {
            lemma_find_none(self.spec_users(), id);
        }
        None
    }

    /// Like [`UserDatabase::get_user`], but a missing user is an error.
    pub fn get_user_or_error(&self, id: u64) -> (r: Result<&User, DatabaseError>)
        ensures
            contains_id(self.spec_users(), id) ==> (r matches Ok(u) && find_user(
                self.spec_users(),
                id,
            ) == Some(*u) && u.id == id),
            !contains_id(self.spec_users(), id) ==> r matches Err(DatabaseError::NotFound),
    {
        match self.get_user(id) {
            Some(u) => Ok(u),
            None => Err(DatabaseError::NotFound),
        }
    }

    /// Some stored user with this username, if any has it.
    pub fn find_by_username(&self, username: &str) -> (r: Option<&User>)
        ensures
            (r is Some) == contains_name(self.spec_users(), username@),
            r matches Some(u) ==> u.username@ == username@ && contains_name(
                self.spec_users(),
                username@,
            ),
    {
        let n = self.users.len();
        let mut k: usize = 0;
        while k < n
            invariant
                k <= n,
                n == self.spec_users().len(),
                forall|j: int|
                    0 <= j < k ==> (#[trigger] self.spec_users()[j]).username@ != username@,
            decreases n - k,
        {
            if str_equal(self.users[k].username.as_str(), username) {
                return Some(&self.users[k]);
            }
            k = k + 1;
        }
        None
    }

    /// The email of the user with this id: present exactly when the user
    /// is stored and has one.
    pub fn get_user_email(&self, id: u64) -> (r: Option<&str>)
        ensures
            r matches Some(e) ==> (find_user(self.spec_users(), id) matches Some(u)
                && u.email matches Some(x) && x@ == e@),
            contains_id(self.spec_users(), id) && (find_user(self.spec_users(), id)->Some_0.email
                is Some) ==> r is Some,
            !contains_id(self.spec_users(), id) ==> r is None,
    {
        match self.get_user(id) {
            Some(u) => match &u.email {
                Some(e) => Some(e.as_str()),
                None => None,
            },
            None => None,
        }
    }
}

/// Fetches a user's email as an owned string: the user must be stored
/// and must have an email, and each failure names which part was
/// missing.
pub fn fetch_user_email(db: &UserDatabase, user_id: u64) -> (r: Result<String, DatabaseError>)
    ensures
        !contains_id(db.spec_users(), user_id) ==> r matches Err(DatabaseError::NotFound),
        contains_id(db.spec_users(), user_id) && (find_user(db.spec_users(), user_id)->Some_0.email
            matches Some(e)) ==> (r matches Ok(x) && x@ == find_user(
            db.spec_users(),
            user_id,
        )->Some_0.email->Some_0@),
        contains_id(db.spec_users(), user_id) && (find_user(db.spec_users(), user_id)->Some_0.email
            is None) ==> (r matches Err(DatabaseError::InvalidData(m)) && m@ == "No email set"@),
{
    let user = match db.get_user_or_error(user_id) {
        Ok(u) => u,
        Err(e) => {
            return Err(e);
        },
    };
    match &user.email {
        Some(e) => Ok(e.clone()),
        None => Err(DatabaseError::InvalidData("No email set".to_owned())),
    }
}

} // verus!
