//! The user-store interface the authentication service depends on, and a
//! verified in-memory store that implements it.
//!
//! A store keeps one row per username; the service reads it as a map from
//! username to stored password hash. The production store lives outside this
//! crate and only has to honour the same interface.
use vstd::prelude::*;

use vstd::string::StringExecFns;

verus! {

/// A user row as the store hands it back. Timestamps are unix seconds.
pub struct User {
    pub id: i32,
    pub username: String,
    pub password_hash: String,
    pub created_at: Option<i64>,
    pub updated_at: Option<i64>,
}

/// A row to be inserted: everything but the store-assigned id.
pub struct NewUser<'a> {
    pub username: &'a str,
    pub password_hash: &'a str,
    pub created_at: Option<i64>,
    pub updated_at: Option<i64>,
}

/// A transport or storage fault. "Not found" is never an error.
#[derive(Clone, Copy, PartialEq, Eq, Structural, Debug)]
pub enum StoreError {
    Unavailable,
}

/// Why an insertion failed: the username is already taken, or the store
/// itself faulted.
#[derive(Clone, Copy, PartialEq, Eq, Structural, Debug)]
pub enum CreateError {
    DuplicateUsername,
    Unavailable,
}

/// The credentials a user store holds, read as a map from username to the
/// stored password hash. A store implemented outside the verifier's reach
/// may leave the view at its default; nothing is proved about such a store.
pub trait UserStore {
    open spec fn store_view(&self) -> Map<Seq<char>, Seq<char>> {
        Map::empty()
    }

    /// Looks a user up by name. An absent user is a normal `None`; `Err` is
    /// a transport or storage fault only.
    fn get_user_by_name(&self, username: &str) -> (r: Result<Option<User>, StoreError>)
        ensures
            r matches Ok(Some(u)) ==> self.store_view().contains_key(username@)
                && u.username@ == username@ && u.password_hash@ == self.store_view()[username@],
            r matches Ok(None) ==> !self.store_view().contains_key(username@),
    ;

    /// Inserts a row keyed by its username. Success means the username was
    /// free and now maps to the given hash; a duplicate leaves the store
    /// unchanged and is reported apart from a fault.
    fn create_new_user(&mut self, row: NewUser<'_>) -> (r: Result<(), CreateError>)
        ensures
            r matches Ok(()) ==> !old(self).store_view().contains_key(row.username@)
                && final(self).store_view() == old(self).store_view().insert(
                row.username@,
                row.password_hash@,
            ),
            r matches Err(CreateError::DuplicateUsername) ==> old(self).store_view().contains_key(
                row.username@,
            ) && final(self).store_view() == old(self).store_view(),
    ;

    /// Every row the store holds: each listed row is a user the view knows
    /// under its stored hash, and every user the view knows is listed.
    fn get_all_users(&self) -> (r: Result<Vec<User>, StoreError>)
        ensures
            r matches Ok(users) ==> forall|i: int|
                0 <= i < users.len() ==> self.store_view().contains_key(
                    #[trigger] users[i].username@,
                ) && users[i].password_hash@ == self.store_view()[users[i].username@],
            r matches Ok(users) ==> forall|k: Seq<char>|
                #[trigger] self.store_view().contains_key(k) ==> exists|i: int|
                    0 <= i < users.len() && (#[trigger] users[i].username@) == k,
    ;
}

/// The map a sequence of rows denotes: later rows would shadow earlier ones,
/// so the store keeps usernames distinct.
pub open spec fn rows_view(users: Seq<User>) -> Map<Seq<char>, Seq<char>>
    decreases users.len(),
{
    if users.len() == 0 {
        Map::empty()
    } else {
        rows_view(users.drop_last()).insert(
            users.last().username@,
            users.last().password_hash@,
        )
    }
}

/// An in-memory user store: one row per username, ids handed out in order
/// of insertion.
pub struct MemoryStore {
    users: Vec<User>,
    next_id: i32,
}

impl MemoryStore {
    /// No two rows share a username.
    #[verifier::type_invariant]
    spec fn wf(&self) -> bool {
        forall|i: int, j: int|
            0 <= i < j < self.users@.len() ==> (#[trigger] self.users@[i].username@)
                != #[trigger] self.users@[j].username@
    }

    pub fn new() -> (r: MemoryStore)
        ensures
            r.store_view() == Map::<Seq<char>, Seq<char>>::empty(),
    {
        MemoryStore { users: Vec::new(), next_id: 1 }
    }
}

/// A key none of the rows carries is absent from the denoted map.
proof fn lemma_rows_view_absent(users: Seq<User>, key: Seq<char>)
    requires
        forall|i: int| 0 <= i < users.len() ==> (#[trigger] users[i].username@) != key,
    ensures
        !rows_view(users).contains_key(key),
    decreases users.len(),
{
    if users.len() > 0 {
        lemma_rows_view_absent(users.drop_last(), key);
    }
}

/// Under distinct usernames, each row is in the denoted map under its own
/// username, with its own hash.
proof fn lemma_rows_view_index(users: Seq<User>, i: int)
    requires
        0 <= i < users.len(),
        forall|k: int, j: int|
            0 <= k < j < users.len() ==> (#[trigger] users[k].username@)
                != #[trigger] users[j].username@,
    ensures
        rows_view(users).contains_key(users[i].username@),
        rows_view(users)[users[i].username@] == users[i].password_hash@,
    decreases users.len(),
{
    if i < users.len() - 1 {
        lemma_rows_view_index(users.drop_last(), i);
        assert(users.drop_last()[i] == users[i]);
        assert(users[i].username@ != users.last().username@);
    }
}

/// Every key the denoted map knows comes from some row.
proof fn lemma_rows_view_complete(users: Seq<User>, key: Seq<char>)
    requires
        rows_view(users).contains_key(key),
    ensures
        exists|i: int| 0 <= i < users.len() && (#[trigger] users[i].username@) == key,
    decreases users.len(),
{
    if users.len() > 0 {
        if users.last().username@ == key {
            assert(users[users.len() - 1].username@ == key);
        } else {
            lemma_rows_view_complete(users.drop_last(), key);
            let i = choose|i: int|
                0 <= i < users.drop_last().len() && (#[trigger] users.drop_last()[i].username@)
                    == key;
            assert(users[i].username@ == key);
        }
    }
}

impl UserStore for MemoryStore {
    closed spec fn store_view(&self) -> Map<Seq<char>, Seq<char>> {
        rows_view(self.users@)
    }

    fn get_user_by_name(&self, username: &str) -> (r: Result<Option<User>, StoreError>)
        ensures
            r is Ok,
    {
        proof {
            use_type_invariant(self);
        }
        let key = String::from_str(username);
        let n = self.users.len();
        let mut i: usize = 0;
        while i < n
            invariant
                n == self.users@.len(),
                i <= n,
                self.wf(),
                key@ == username@,
                forall|j: int| 0 <= j < i ==> (#[trigger] self.users@[j].username@) != username@,
            decreases n - i,
        {
            if self.users[i].username == key {
                let u = &self.users[i];
                proof {
                    lemma_rows_view_index(self.users@, i as int);
                }
                return Ok(
                    Some(
                        User {
                            id: u.id,
                            username: u.username.clone(),
                            password_hash: u.password_hash.clone(),
                            created_at: u.created_at,
                            updated_at: u.updated_at,
                        },
                    ),
                );
            }
            i = i + 1;
        }
        proof {
            lemma_rows_view_absent(self.users@, username@);
        }
        Ok(None)
    }

    fn create_new_user(&mut self, row: NewUser<'_>) -> (r: Result<(), CreateError>)
        ensures
            !(r matches Err(CreateError::Unavailable)),
    {
        proof {
            use_type_invariant(&*self);
        }
        let key = String::from_str(row.username);
        let n = self.users.len();
        let mut i: usize = 0;
        while i < n
            invariant
                n == self.users@.len(),
                i <= n,
                *self == *old(self),
                self.wf(),
                key@ == row.username@,
                forall|j: int| 0 <= j < i ==> (#[trigger] self.users@[j].username@) != row.username@,
            decreases n - i,
        {
            if self.users[i].username == key {
                proof {
                    lemma_rows_view_index(self.users@, i as int);
                }
                return Err(CreateError::DuplicateUsername);
            }
            i = i + 1;
        }
        proof {
            lemma_rows_view_absent(self.users@, row.username@);
        }
        let user = User {
            id: self.next_id,
            username: String::from_str(row.username),
            password_hash: String::from_str(row.password_hash),
            created_at: row.created_at,
            updated_at: row.updated_at,
        };
        if self.next_id < i32::MAX {
            self.next_id = self.next_id + 1;
        }
        let ghost pre = self.users@;
        let mut rows: Vec<User> = Vec::new();
        core::mem::swap(&mut rows, &mut self.users);
        rows.push(user);
        core::mem::swap(&mut rows, &mut self.users);
        proof {
            assert(self.users@.drop_last() =~= pre);
        }
        Ok(())
    }

    fn get_all_users(&self) -> (r: Result<Vec<User>, StoreError>)
        ensures
            r is Ok,
    {
        proof {
            use_type_invariant(self);
        }
        let n = self.users.len();
        let mut out: Vec<User> = Vec::new();
        let mut i: usize = 0;
        while i < n
            invariant
                n == self.users@.len(),
                i <= n,
                out@.len() == i,
                forall|j: int| 0 <= j < i ==> #[trigger] out@[j] == self.users@[j],
            decreases n - i,
        {
            let u = &self.users[i];
            out.push(
                User {
                    id: u.id,
                    username: u.username.clone(),
                    password_hash: u.password_hash.clone(),
                    created_at: u.created_at,
                    updated_at: u.updated_at,
                },
            );
            i = i + 1;
        }
        proof {
            assert forall|j: int|
                0 <= j < out@.len() implies self.store_view().contains_key(
                #[trigger] out@[j].username@,
            ) && out@[j].password_hash@ == self.store_view()[out@[j].username@] by {
                lemma_rows_view_index(self.users@, j);
            }
            assert forall|k: Seq<char>| #[trigger] self.store_view().contains_key(k) implies exists|
                j: int,
            | 0 <= j < out@.len() && (#[trigger] out@[j].username@) == k by {
                lemma_rows_view_complete(self.users@, k);
                let j = choose|j: int|
                    0 <= j < self.users@.len() && (#[trigger] self.users@[j].username@) == k;
                assert(out@[j].username@ == k);
            }
        }
        Ok(out)
    }
}

} // verus!
