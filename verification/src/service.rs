//! Orchestration of registration and sign-in over a user store, a password
//! hasher and a token issuer.
//!
//! Sign-in deliberately reports an unknown username and a wrong password
//! with one and the same error, so callers cannot enumerate usernames; a
//! store fault is always reported apart from a credential failure.
use vstd::prelude::*;

use crate::password::argon2_matches;
use crate::password::hash_password;
use crate::password::phc_malformed;
use crate::password::verify_password;
use crate::store::CreateError;
use crate::store::NewUser;
use crate::store::UserStore;
use crate::token::jwt_token;
use crate::token::TokenIssuer;
use vstd::utf8::encode_utf8;

verus! {

/// Why a registration failed.
#[derive(Clone, Copy, PartialEq, Eq, Structural, Debug)]
pub enum RegisterError {
    /// The username is already taken.
    DuplicateUser,
    /// The password hash could not be derived; a server fault.
    HashingFailure,
    /// The store faulted; distinct from every credential condition.
    StoreFailure,
    /// The username is empty.
    InvalidInput,
}

/// Why a sign-in failed. A missing user and a wrong password are one and
/// the same variant, by design. Signing itself cannot fail here: the
/// default lifetime always fits the timestamp arithmetic, which the token
/// issuer's contract guarantees.
#[derive(Clone, Copy, PartialEq, Eq, Structural, Debug)]
pub enum SignInError {
    InvalidCredentials,
    StoreFailure,
}

/// When a registration may succeed: the username is non-empty and free.
pub open spec fn register_allowed(creds: Map<Seq<char>, Seq<char>>, username: Seq<char>) -> bool {
    username.len() > 0 && !creds.contains_key(username)
}

/// When a sign-in must be accepted: the username is known, its stored hash
/// is usable, and the password matches it.
pub open spec fn sign_in_accepts(
    creds: Map<Seq<char>, Seq<char>>,
    username: Seq<char>,
    password: Seq<u8>,
) -> bool {
    creds.contains_key(username) && !phc_malformed(creds[username]) && argon2_matches(
        password,
        creds[username],
    )
}

/// The default token lifetime handed out at sign-in, in minutes.
pub const DEFAULT_TTL_MINUTES: i64 = 60;

/// Orchestrates sign-up and sign-in; owns no credential state beyond the
/// store it was built over and the issuer's signing secret.
pub struct AuthService<S> {
    store: S,
    issuer: TokenIssuer,
}

impl<S: UserStore> AuthService<S> {
    /// The credentials the underlying store holds.
    pub closed spec fn creds(&self) -> Map<Seq<char>, Seq<char>> {
        self.store.store_view()
    }

    /// The signing secret tokens are minted under.
    pub closed spec fn secret_view(&self) -> Seq<u8> {
        self.issuer.secret_view()
    }

    pub fn new(store: S, secret: Vec<u8>) -> (r: AuthService<S>)
        ensures
            r.creds() == store.store_view(),
            r.secret_view() == secret@,
    {
        AuthService { store, issuer: TokenIssuer::new(secret) }
    }

    /// Hashes the password and asks the store to create the user row.
    /// Registration issues no token; a first sign-in is a separate step.
    pub fn register(&mut self, username: &str, password: &str) -> (r: Result<(), RegisterError>)
        ensures
            (r matches Err(RegisterError::InvalidInput)) <==> username@.len() == 0,
            r matches Err(RegisterError::InvalidInput) ==> final(self).creds() == old(
                self,
            ).creds(),
            r matches Ok(()) ==> register_allowed(old(self).creds(), username@) && exists|
                h: Seq<char>,
            |
                {
                    &&& #[trigger] argon2_matches(encode_utf8(password@), h)
                    &&& !phc_malformed(h)
                    &&& final(self).creds() == old(self).creds().insert(username@, h)
                },
            r matches Err(RegisterError::DuplicateUser) ==> old(self).creds().contains_key(
                username@,
            ) && final(self).creds() == old(self).creds(),
            r matches Err(RegisterError::HashingFailure) ==> final(self).creds() == old(
                self,
            ).creds() && encode_utf8(password@).len() > crate::password::max_password_len(),
            username@.len() > 0 && old(self).creds().contains_key(username@) && encode_utf8(
                password@,
            ).len() <= crate::password::max_password_len() ==> (r matches Err(
                RegisterError::DuplicateUser,
            ) || r matches Err(RegisterError::StoreFailure)),
            final(self).secret_view() == old(self).secret_view(),
    {
        if username.is_empty() {
            return Err(RegisterError::InvalidInput);
        }
        let hash = match hash_password(password) {
            Ok(h) => h,
            Err(_) => {
                return Err(RegisterError::HashingFailure);
            },
        };
        let now = crate::token::now_unix();
        let row = NewUser {
            username,
            password_hash: hash.as_str(),
            created_at: Some(now),
            updated_at: Some(now),
        };
        match self.store.create_new_user(row) {
            Ok(()) => {
                proof {
                    assert(argon2_matches(encode_utf8(password@), hash@) && !phc_malformed(hash@)
                        && final(self).creds() == old(self).creds().insert(username@, hash@));
                }
                Ok(())
            },
            Err(CreateError::DuplicateUsername) => Err(RegisterError::DuplicateUser),
            Err(CreateError::Unavailable) => Err(RegisterError::StoreFailure),
        }
    }

    /// Looks the user up, verifies the password against the stored hash and,
    /// on a match, issues a token with the default lifetime. An unknown
    /// username and a wrong password are indistinguishable in the result.
    pub fn sign_in(&self, username: &str, password: &str) -> (r: Result<String, SignInError>)
        ensures
            r matches Ok(t) ==> sign_in_accepts(self.creds(), username@, encode_utf8(password@))
                && exists|iat: int|
                t@ == #[trigger] jwt_token(
                    self.secret_view(),
                    username@,
                    iat,
                    iat + DEFAULT_TTL_MINUTES * 60,
                ),
            r matches Err(SignInError::InvalidCredentials) ==> !sign_in_accepts(
                self.creds(),
                username@,
                encode_utf8(password@),
            ),
    {
        let user = match self.store.get_user_by_name(username) {
            Ok(Some(u)) => u,
            Ok(None) => {
                return Err(SignInError::InvalidCredentials);
            },
            Err(_) => {
                return Err(SignInError::StoreFailure);
            },
        };
        match verify_password(password, user.password_hash.as_str()) {
            Ok(true) => {},
            Ok(false) => {
                return Err(SignInError::InvalidCredentials);
            },
            Err(_) => {
                return Err(SignInError::InvalidCredentials);
            },
        }
        proof {
            assert(sign_in_accepts(self.creds(), username@, encode_utf8(password@)));
        }
        match self.issuer.issue(username, DEFAULT_TTL_MINUTES) {
            Ok(t) => {
                proof {
                    let iat = choose|iat: int|
                        t@ == #[trigger] jwt_token(
                            self.issuer.secret_view(),
                            username@,
                            iat,
                            iat + DEFAULT_TTL_MINUTES * 60,
                        );
                    assert(t@ == jwt_token(
                        self.secret_view(),
                        username@,
                        iat,
                        iat + DEFAULT_TTL_MINUTES * 60,
                    ));
                }
                Ok(t)
            },
            // The default lifetime always fits the timestamp arithmetic,
            // so the issuer's contract rules this arm out.
            Err(_) => unreached(),
        }
    }
}

/// Law: a token issued with the default sixty-minute lifetime expires
/// exactly 3600 seconds after its issue instant.
pub proof fn lemma_default_ttl_window(iat: int)
    ensures
        (iat + DEFAULT_TTL_MINUTES * 60) - iat == 3600,
{
}

/// Law (enumeration resistance): a sign-in for an unknown username and a
/// sign-in with a wrong password for a known username are rejected alike:
/// neither is accepted, whatever the two passwords were.
pub proof fn lemma_enumeration_resistance(
    creds: Map<Seq<char>, Seq<char>>,
    unknown_user: Seq<char>,
    p1: Seq<u8>,
    known_user: Seq<char>,
    p2: Seq<u8>,
)
    requires
        !creds.contains_key(unknown_user),
        creds.contains_key(known_user),
        !argon2_matches(p2, creds[known_user]),
    ensures
        !sign_in_accepts(creds, unknown_user, p1),
        !sign_in_accepts(creds, known_user, p2),
{
}

/// Law: once a registration for a username has gone through, no further
/// registration for that username can be allowed, whatever hash the first
/// one stored.
pub proof fn lemma_no_second_registration(
    creds: Map<Seq<char>, Seq<char>>,
    username: Seq<char>,
    h: Seq<char>,
)
    ensures
        !register_allowed(creds.insert(username, h), username),
{
}

} // verus!
