use model_runner::auth::Auth;
use model_runner::client::ClientStore;
use model_runner::error::AuthError;
use model_runner::permission::{
    Permission, CREATE_SELF, DELETE_SELF, STATUS_SELF, UPDATE_SELF, USE_SELF,
};

fn perm(bits: u64) -> Permission {
    Permission::from_bits(bits).unwrap()
}

#[test]
fn create_then_load_and_verify_round_trip() {
    let auth = Auth::default();
    let mut store = ClientStore::new();
    let created = store
        .create(&auth, "root", perm(USE_SELF | STATUS_SELF), None, 1_700_000_000_000)
        .unwrap();

    // the issued token is the only way the raw secret ever leaves
    let token = created.token.token_string();
    assert!(created.token.key_raw.is_some());

    let loaded = store.load_and_verify(&auth, &token).unwrap();
    assert_eq!(loaded.token.id, created.token.id);
    assert_eq!(loaded.name.as_deref(), Some("root"));
    assert_eq!(loaded.permissions.bits(), USE_SELF | STATUS_SELF);
    assert_eq!(loaded.created_at, 1_700_000_000_000);
    assert_eq!(loaded.updated_at, 1_700_000_000_000);
    assert!(loaded.created_by.is_none());
    // the stored record never carries the raw secret
    assert!(loaded.token.key_raw.is_none());
    assert!(loaded.token.key_hash.is_some());
}

#[test]
fn verify_accepts_only_the_issued_secret() {
    let auth = Auth::default();
    let mut store = ClientStore::new();
    let created = store.create(&auth, "only", perm(USE_SELF), None, 5).unwrap();
    let raw = created.token.key_raw.clone().unwrap();
    let hash = {
        let loaded = store.load_by_id(&created.token.id).unwrap();
        loaded.token.key_hash.unwrap()
    };

    assert!(auth.verify_secret(&raw, &hash));
    for wrong in ["", "x", "almost-the-secret", &raw[..raw.len() - 1], "AAAA"] {
        if wrong != raw {
            assert!(!auth.verify_secret(wrong, &hash));
        }
    }

    // a wrong secret through the whole chain is one undifferentiated failure
    let bad = format!("{}_notthesecret", created.token.id);
    assert_eq!(
        store.load_and_verify(&auth, &bad).err(),
        Some(AuthError::AuthenticationFailed)
    );
}

#[test]
fn unknown_id_is_the_same_failure_as_wrong_secret() {
    let auth = Auth::default();
    let store = ClientStore::new();
    assert_eq!(
        store.load_and_verify(&auth, "ghost_secret").err(),
        Some(AuthError::AuthenticationFailed)
    );
}

#[test]
fn delete_twice_is_idempotent() {
    let auth = Auth::default();
    let mut store = ClientStore::new();
    let created = store.create(&auth, "gone", perm(DELETE_SELF), None, 7).unwrap();
    let id = created.token.id.clone();

    store.delete(&id);
    assert_eq!(store.load_by_id(&id).err(), Some(AuthError::NotFound));
    // the second delete neither errors nor resurrects anything
    store.delete(&id);
    assert_eq!(store.load_by_id(&id).err(), Some(AuthError::NotFound));
    assert!(!store.contains_id(&id));
}

#[test]
fn update_fully_replaces_name_and_permissions() {
    let auth = Auth::default();
    let mut store = ClientStore::new();
    let created = store
        .create(&auth, "before", perm(USE_SELF | DELETE_SELF), None, 100)
        .unwrap();
    let id = created.token.id.clone();
    let raw = created.token.key_raw.clone().unwrap();

    store.update(&id, "after", perm(UPDATE_SELF), 200).unwrap();

    let loaded = store.load_by_id(&id).unwrap();
    assert_eq!(loaded.name.as_deref(), Some("after"));
    // replaced, not merged: the old bits are gone
    assert_eq!(loaded.permissions.bits(), UPDATE_SELF);
    assert_eq!(loaded.created_at, 100);
    assert_eq!(loaded.updated_at, 200);
    // the credential is untouched by an update
    assert!(auth.verify_secret(&raw, &loaded.token.key_hash.unwrap()));
}

#[test]
fn two_sequential_updates_land_on_the_later_state() {
    let auth = Auth::default();
    let mut store = ClientStore::new();
    let created = store.create(&auth, "orig", perm(USE_SELF), None, 1).unwrap();
    let id = created.token.id.clone();

    store.update(&id, "first", perm(DELETE_SELF), 10).unwrap();
    store.update(&id, "second", perm(CREATE_SELF), 20).unwrap();

    let loaded = store.load_by_id(&id).unwrap();
    // exactly the second submission, no mix of the two
    assert_eq!(loaded.name.as_deref(), Some("second"));
    assert_eq!(loaded.permissions.bits(), CREATE_SELF);
    assert_eq!(loaded.updated_at, 20);
    assert_eq!(loaded.created_at, 1);
}

#[test]
fn update_of_unknown_id_is_not_found() {
    let mut store = ClientStore::new();
    assert_eq!(
        store.update("absent", "name", perm(USE_SELF), 1),
        Err(AuthError::NotFound)
    );
}

#[test]
fn load_by_id_reveals_absence_only_as_not_found() {
    let store = ClientStore::new();
    assert_eq!(store.load_by_id("nobody").err(), Some(AuthError::NotFound));
}

#[test]
fn hashing_an_empty_secret_fails() {
    let auth = Auth::default();
    assert_eq!(auth.hash_secret("").err(), Some(AuthError::HashingError));
    let ok = auth.hash_secret("a-real-secret").unwrap();
    assert!(auth.verify_secret("a-real-secret", &ok));
    assert!(!auth.verify_secret("another", &ok));
}

#[test]
fn generated_ids_are_distinct_and_separator_free() {
    let auth = Auth::default();
    let mut store = ClientStore::new();
    let a = store.create(&auth, "a", perm(USE_SELF), None, 1).unwrap();
    let b = store.create(&auth, "b", perm(USE_SELF), None, 1).unwrap();
    assert_ne!(a.token.id, b.token.id);
    assert!(!a.token.id.contains('_'));
    assert!(!a.token.key_raw.unwrap().contains('_'));
    // 16 random bytes give 22 base64 characters, 64 give 86
    assert_eq!(a.token.id.len(), 22);
    assert_eq!(b.token.key_raw.unwrap().len(), 86);
}

#[test]
fn created_by_links_back_to_the_creator() {
    let auth = Auth::default();
    let mut store = ClientStore::new();
    let child = store
        .create(&auth, "child", perm(USE_SELF), Some("parent-id"), 3)
        .unwrap();
    assert_eq!(child.created_by.as_deref(), Some("parent-id"));
    let loaded = store.load_by_id(&child.token.id).unwrap();
    assert_eq!(loaded.created_by.as_deref(), Some("parent-id"));
}
