use model_runner::auth::Auth;
use model_runner::client::{ApiClient, ClientStore};
use model_runner::error::AuthError;
use model_runner::gate::{
    authorize, create_request, delete_request, status_request, update_request,
};
use model_runner::permission::{
    Permission, CREATE_SELF, DELETE_SELF, STATUS_OTHER, STATUS_SELF, UPDATE_SELF, USE_SELF,
};

fn perm(bits: u64) -> Permission {
    Permission::from_bits(bits).unwrap()
}

fn bearer(client: &ApiClient) -> String {
    format!("Bearer {}", client.token.token_string())
}

#[test]
fn scenario_root_creates_child() {
    let auth = Auth::default();
    let mut store = ClientStore::new();
    let root = store
        .create(&auth, "root", perm(USE_SELF | CREATE_SELF), None, 1)
        .unwrap();

    let header = bearer(&root);
    let caller = authorize(&store, &auth, Some(header.as_str())).unwrap();
    assert_eq!(caller.token.id, root.token.id);

    let child = create_request(&mut store, &auth, &caller, "child", perm(USE_SELF), 2).unwrap();
    assert_eq!(child.created_by.as_deref(), Some(caller.token.id.as_str()));
    assert_eq!(child.name.as_deref(), Some("child"));
    let stored_child = store.load_by_id(&child.token.id).unwrap();
    assert_eq!(stored_child.created_by.as_deref(), Some(root.token.id.as_str()));
}

#[test]
fn scenario_status_needs_the_other_bit_for_a_target() {
    let auth = Auth::default();
    let mut store = ClientStore::new();
    let watcher = store
        .create(&auth, "watcher", perm(USE_SELF | STATUS_SELF), None, 1)
        .unwrap();
    let other = store.create(&auth, "other", perm(USE_SELF), None, 1).unwrap();

    // another client's status by id: Forbidden without STATUS_OTHER
    assert_eq!(
        status_request(&store, &watcher, Some(other.token.id.as_str())).err(),
        Some(AuthError::Forbidden)
    );
    // one's own status with no id: succeeds with STATUS_SELF alone
    let own = status_request(&store, &watcher, None).unwrap();
    assert_eq!(own.token.id, watcher.token.id);

    // with the bit, the target's record comes back
    let admin = store
        .create(&auth, "admin", perm(USE_SELF | STATUS_OTHER), None, 1)
        .unwrap();
    let seen = status_request(&store, &admin, Some(other.token.id.as_str())).unwrap();
    assert_eq!(seen.token.id, other.token.id);
    assert_eq!(seen.name.as_deref(), Some("other"));

    // an unknown target id is NotFound, not Forbidden
    assert_eq!(
        status_request(&store, &admin, Some("missing")).err(),
        Some(AuthError::NotFound)
    );
}

#[test]
fn scenario_update_can_revoke_self_delete() {
    let auth = Auth::default();
    let mut store = ClientStore::new();
    let client = store
        .create(
            &auth,
            "worker",
            perm(USE_SELF | DELETE_SELF | UPDATE_SELF),
            None,
            1,
        )
        .unwrap();
    let header = bearer(&client);

    // first request: drop DELETE_SELF from the permission set
    let caller = authorize(&store, &auth, Some(header.as_str())).unwrap();
    update_request(
        &mut store,
        &caller,
        None,
        "worker",
        perm(USE_SELF | UPDATE_SELF),
        2,
    )
    .unwrap();

    // second request re-authorizes and sees the revoked bit
    let caller = authorize(&store, &auth, Some(header.as_str())).unwrap();
    assert_eq!(
        delete_request(&mut store, &caller, caller.token.id.as_str()).err(),
        Some(AuthError::Forbidden)
    );
    // the record is still there
    assert!(store.load_by_id(&caller.token.id).is_ok());
}

#[test]
fn scenario_bogus_bearer_is_malformed_not_unauthenticated() {
    let auth = Auth::default();
    let store = ClientStore::new();
    let got = authorize(&store, &auth, Some("Bearer bogus")).err().unwrap();
    assert_eq!(got, AuthError::MalformedToken);
    assert_ne!(got, AuthError::AuthenticationFailed);
}

#[test]
fn gate_failures_come_in_their_own_categories() {
    let auth = Auth::default();
    let mut store = ClientStore::new();

    assert_eq!(authorize(&store, &auth, None).err(), Some(AuthError::MissingHeader));
    assert_eq!(
        authorize(&store, &auth, Some("Basic dXNlcg==")).err(),
        Some(AuthError::MalformedHeader)
    );
    assert_eq!(
        authorize(&store, &auth, Some("Bearer ghost_secret")).err(),
        Some(AuthError::AuthenticationFailed)
    );

    // a real identity without the baseline bit is Forbidden, not 401
    let no_use = store.create(&auth, "idle", perm(STATUS_SELF), None, 1).unwrap();
    let header = bearer(&no_use);
    assert_eq!(
        authorize(&store, &auth, Some(header.as_str())).err(),
        Some(AuthError::Forbidden)
    );

    // a wrong secret on a real id stays indistinguishable from a ghost id
    let real = store.create(&auth, "real", perm(USE_SELF), None, 1).unwrap();
    let wrong = format!("Bearer {}_wrongsecret", real.token.id);
    assert_eq!(
        authorize(&store, &auth, Some(wrong.as_str())).err(),
        Some(AuthError::AuthenticationFailed)
    );
}

#[test]
fn delete_needs_the_matching_scope_bit() {
    let auth = Auth::default();
    let mut store = ClientStore::new();
    let self_only = store
        .create(&auth, "self-only", perm(USE_SELF | DELETE_SELF), None, 1)
        .unwrap();
    let victim = store.create(&auth, "victim", perm(USE_SELF), None, 1).unwrap();

    // DELETE_SELF does not reach another client's record
    assert_eq!(
        delete_request(&mut store, &self_only, victim.token.id.as_str()).err(),
        Some(AuthError::Forbidden)
    );
    assert!(store.load_by_id(&victim.token.id).is_ok());

    // it does reach one's own
    delete_request(&mut store, &self_only, self_only.token.id.as_str()).unwrap();
    assert_eq!(
        store.load_by_id(&self_only.token.id).err(),
        Some(AuthError::NotFound)
    );
}

#[test]
fn update_other_needs_update_other() {
    let auth = Auth::default();
    let mut store = ClientStore::new();
    let editor = store
        .create(&auth, "editor", perm(USE_SELF | UPDATE_SELF), None, 1)
        .unwrap();
    let target = store.create(&auth, "target", perm(USE_SELF), None, 1).unwrap();

    assert_eq!(
        update_request(
            &mut store,
            &editor,
            Some(target.token.id.as_str()),
            "renamed",
            perm(USE_SELF),
            2
        )
        .err(),
        Some(AuthError::Forbidden)
    );
    // naming one's own id explicitly still counts as a self update
    update_request(
        &mut store,
        &editor,
        Some(editor.token.id.as_str()),
        "editor-two",
        perm(USE_SELF | UPDATE_SELF),
        3,
    )
    .unwrap();
    let loaded = store.load_by_id(&editor.token.id).unwrap();
    assert_eq!(loaded.name.as_deref(), Some("editor-two"));
}

#[test]
fn has_permission_is_forbidden_without_every_bit() {
    let auth = Auth::default();
    let mut store = ClientStore::new();
    let c = store
        .create(&auth, "checked", perm(USE_SELF | STATUS_SELF), None, 1)
        .unwrap();
    assert!(c.has_permission(&perm(USE_SELF)).is_ok());
    assert!(c.has_permission(&perm(USE_SELF | STATUS_SELF)).is_ok());
    assert_eq!(
        c.has_permission(&perm(USE_SELF | CREATE_SELF)),
        Err(AuthError::Forbidden)
    );
}

#[test]
fn error_classes_map_to_their_status_codes() {
    assert_eq!(AuthError::MissingHeader.status_code(), 400);
    assert_eq!(AuthError::MalformedHeader.status_code(), 400);
    assert_eq!(AuthError::MalformedToken.status_code(), 400);
    assert_eq!(AuthError::AuthenticationFailed.status_code(), 401);
    assert_eq!(AuthError::Forbidden.status_code(), 403);
    assert_eq!(AuthError::NotFound.status_code(), 404);
    assert_eq!(AuthError::PersistenceError.status_code(), 500);
    assert_eq!(AuthError::CorruptPermissionData.status_code(), 500);
    assert_eq!(AuthError::HashingError.status_code(), 500);
    assert!(AuthError::Forbidden.is_caller_fault());
    assert!(!AuthError::PersistenceError.is_caller_fault());
}
