//! The request-authorization gate and the per-endpoint decision functions.
//!
//! Each request goes through the same stages: header, token, client
//! lookup, secret check, baseline capability. It ends either authorized,
//! with the client attached, or in exactly one of four failures:
//! `MissingHeader` / `MalformedHeader`, `MalformedToken`,
//! `AuthenticationFailed`, or `Forbidden`. There are no retries: a failed
//! authentication is final for that request.
//!
//! Downstream, each endpoint applies the self/other rule: acting on one's
//! own record needs the `*_SELF` bit, acting on another client's record the
//! `*_OTHER` bit for that action.

use vstd::prelude::*;
use crate::auth::{Auth, bearer_token_of, extract_auth_header, extract_id_key, parse_token};
use crate::client::{
    ApiClient, ApiClientView, ClientStore, created_ok, lav_spec, updated_view,
};
use crate::error::AuthError;
use crate::permission::{
    Permission, spec_contains, CREATE_SELF, DELETE_OTHER, DELETE_SELF, STATUS_OTHER, STATUS_SELF,
    UPDATE_OTHER, UPDATE_SELF, USE_SELF,
};
use crate::scan::str_eq;

verus! {

/// Maps a store and the value of the `Authorization` header to either the
/// resolved record or the rejection the request ends with; `USE_SELF` is
/// demanded of every caller.
pub open spec fn authorize_spec(
    m: Map<Seq<char>, ApiClientView>,
    header: Option<Seq<char>>,
) -> Result<ApiClientView, AuthError> {
    match header {
        None => Err(AuthError::MissingHeader),
        Some(h) => match bearer_token_of(h) {
            None => Err(AuthError::MalformedHeader),
            Some(token) => match parse_token(token) {
                None => Err(AuthError::MalformedToken),
                Some(_) => match lav_spec(m, token) {
                    Err(e) => Err(e),
                    Ok(cv) => if spec_contains(cv.permissions, USE_SELF) {
                        Ok(cv)
                    } else {
                        Err(AuthError::Forbidden)
                    },
                },
            },
        },
    }
}

/// Authenticates one request against the store. A successful call hands
/// back the record under the presented id, carrying the hash and nothing
/// secret.
pub fn authorize(store: &ClientStore, auth: &Auth, header: Option<&str>) -> (r: Result<
    ApiClient,
    AuthError,
>)
    requires
        store.wf(),
    ensures
        header is None ==> r == Err::<ApiClient, AuthError>(AuthError::MissingHeader),
        header matches Some(h) ==> match authorize_spec(store@, Some(h@)) {
            Ok(cv) => r is Ok && (r matches Ok(c) ==> c@ == cv),
            Err(e) => r is Err && (r matches Err(e2) ==> e2 == e),
        },
{
    let token = match extract_auth_header(header) {
        Ok(t) => t,
        Err(e) => {
            return Err(e);
        },
    };
    match extract_id_key(token.as_str()) {
        Ok(_) => (),
        Err(_) => {
            return Err(AuthError::MalformedToken);
        },
    };
    let client = match store.load_and_verify(auth, token.as_str()) {
        Ok(c) => c,
        Err(e) => {
            return Err(e);
        },
    };
    if client.permissions.contains_bits(USE_SELF) {
        Ok(client)
    } else {
        Err(AuthError::Forbidden)
    }
}

/// Whether an optional explicit target denotes another client's record:
/// naming no id, or one's own id, is a self-operation.
pub open spec fn is_other(caller_id: Seq<char>, target: Option<Seq<char>>) -> bool {
    match target {
        Some(id) => id != caller_id,
        None => false,
    }
}

/// The id an operation acts on: the explicit target, or the caller itself.
pub open spec fn target_id_of(caller_id: Seq<char>, target: Option<Seq<char>>) -> Seq<char> {
    match target {
        Some(id) => id,
        None => caller_id,
    }
}

/// The status outcome: reading one's own record needs `STATUS_SELF`,
/// reading another's needs `STATUS_OTHER` and may reveal absence as
/// `NotFound`.
pub open spec fn status_spec(
    m: Map<Seq<char>, ApiClientView>,
    caller: ApiClientView,
    target: Option<Seq<char>>,
) -> Result<ApiClientView, AuthError> {
    if is_other(caller.token.id, target) {
        if !spec_contains(caller.permissions, STATUS_OTHER) {
            Err(AuthError::Forbidden)
        } else if m.contains_key(target.unwrap()) {
            Ok(m[target.unwrap()])
        } else {
            Err(AuthError::NotFound)
        }
    } else {
        if !spec_contains(caller.permissions, STATUS_SELF) {
            Err(AuthError::Forbidden)
        } else {
            Ok(caller)
        }
    }
}

/// Reads a client's status: the caller's own record, or another client's by
/// explicit id. The stored hash stays inside the returned value and is
/// never serialized outward.
pub fn status_request(store: &ClientStore, caller: &ApiClient, target: Option<&str>) -> (r: Result<
    ApiClient,
    AuthError,
>)
    requires
        store.wf(),
    ensures
        match status_spec(
            store@,
            caller@,
            match target {
                Some(t) => Some(t@),
                None => None,
            },
        ) {
            Ok(cv) => r is Ok && (r matches Ok(c) ==> c@ == cv),
            Err(e) => r is Err && (r matches Err(e2) ==> e2 == e),
        },
{
    match target {
        Some(id) => {
            if str_eq(id, caller.token.id.as_str()) {
                if caller.permissions.contains_bits(STATUS_SELF) {
                    Ok(caller.clone())
                } else {
                    Err(AuthError::Forbidden)
                }
            } else if caller.permissions.contains_bits(STATUS_OTHER) {
                store.load_by_id(id)
            } else {
                Err(AuthError::Forbidden)
            }
        },
        None => {
            if caller.permissions.contains_bits(STATUS_SELF) {
                Ok(caller.clone())
            } else {
                Err(AuthError::Forbidden)
            }
        },
    }
}

/// Creates a client on a caller's behalf: the caller must hold
/// `CREATE_SELF`, and the new record's `created_by` is the caller's id,
/// recorded as given — no referential check ties it to a live record, and
/// the contract holds over every well-formed store.
pub fn create_request(
    store: &mut ClientStore,
    auth: &Auth,
    caller: &ApiClient,
    name: &str,
    permissions: Permission,
    now_ms: i64,
) -> (r: Result<ApiClient, AuthError>)
    requires
        old(store).wf(),
    ensures
        final(store).wf(),
        !spec_contains(caller@.permissions, CREATE_SELF) ==> r == Err::<ApiClient, AuthError>(
            AuthError::Forbidden,
        ) && final(store)@ == old(store)@,
        spec_contains(caller@.permissions, CREATE_SELF) ==> match r {
            Ok(c) => created_ok(
                old(store)@,
                final(store)@,
                c@,
                name@,
                permissions@,
                Some(caller@.token.id),
                now_ms as int,
            ),
            Err(e) => final(store)@ == old(store)@ && (e == AuthError::HashingError || e
                == AuthError::PersistenceError),
        },
{
    if !caller.permissions.contains_bits(CREATE_SELF) {
        return Err(AuthError::Forbidden);
    }
    store.create(auth, name, permissions, Some(caller.token.id.as_str()), now_ms)
}

/// The capability a delete needs: `DELETE_SELF` on one's own id,
/// `DELETE_OTHER` on any other.
pub open spec fn delete_permission_ok(caller: ApiClientView, target: Seq<char>) -> bool {
    if target == caller.token.id {
        spec_contains(caller.permissions, DELETE_SELF)
    } else {
        spec_contains(caller.permissions, DELETE_OTHER)
    }
}

/// Deletes a client by id. With the right capability the call always
/// succeeds: deleting an id that no longer exists is not an error.
pub fn delete_request(store: &mut ClientStore, caller: &ApiClient, target_id: &str) -> (r: Result<
    (),
    AuthError,
>)
    requires
        old(store).wf(),
    ensures
        final(store).wf(),
        delete_permission_ok(caller@, target_id@) ==> r is Ok && final(store)@ == old(
            store,
        )@.remove(target_id@),
        !delete_permission_ok(caller@, target_id@) ==> r == Err::<(), AuthError>(
            AuthError::Forbidden,
        ) && final(store)@ == old(store)@,
{
    let allowed = if str_eq(target_id, caller.token.id.as_str()) {
        caller.permissions.contains_bits(DELETE_SELF)
    } else {
        caller.permissions.contains_bits(DELETE_OTHER)
    };
    if !allowed {
        return Err(AuthError::Forbidden);
    }
    store.delete(target_id);
    Ok(())
}

/// The capability an update needs: `UPDATE_SELF` for one's own record,
/// `UPDATE_OTHER` for another client's.
pub open spec fn update_permission_ok(caller: ApiClientView, target: Option<Seq<char>>) -> bool {
    if is_other(caller.token.id, target) {
        spec_contains(caller.permissions, UPDATE_OTHER)
    } else {
        spec_contains(caller.permissions, UPDATE_SELF)
    }
}

/// Updates a client's name and permission set — full replacement — naming
/// either no target (the caller itself) or an explicit id.
pub fn update_request(
    store: &mut ClientStore,
    caller: &ApiClient,
    target: Option<&str>,
    name: &str,
    permissions: Permission,
    now_ms: i64,
) -> (r: Result<(), AuthError>)
    requires
        old(store).wf(),
    ensures
        final(store).wf(),
        ({
            let tgt = match target {
                Some(t) => Some(t@),
                None => None,
            };
            let tid = target_id_of(caller@.token.id, tgt);
            &&& !update_permission_ok(caller@, tgt) ==> r == Err::<(), AuthError>(
                AuthError::Forbidden,
            ) && final(store)@ == old(store)@
            &&& update_permission_ok(caller@, tgt) ==> {
                &&& old(store)@.contains_key(tid) ==> r is Ok && final(store)@ == old(
                    store,
                )@.insert(tid, updated_view(old(store)@[tid], name@, permissions@, now_ms as int))
                &&& !old(store)@.contains_key(tid) ==> r == Err::<(), AuthError>(
                    AuthError::NotFound,
                ) && final(store)@ == old(store)@
            }
        }),
{
    match target {
        Some(id) => {
            if str_eq(id, caller.token.id.as_str()) {
                if !caller.permissions.contains_bits(UPDATE_SELF) {
                    return Err(AuthError::Forbidden);
                }
                store.update(id, name, permissions, now_ms)
            } else {
                if !caller.permissions.contains_bits(UPDATE_OTHER) {
                    return Err(AuthError::Forbidden);
                }
                store.update(id, name, permissions, now_ms)
            }
        },
        None => {
            if !caller.permissions.contains_bits(UPDATE_SELF) {
                return Err(AuthError::Forbidden);
            }
            store.update(caller.token.id.as_str(), name, permissions, now_ms)
        },
    }
}

} // verus!
