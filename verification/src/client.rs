//! The client store: persistent records mapping a client id to its display
//! name, hashed secret, permission set and audit fields, with
//! create/read/update/delete whose contracts are stated over a map from ids
//! to records. The raw secret of a token is never stored: every record in
//! the store carries the hash alone.

use vstd::prelude::*;
use crate::auth::{
    Auth, AuthToken, AuthTokenView, verifies, parse_token, spec_format_token, generated_word,
    lemma_token_roundtrip, lemma_base64_char_plain, TOKEN_ID_CHARS, TOKEN_SECRET_CHARS,
};
use crate::error::AuthError;
use crate::permission::{Permission, lemma_permission_valid, spec_contains, valid_bits};

verus! {

/// An `Option<String>` seen mathematically.
pub open spec fn view_opt_string(o: Option<String>) -> Option<Seq<char>> {
    match o {
        Some(s) => Some(s@),
        None => None,
    }
}

/// A registered principal: its credential token (id plus stored hash), an
/// optional display name, its permission set, millisecond audit timestamps,
/// and the id of the client that created it (absent for the first client;
/// never checked for referential integrity).
pub struct ApiClient {
    pub name: Option<String>,
    pub token: AuthToken,
    pub permissions: Permission,
    pub created_at: i64,
    pub updated_at: i64,
    pub created_by: Option<String>,
}

/// The mathematical shadow of an `ApiClient`.
pub struct ApiClientView {
    pub name: Option<Seq<char>>,
    pub token: AuthTokenView,
    pub permissions: u64,
    pub created_at: int,
    pub updated_at: int,
    pub created_by: Option<Seq<char>>,
}

impl View for ApiClient {
    type V = ApiClientView;

    open spec fn view(&self) -> ApiClientView {
        ApiClientView {
            name: view_opt_string(self.name),
            token: self.token@,
            permissions: self.permissions@,
            created_at: self.created_at as int,
            updated_at: self.updated_at as int,
            created_by: view_opt_string(self.created_by),
        }
    }
}

impl Clone for ApiClient {
    /// A field-for-field copy.
    fn clone(&self) -> (c: Self)
        ensures
            c == *self,
    {
        ApiClient {
            name: match &self.name {
                Some(n) => Some(n.clone()),
                None => None,
            },
            token: AuthToken {
                id: self.token.id.clone(),
                key_hash: match &self.token.key_hash {
                    Some(h) => Some(h.clone()),
                    None => None,
                },
                key_raw: match &self.token.key_raw {
                    Some(k) => Some(k.clone()),
                    None => None,
                },
            },
            permissions: self.permissions,
            created_at: self.created_at,
            updated_at: self.updated_at,
            created_by: match &self.created_by {
                Some(n) => Some(n.clone()),
                None => None,
            },
        }
    }
}

impl ApiClient {
    /// Errs with `Forbidden` unless this client holds every bit of
    /// `required`; handlers call this before touching anything.
    pub fn has_permission(&self, required: &Permission) -> (r: Result<(), AuthError>)
        ensures
            spec_contains(self@.permissions, required@) ==> r is Ok,
            !spec_contains(self@.permissions, required@) ==> r == Err::<(), AuthError>(
                AuthError::Forbidden,
            ),
    {
        if self.permissions.contains(required) {
            Ok(())
        } else {
            Err(AuthError::Forbidden)
        }
    }
}

/// What may sit in the store: the hash is present, the raw secret is not,
/// and the permission bits are all known ones.
pub open spec fn stored_wf(c: ApiClientView) -> bool {
    &&& c.token.key_hash is Some
    &&& c.token.key_raw is None
    &&& valid_bits(c.permissions)
}

/// The stored form of a freshly issued client: the same record with the
/// one-time raw secret dropped.
pub open spec fn stored_of(c: ApiClientView) -> ApiClientView {
    ApiClientView {
        token: AuthTokenView { id: c.token.id, key_hash: c.token.key_hash, key_raw: None },
        ..c
    }
}

/// Pairwise-distinct client ids.
pub open spec fn distinct_ids(s: Seq<ApiClientView>) -> bool {
    forall|i: int, j: int|
        0 <= i < j < s.len() ==> (#[trigger] s[i]).token.id != (#[trigger] s[j]).token.id
}

/// The map from client id to record that a row sequence denotes; a later
/// row with the same id would win, but well-formed stores have none.
pub open spec fn map_of(s: Seq<ApiClientView>) -> Map<Seq<char>, ApiClientView>
    decreases s.len(),
{
    if s.len() == 0 {
        Map::empty()
    } else {
        map_of(s.drop_last()).insert(s.last().token.id, s.last())
    }
}

/// Membership in the map is membership among the rows.
pub proof fn lemma_map_of_contains(s: Seq<ApiClientView>, id: Seq<char>)
    ensures
        map_of(s).contains_key(id) <==> exists|i: int|
            0 <= i < s.len() && (#[trigger] s[i]).token.id == id,
    decreases s.len(),
{
    if s.len() > 0 {
        lemma_map_of_contains(s.drop_last(), id);
        if map_of(s).contains_key(id) {
            if s.last().token.id != id {
                let i = choose|i: int|
                    0 <= i < s.drop_last().len() && (#[trigger] s.drop_last()[i]).token.id == id;
                assert(s[i].token.id == id);
            }
        }
        if exists|i: int| 0 <= i < s.len() && (#[trigger] s[i]).token.id == id {
            let i = choose|i: int| 0 <= i < s.len() && (#[trigger] s[i]).token.id == id;
            if i < s.len() - 1 {
                assert(s.drop_last()[i].token.id == id);
            }
        }
    }
}

/// With distinct ids, each row is what the map holds for its id.
pub proof fn lemma_map_of_index(s: Seq<ApiClientView>, i: int)
    requires
        distinct_ids(s),
        0 <= i < s.len(),
    ensures
        map_of(s).contains_key(s[i].token.id),
        map_of(s)[s[i].token.id] == s[i],
    decreases s.len(),
{
    if i < s.len() - 1 {
        assert(distinct_ids(s.drop_last()));
        assert(s.drop_last()[i] == s[i]);
        lemma_map_of_index(s.drop_last(), i);
        assert(s[i].token.id != s.last().token.id);
    }
}

/// Appending a row inserts its id.
pub proof fn lemma_map_of_push(s: Seq<ApiClientView>, v: ApiClientView)
    ensures
        map_of(s.push(v)) == map_of(s).insert(v.token.id, v),
{
    assert(s.push(v).drop_last() =~= s);
    assert(s.push(v).last() == v);
}

/// Removing a row removes its id, when ids are distinct.
pub proof fn lemma_map_of_remove(s: Seq<ApiClientView>, i: int)
    requires
        distinct_ids(s),
        0 <= i < s.len(),
    ensures
        map_of(s.remove(i)) == map_of(s).remove(s[i].token.id),
    decreases s.len(),
{
    let id = s[i].token.id;
    if i == s.len() - 1 {
        assert(s.remove(i) =~= s.drop_last());
        lemma_map_of_contains(s.drop_last(), id);
        assert forall|j: int|
            0 <= j < s.drop_last().len() implies (#[trigger] s.drop_last()[j]).token.id != id by {
            assert(s[j] == s.drop_last()[j]);
        }
        assert(!map_of(s.drop_last()).contains_key(id));
        assert(map_of(s.drop_last()).insert(id, s.last()).remove(id) =~= map_of(s.drop_last()));
    } else {
        assert(distinct_ids(s.drop_last()));
        assert(s.drop_last()[i] == s[i]);
        lemma_map_of_remove(s.drop_last(), i);
        assert(s.remove(i).drop_last() =~= s.drop_last().remove(i));
        assert(s.remove(i).last() == s.last());
        assert(map_of(s.remove(i)) == map_of(s.drop_last().remove(i)).insert(
            s.last().token.id,
            s.last(),
        ));
        assert(s.last().token.id != id);
        assert(map_of(s.drop_last()).remove(id).insert(s.last().token.id, s.last())
            =~= map_of(s.drop_last()).insert(s.last().token.id, s.last()).remove(id));
    }
}

/// The record an `update` call submits on top of an existing one: the name
/// and permission set are fully replaced (never merged), the update
/// timestamp is refreshed, and everything else — id, hash, creation audit —
/// is untouched.
pub open spec fn updated_view(c: ApiClientView, name: Seq<char>, perms: u64, now: int) -> ApiClientView {
    ApiClientView { name: Some(name), permissions: perms, updated_at: now, ..c }
}

/// The in-memory client store: rows with pairwise-distinct ids, seen as a
/// map from id to record.
pub struct ClientStore {
    clients: Vec<ApiClient>,
}

impl View for ClientStore {
    type V = Map<Seq<char>, ApiClientView>;

    closed spec fn view(&self) -> Map<Seq<char>, ApiClientView> {
        map_of(self.rows())
    }
}

impl ClientStore {
    /// The rows, seen mathematically.
    pub closed spec fn rows(&self) -> Seq<ApiClientView> {
        self.clients@.map_values(|c: ApiClient| c@)
    }

    /// Well-formedness: ids are unique, and no row holds a raw secret,
    /// lacks its hash, or carries unknown permission bits.
    pub closed spec fn wf(&self) -> bool {
        &&& distinct_ids(self.rows())
        &&& forall|i: int| 0 <= i < self.rows().len() ==> stored_wf(#[trigger] self.rows()[i])
    }

    /// An empty store.
    pub fn new() -> (s: ClientStore)
        ensures
            s.wf(),
            s@ == Map::<Seq<char>, ApiClientView>::empty(),
    {
        let s = ClientStore { clients: Vec::new() };
        proof {
            assert(s.rows() =~= Seq::<ApiClientView>::empty());
        }
        s
    }

    /// Every record of a well-formed store is a stored record.
    pub proof fn lemma_wf_records(&self, id: Seq<char>)
        requires
            self.wf(),
            self@.contains_key(id),
        ensures
            stored_wf(self@[id]),
            self@[id].token.id == id,
    {
        lemma_map_of_contains(self.rows(), id);
        let i = choose|i: int| 0 <= i < self.rows().len() && (#[trigger] self.rows()[i]).token.id == id;
        lemma_map_of_index(self.rows(), i);
    }

    /// The index of the row holding `id`, if any.
    fn find_index(&self, id: &str) -> (r: Option<usize>)
        requires
            self.wf(),
        ensures
            match r {
                Some(i) => {
                    &&& i < self.rows().len()
                    &&& self.rows()[i as int].token.id == id@
                    &&& self@.contains_key(id@)
                    &&& self@[id@] == self.rows()[i as int]
                },
                None => !self@.contains_key(id@),
            },
    {
        let n = self.clients.len();
        let mut i: usize = 0;
        while i < n
            invariant
                self.wf(),
                n == self.clients@.len(),
                0 <= i <= n,
                forall|j: int| 0 <= j < i ==> (#[trigger] self.rows()[j]).token.id != id@,
            decreases n - i,
        {
            if crate::scan::str_eq(self.clients[i].token.id.as_str(), id) {
                proof {
                    lemma_map_of_index(self.rows(), i as int);
                }
                return Some(i);
            }
            i = i + 1;
        }
        proof {
            lemma_map_of_contains(self.rows(), id@);
        }
        None
    }

    /// Whether a client with this id exists.
    pub fn contains_id(&self, id: &str) -> (r: bool)
        requires
            self.wf(),
        ensures
            r == self@.contains_key(id@),
    {
        match self.find_index(id) {
            Some(_) => true,
            None => false,
        }
    }

    /// Fetches a client by primary key; absence is `NotFound`. Used only
    /// where revealing whether an id exists is acceptable.
    pub fn load_by_id(&self, id: &str) -> (r: Result<ApiClient, AuthError>)
        requires
            self.wf(),
        ensures
            self@.contains_key(id@) ==> r is Ok && (r matches Ok(c) ==> c@ == self@[id@]),
            !self@.contains_key(id@) ==> r == Err::<ApiClient, AuthError>(AuthError::NotFound),
    {
        match self.find_index(id) {
            Some(i) => Ok(self.clients[i].clone()),
            None => Err(AuthError::NotFound),
        }
    }

    /// Creates and persists a new client: issues a fresh token, hashes its
    /// secret, and stores the record — hash only, never the raw secret —
    /// with both audit timestamps set to `now_ms`. The returned client
    /// additionally carries the one-time raw secret, which can never be
    /// retrieved again. The `created_by` back-reference is stored as
    /// handed in, with no referential-integrity check. Fails with
    /// `HashingError` if the hasher does, and with `PersistenceError` if
    /// the generated id collides with an existing one; the store is
    /// unchanged on failure.
    pub fn create(
        &mut self,
        auth: &Auth,
        name: &str,
        permissions: Permission,
        created_by: Option<&str>,
        now_ms: i64,
    ) -> (r: Result<ApiClient, AuthError>)
        requires
            old(self).wf(),
        ensures
            final(self).wf(),
            r matches Ok(c) ==> created_ok(
                old(self)@,
                final(self)@,
                c@,
                name@,
                permissions@,
                match created_by {
                    Some(cb) => Some(cb@),
                    None => None,
                },
                now_ms as int,
            ),
            r matches Err(e) ==> final(self)@ == old(self)@ && (e == AuthError::HashingError || e
                == AuthError::PersistenceError),
    {
        let token = match AuthToken::new(auth) {
            Ok(t) => t,
            Err(e) => {
                return Err(e);
            },
        };
        if self.contains_id(token.id.as_str()) {
            return Err(AuthError::PersistenceError);
        }
        let key_hash = match &token.key_hash {
            Some(h) => h.clone(),
            None => {
                return Err(AuthError::HashingError);
            },
        };
        let stored = ApiClient {
            name: Some(name.to_owned()),
            token: AuthToken::from(token.id.clone(), key_hash),
            permissions,
            created_at: now_ms,
            updated_at: now_ms,
            created_by: match created_by {
                Some(cb) => Some(cb.to_owned()),
                None => None,
            },
        };
        let client = ApiClient {
            name: Some(name.to_owned()),
            token,
            permissions,
            created_at: now_ms,
            updated_at: now_ms,
            created_by: match created_by {
                Some(cb) => Some(cb.to_owned()),
                None => None,
            },
        };
        proof {
            use_type_invariant(&permissions);
            lemma_permission_valid(permissions);
            let rows = self.rows();
            let v = stored@;
            assert(stored_of(client@) == v);
            lemma_map_of_push(rows, v);
            lemma_map_of_contains(rows, v.token.id);
            assert(rows.push(v).drop_last() =~= rows);
            assert forall|i: int, j: int|
                0 <= i < j < rows.push(v).len() implies (#[trigger] rows.push(
                v,
            )[i]).token.id != (#[trigger] rows.push(v)[j]).token.id by {
                if j < rows.len() {
                } else {
                    assert(rows.push(v)[j] == v);
                    assert(rows.push(v)[i] == rows[i]);
                }
            }
        }
        let ghost old_rows = self.rows();
        self.clients.push(stored);
        proof {
            assert(self.rows() =~= old_rows.push(stored@));
            assert forall|k: int|
                0 <= k < self.rows().len() implies stored_wf(#[trigger] self.rows()[k]) by {
                if k < old_rows.len() {
                    assert(self.rows()[k] == old_rows[k]);
                    assert(stored_wf(old_rows[k]));
                } else {
                    assert(self.rows()[k] == stored@);
                }
            }
        }
        Ok(client)
    }

    /// Parses a bearer token, resolves the client, and verifies the secret
    /// against the stored hash. Any failure in the chain — malformed token,
    /// unknown id, wrong secret — is the single `AuthenticationFailed`, so a
    /// caller cannot tell which part was wrong.
    pub fn load_and_verify(&self, auth: &Auth, token: &str) -> (r: Result<ApiClient, AuthError>)
        requires
            self.wf(),
        ensures
            match lav_spec(self@, token@) {
                Ok(cv) => r is Ok && (r matches Ok(c) ==> c@ == cv),
                Err(e) => r == Err::<ApiClient, AuthError>(e),
            },
    {
        let (id, key) = match crate::auth::extract_id_key(token) {
            Ok(p) => p,
            Err(_) => {
                return Err(AuthError::AuthenticationFailed);
            },
        };
        let i = match self.find_index(id.as_str()) {
            Some(i) => i,
            None => {
                return Err(AuthError::AuthenticationFailed);
            },
        };
        let hash = match &self.clients[i].token.key_hash {
            Some(h) => h,
            None => {
                proof {
                    assert(stored_wf(self.rows()[i as int]));
                    assert(false);
                }
                return Err(AuthError::AuthenticationFailed);
            },
        };
        if auth.verify_secret(key.as_str(), hash.as_str()) {
            Ok(self.clients[i].clone())
        } else {
            Err(AuthError::AuthenticationFailed)
        }
    }

    /// Overwrites a client's name and permission set — full replacement,
    /// never a merge — and refreshes its update timestamp. The id, stored
    /// hash and creation audit fields are untouched. An unknown id is
    /// `NotFound` and leaves the store unchanged.
    pub fn update(&mut self, id: &str, name: &str, permissions: Permission, now_ms: i64) -> (r:
        Result<(), AuthError>)
        requires
            old(self).wf(),
        ensures
            final(self).wf(),
            old(self)@.contains_key(id@) ==> r is Ok && final(self)@ == old(self)@.insert(
                id@,
                updated_view(old(self)@[id@], name@, permissions@, now_ms as int),
            ),
            !old(self)@.contains_key(id@) ==> r == Err::<(), AuthError>(AuthError::NotFound)
                && final(self)@ == old(self)@,
    {
        let i = match self.find_index(id) {
            Some(i) => i,
            None => {
                return Err(AuthError::NotFound);
            },
        };
        let ghost old_rows = self.rows();
        let old_client = self.clients.remove(i);
        let new_client = ApiClient {
            name: Some(name.to_owned()),
            token: old_client.token,
            permissions,
            created_at: old_client.created_at,
            updated_at: now_ms,
            created_by: old_client.created_by,
        };
        proof {
            use_type_invariant(&permissions);
            lemma_permission_valid(permissions);
            assert(self.rows() =~= old_rows.remove(i as int));
            lemma_map_of_remove(old_rows, i as int);
            assert(new_client@ == updated_view(old_rows[i as int], name@, permissions@, now_ms as int));
        }
        let ghost mid_rows = self.rows();
        self.clients.push(new_client);
        proof {
            assert(self.rows() =~= mid_rows.push(new_client@));
            lemma_map_of_push(mid_rows, new_client@);
            // distinctness: the removed row was the only one with this id
            assert forall|k: int|
                0 <= k < mid_rows.len() implies (#[trigger] mid_rows[k]).token.id
                != new_client@.token.id by {
                if k < i {
                    assert(mid_rows[k] == old_rows[k]);
                } else {
                    assert(mid_rows[k] == old_rows[k + 1]);
                }
            }
            assert forall|a: int, b: int|
                0 <= a < b < mid_rows.push(new_client@).len() implies (#[trigger] mid_rows.push(
                new_client@,
            )[a]).token.id != (#[trigger] mid_rows.push(new_client@)[b]).token.id by {
                if b < mid_rows.len() {
                } else {
                    assert(mid_rows.push(new_client@)[b] == new_client@);
                    assert(mid_rows.push(new_client@)[a] == mid_rows[a]);
                }
            }
            assert(old_rows.remove(i as int).push(new_client@) =~= self.rows());
            assert(map_of(old_rows).remove(id@).insert(id@, new_client@) =~= map_of(
                old_rows,
            ).insert(id@, new_client@));
            assert(stored_wf(old_rows[i as int]));
            assert forall|k: int|
                0 <= k < self.rows().len() implies stored_wf(#[trigger] self.rows()[k]) by {
                if k < mid_rows.len() {
                    assert(self.rows()[k] == mid_rows[k]);
                    let rk: int = if k < i { k } else { k + 1 };
                    assert(mid_rows[k] == old_rows[rk]);
                    assert(stored_wf(old_rows[rk]));
                } else {
                    assert(self.rows()[k] == new_client@);
                }
            }
        }
        Ok(())
    }

    /// Removes a client and its permission bits in one step. Deleting an id
    /// that does not exist is not an error: the call is idempotent.
    pub fn delete(&mut self, id: &str)
        requires
            old(self).wf(),
        ensures
            final(self).wf(),
            final(self)@ == old(self)@.remove(id@),
    {
        let ghost old_rows = self.rows();
        match self.find_index(id) {
            Some(i) => {
                self.clients.remove(i);
                proof {
                    assert(self.rows() =~= old_rows.remove(i as int));
                    lemma_map_of_remove(old_rows, i as int);
                    assert forall|a: int, b: int|
                        0 <= a < b < self.rows().len() implies (#[trigger] self.rows()[a]).token.id
                        != (#[trigger] self.rows()[b]).token.id by {
                        let ra = if a < i { a } else { a + 1 };
                        let rb = if b < i { b } else { b + 1 };
                        assert(self.rows()[a] == old_rows[ra]);
                        assert(self.rows()[b] == old_rows[rb]);
                    }
                }
            },
            None => {
                proof {
                    assert(self@ =~= old(self)@.remove(id@));
                }
            },
        }
    }
}

/// Everything `create` promises of a fresh client `c` against the store
/// before (`old_m`) and after (`new_m`): a generated id and secret of the
/// fixed sizes (22 and 86 unpadded-Base64 characters, from 16 and 64 random
/// bytes), a hash that verifies the secret, the submitted fields, audit
/// stamps set to the creation instant, and the record — hash only —
/// inserted under a fresh id.
pub open spec fn created_ok(
    old_m: Map<Seq<char>, ApiClientView>,
    new_m: Map<Seq<char>, ApiClientView>,
    c: ApiClientView,
    name: Seq<char>,
    perms: u64,
    created_by: Option<Seq<char>>,
    now: int,
) -> bool {
    &&& generated_word(c.token.id) && c.token.id.len() == TOKEN_ID_CHARS
    &&& c.token.key_raw matches Some(k) && generated_word(k) && k.len() == TOKEN_SECRET_CHARS
    &&& c.token.key_hash matches Some(h) && (c.token.key_raw matches Some(k) ==> verifies(k, h))
    &&& c.name == Some(name)
    &&& c.permissions == perms
    &&& c.created_at == now
    &&& c.updated_at == now
    &&& c.created_by == created_by
    &&& !old_m.contains_key(c.token.id)
    &&& new_m == old_m.insert(c.token.id, stored_of(c))
}

/// What `load_and_verify` returns for a given store and token: the stored
/// record exactly when the token parses, its id resolves, and its secret
/// verifies against the stored hash; the one error `AuthenticationFailed`
/// otherwise.
pub open spec fn lav_spec(m: Map<Seq<char>, ApiClientView>, token: Seq<char>) -> Result<
    ApiClientView,
    AuthError,
> {
    match parse_token(token) {
        None => Err(AuthError::AuthenticationFailed),
        Some(p) => if m.contains_key(p.0) {
            match m[p.0].token.key_hash {
                Some(h) => if verifies(p.1, h) {
                    Ok(m[p.0])
                } else {
                    Err(AuthError::AuthenticationFailed)
                },
                None => Err(AuthError::AuthenticationFailed),
            }
        } else {
            Err(AuthError::AuthenticationFailed)
        },
    }
}

/// Issuance round trip: a client fresh out of `create`, presented by the
/// token `"{id}_{secret}"` it was issued with, is exactly what
/// `load_and_verify` resolves against the new store — same id, name and
/// permissions, with the raw secret no longer present.
pub proof fn lemma_create_then_load_and_verify(
    m: Map<Seq<char>, ApiClientView>,
    c: ApiClientView,
)
    requires
        generated_word(c.token.id),
        c.token.key_raw matches Some(k) && generated_word(k),
        c.token.key_hash matches Some(h) && (c.token.key_raw matches Some(k) ==> verifies(k, h)),
    ensures
        ({
            let m2 = m.insert(c.token.id, stored_of(c));
            let token = spec_format_token(c.token.id, c.token.key_raw.unwrap());
            &&& lav_spec(m2, token) == Ok::<ApiClientView, AuthError>(stored_of(c))
            &&& stored_of(c).token.id == c.token.id
            &&& stored_of(c).name == c.name
            &&& stored_of(c).permissions == c.permissions
            &&& stored_of(c).token.key_raw is None
        }),
{
    let k = c.token.key_raw.unwrap();
    assert forall|i: int| 0 <= i < c.token.id.len() implies c.token.id[i] != '_' by {
        lemma_base64_char_plain(c.token.id[i]);
    }
    lemma_token_roundtrip(c.token.id, k);
    let m2 = m.insert(c.token.id, stored_of(c));
    assert(m2.contains_key(c.token.id));
    assert(m2[c.token.id] == stored_of(c));
}

/// Deleting twice is idempotent: the second call finds nothing, errors
/// nothing, and leaves no residual record under the id.
pub proof fn lemma_delete_idempotent(m: Map<Seq<char>, ApiClientView>, id: Seq<char>)
    ensures
        m.remove(id).remove(id) == m.remove(id),
        !m.remove(id).contains_key(id),
{
    assert(m.remove(id).remove(id) =~= m.remove(id));
}

/// Two sequential updates of the same record leave it exactly in the state
/// the later call submitted: name, permissions and update timestamp all from
/// that call, creation fields from the original record — never a mix of the
/// two submissions.
pub proof fn lemma_update_last_writer_wins(
    m: Map<Seq<char>, ApiClientView>,
    id: Seq<char>,
    name1: Seq<char>,
    perms1: u64,
    now1: int,
    name2: Seq<char>,
    perms2: u64,
    now2: int,
)
    requires
        m.contains_key(id),
        m[id].token.id == id,
    ensures
        ({
            let m1 = m.insert(id, updated_view(m[id], name1, perms1, now1));
            let m2 = m1.insert(id, updated_view(m1[id], name2, perms2, now2));
            m2[id] == updated_view(m[id], name2, perms2, now2)
        }),
{
}

} // verus!
