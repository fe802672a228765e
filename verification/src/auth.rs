//! Token issuance and credential hashing: a memory-hard hasher configuration
//! (`Auth`), the two-part bearer token (`AuthToken`), and the codec that
//! formats and parses the `"{id}_{secret}"` wire form.
//!
//! The id and secret are drawn from the OS CSPRNG and Base64-encoded without
//! padding; the secret is hashed with Argon2 before it is ever stored, and
//! the raw value exists only at issuance time and on the wire.

use vstd::prelude::*;
use vstd::string::{StrSliceExecFns, StringExecFns};
use crate::error::AuthError;
use crate::scan::{
    split_at_first, find_char, str_eq, lemma_split_none, lemma_split_at_index,
    lemma_split_of_concat,
};

verus! {

#[verifier::external_type_specification]
#[verifier::external_body]
pub struct ExArgon2<'k>(argon2::Argon2<'k>);

#[verifier::external_type_specification]
#[verifier::external_body]
pub struct ExSaltString(password_hash::SaltString);

/// Whether Argon2 verification of `secret` against the PHC hash string
/// `hash` succeeds. For the default, secret-less hasher this is a function
/// of the two strings alone: the algorithm, parameters and salt are all
/// embedded in the hash string, and a string that is no PHC hash verifies
/// nothing.
pub uninterp spec fn verifies(secret: Seq<char>, hash: Seq<char>) -> bool;

/// Relies on `argon2::Argon2::default`: the recommended Argon2id
/// configuration, with no keyed secret.
#[verifier::external_body]
fn argon2_default() -> argon2::Argon2<'static> {
    argon2::Argon2::default()
}

/// Relies on `password_hash::SaltString::generate` with the OS CSPRNG: a
/// fresh random salt; nothing is promised of its value.
#[verifier::external_body]
fn generate_salt() -> password_hash::SaltString {
    password_hash::SaltString::generate(&mut rand::rngs::OsRng)
}

/// Relies on `rand::rngs::OsRng` and `RngCore::fill_bytes`: `n` bytes from
/// the OS CSPRNG. Nothing is promised of their values; an unavailable OS RNG
/// aborts the process, which the service treats as fatal.
#[verifier::external_body]
fn random_bytes(n: usize) -> (r: Vec<u8>)
    ensures
        r@.len() == n,
{
    let mut buf = vec![0u8; n];
    rand::RngCore::fill_bytes(&mut rand::rngs::OsRng, &mut buf);
    buf
}

/// The standard Base64 alphabet, which contains neither `'_'` nor a space.
pub open spec fn is_base64_char(c: char) -> bool {
    ('A' <= c && c <= 'Z') || ('a' <= c && c <= 'z') || ('0' <= c && c <= '9') || c == '+' || c
        == '/'
}

/// Relies on `base64ct::Base64Unpadded::encode_string`: standard Base64
/// without padding, `ceil(4n/3)` characters drawn from `[A-Za-z0-9+/]`.
#[verifier::external_body]
fn base64_encode(bytes: &Vec<u8>) -> (r: String)
    requires
        bytes@.len() < usize::MAX / 4,
    ensures
        r@.len() == (4 * bytes@.len() + 2) / 3,
        forall|i: int| 0 <= i < r@.len() ==> is_base64_char(#[trigger] r@[i]),
{
    <base64ct::Base64Unpadded as base64ct::Encoding>::encode_string(bytes.as_slice())
}

/// Relies on `PasswordHasher::hash_password` (argon2): on success the
/// returned PHC string verifies, by `verify_password`, exactly the hashed
/// secret — the password-hash crate computes the digest from the secret and
/// the given salt and embeds algorithm, parameters, salt and digest in the
/// string.
#[verifier::external_body]
fn hash_password(
    argon: &argon2::Argon2<'static>,
    secret: &str,
    salt: &password_hash::SaltString,
) -> (r: Result<String, AuthError>)
    ensures
        r matches Ok(h) ==> verifies(secret@, h@) && h@.len() > 0,
        r matches Err(e) ==> e == AuthError::HashingError,
{
    match password_hash::PasswordHasher::hash_password(argon, secret.as_bytes(), salt) {
        Ok(h) => Ok(h.to_string()),
        Err(_) => Err(AuthError::HashingError),
    }
}

/// Relies on `password_hash::PasswordHash::new` and
/// `PasswordVerifier::verify_password` (argon2): verification re-computes the
/// digest with the parameters and salt embedded in the hash string and
/// compares in constant time, so for the default secret-less hasher the
/// outcome depends on the two strings alone.
#[verifier::external_body]
fn check_password(argon: &argon2::Argon2<'static>, secret: &str, hash: &str) -> (r: bool)
    ensures
        r == verifies(secret@, hash@),
{
    match password_hash::PasswordHash::new(hash) {
        Ok(parsed) => password_hash::PasswordVerifier::verify_password(
            argon,
            secret.as_bytes(),
            &parsed,
        ).is_ok(),
        Err(_) => false,
    }
}

/// The process-wide credential hasher: immutable configuration, shared
/// read-only by every request. Its only constructor is `default`, so every
/// instance carries the same recommended parameters.
pub struct Auth {
    argon: argon2::Argon2<'static>,
}

impl Default for Auth {
    fn default() -> (a: Auth) {
        Auth { argon: argon2_default() }
    }
}

impl Auth {
    /// Hashes a secret under a fresh random salt. An empty secret is refused;
    /// a returned hash string always verifies the hashed secret.
    pub fn hash_secret(&self, secret: &str) -> (r: Result<String, AuthError>)
        ensures
            r matches Ok(h) ==> verifies(secret@, h@) && h@.len() > 0 && secret@.len() > 0,
            r matches Err(e) ==> e == AuthError::HashingError,
            secret@.len() == 0 ==> r is Err,
    {
        if secret.unicode_len() == 0 {
            return Err(AuthError::HashingError);
        }
        let salt = generate_salt();
        hash_password(&self.argon, secret, &salt)
    }

    /// True iff the presented secret matches the stored hash. Every
    /// verification re-hashes; nothing is cached.
    pub fn verify_secret(&self, secret: &str, hash: &str) -> (r: bool)
        ensures
            r == verifies(secret@, hash@),
    {
        check_password(&self.argon, secret, hash)
    }
}

/// The separator between the id and the secret on the wire. It is not in the
/// Base64 alphabet, so it cannot occur inside a generated id.
pub const TOKEN_SEPARATOR: char = '_';

/// The Base64 alphabet avoids the token separator and spaces.
pub proof fn lemma_base64_char_plain(c: char)
    requires
        is_base64_char(c),
    ensures
        c != '_',
        c != ' ',
{
}

/// The wire form of a token: `"{id}_{secret}"`.
pub open spec fn spec_format_token(id: Seq<char>, key: Seq<char>) -> Seq<char> {
    id + seq!['_'] + key
}

/// The parse of a bearer token: split at the first `'_'`; both parts must be
/// non-empty, and any further separators stay part of the secret.
pub open spec fn parse_token(t: Seq<char>) -> Option<(Seq<char>, Seq<char>)> {
    match split_at_first('_', t) {
        Some(p) => if p.0.len() > 0 && p.1.len() > 0 {
            Some(p)
        } else {
            None
        },
        None => None,
    }
}

/// Formatting then parsing gives the same id and secret back, for every id
/// free of the separator — in particular for every generated id.
pub proof fn lemma_token_roundtrip(id: Seq<char>, key: Seq<char>)
    requires
        id.len() > 0,
        key.len() > 0,
        forall|i: int| 0 <= i < id.len() ==> id[i] != '_',
    ensures
        parse_token(spec_format_token(id, key)) == Some((id, key)),
{
    lemma_split_of_concat('_', id, key);
}

/// Formats a token for the wire.
pub fn format_token(id: &str, key: &str) -> (r: String)
    ensures
        r@ == spec_format_token(id@, key@),
{
    let mut out = id.to_owned();
    out.append("_");
    out.append(key);
    proof {
        reveal_strlit("_");
        assert(id@ + "_"@ + key@ =~= spec_format_token(id@, key@));
    }
    out
}

/// Splits a bearer token into its id and secret at the first separator.
/// A token with no separator, or with an empty id or secret, is malformed.
pub fn extract_id_key(key: &str) -> (r: Result<(String, String), AuthError>)
    ensures
        match parse_token(key@) {
            Some(p) => r is Ok && (r matches Ok(ik) ==> ik.0@ == p.0 && ik.1@ == p.1),
            None => r == Err::<(String, String), AuthError>(AuthError::MalformedToken),
        },
{
    let n = key.unicode_len();
    match find_char(key, TOKEN_SEPARATOR) {
        Some(i) => {
            proof {
                lemma_split_at_index('_', key@, i as int);
            }
            if i == 0 || i + 1 == n {
                Err(AuthError::MalformedToken)
            } else {
                let id = key.substring_char(0, i);
                let secret = key.substring_char(i + 1, n);
                Ok((id.to_owned(), secret.to_owned()))
            }
        },
        None => {
            proof {
                lemma_split_none('_', key@);
            }
            Err(AuthError::MalformedToken)
        },
    }
}

/// A transient bearer credential: the client id it authenticates, the stored
/// hash of the secret when loaded from storage, and the raw secret only at
/// issuance time or when parsed off the wire. The raw secret is never
/// persisted.
pub struct AuthToken {
    pub id: String,
    pub key_hash: Option<String>,
    pub key_raw: Option<String>,
}

/// The mathematical shadow of an `AuthToken`.
pub struct AuthTokenView {
    pub id: Seq<char>,
    pub key_hash: Option<Seq<char>>,
    pub key_raw: Option<Seq<char>>,
}

impl View for AuthToken {
    type V = AuthTokenView;

    open spec fn view(&self) -> AuthTokenView {
        AuthTokenView {
            id: self.id@,
            key_hash: match self.key_hash {
                Some(h) => Some(h@),
                None => None,
            },
            key_raw: match self.key_raw {
                Some(k) => Some(k@),
                None => None,
            },
        }
    }
}

/// A generated id or secret: non-empty, and made only of Base64 characters,
/// so it can never contain the token separator.
pub open spec fn generated_word(s: Seq<char>) -> bool {
    s.len() > 0 && forall|i: int| 0 <= i < s.len() ==> is_base64_char(#[trigger] s[i])
}

/// How many CSPRNG bytes make an id.
pub const TOKEN_ID_BYTES: usize = 16;

/// How many CSPRNG bytes make a secret.
pub const TOKEN_SECRET_BYTES: usize = 64;

/// The id on the wire: 16 bytes of unpadded Base64 are 22 characters.
pub const TOKEN_ID_CHARS: usize = 22;

/// The secret on the wire: 64 bytes of unpadded Base64 are 86 characters.
pub const TOKEN_SECRET_CHARS: usize = 86;

impl AuthToken {
    /// Issues a fresh token: a 16-byte random id and a 64-byte random
    /// secret, both Base64-encoded without padding, with the secret hashed
    /// under a fresh salt. Fails only if the hasher does.
    pub fn new(auth: &Auth) -> (r: Result<AuthToken, AuthError>)
        ensures
            r matches Ok(t) ==> {
                &&& generated_word(t@.id) && t@.id.len() == TOKEN_ID_CHARS
                &&& t@.key_raw matches Some(k) && generated_word(k) && k.len()
                    == TOKEN_SECRET_CHARS
                &&& t@.key_hash matches Some(h) && (t@.key_raw matches Some(k) ==> verifies(k, h))
            },
            r matches Err(e) ==> e == AuthError::HashingError,
    {
        let key_bytes = random_bytes(TOKEN_SECRET_BYTES);
        let key = base64_encode(&key_bytes);
        let id_bytes = random_bytes(TOKEN_ID_BYTES);
        let id = base64_encode(&id_bytes);
        let key_hash = match auth.hash_secret(key.as_str()) {
            Ok(h) => h,
            Err(e) => {
                return Err(e);
            },
        };
        Ok(AuthToken { id, key_hash: Some(key_hash), key_raw: Some(key) })
    }

    /// Rebuilds a token from a stored record: id and stored hash, no raw
    /// secret.
    pub fn from(id: String, hash: String) -> (t: AuthToken)
        ensures
            t@.id == id@,
            t@.key_hash == Some(hash@),
            t@.key_raw is None,
    {
        AuthToken { id, key_hash: Some(hash), key_raw: None }
    }

    /// Parses a token off the wire: id and raw secret, nothing verified yet.
    pub fn from_raw_str(token: &str) -> (r: Result<AuthToken, AuthError>)
        ensures
            match parse_token(token@) {
                Some(p) => r is Ok && (r matches Ok(t) ==> t@.id == p.0 && t@.key_raw == Some(p.1)
                    && t@.key_hash is None),
                None => r == Err::<AuthToken, AuthError>(AuthError::MalformedToken),
            },
    {
        match extract_id_key(token) {
            Ok((id, key)) => Ok(AuthToken { id, key_hash: None, key_raw: Some(key) }),
            Err(e) => Err(e),
        }
    }

    /// The wire form `"{id}_{secret}"` of a freshly issued token. This is
    /// the one place a raw secret is serialized; a token loaded from storage
    /// has no raw secret and cannot be written out.
    pub fn token_string(&self) -> (r: String)
        requires
            self@.key_raw is Some,
        ensures
            r@ == spec_format_token(self@.id, self@.key_raw.unwrap()),
    {
        match &self.key_raw {
            Some(k) => format_token(self.id.as_str(), k.as_str()),
            None => {
                proof {
                    assert(false);
                }
                String::new()
            },
        }
    }
}

/// The required form of the `Authorization` header value.
pub open spec fn bearer_prefix() -> Seq<char> {
    seq!['B', 'e', 'a', 'r', 'e', 'r', ' ']
}

/// The token carried by a well-formed `Authorization` header value.
pub open spec fn bearer_token_of(h: Seq<char>) -> Option<Seq<char>> {
    if h.len() >= 7 && h.subrange(0, 7) == bearer_prefix() {
        Some(h.subrange(7, h.len() as int))
    } else {
        None
    }
}

/// Reads the bearer token out of an `Authorization` header value: an absent
/// header is `MissingHeader`, one not of the form `Bearer <token>` is
/// `MalformedHeader`.
pub fn extract_auth_header(header: Option<&str>) -> (r: Result<String, AuthError>)
    ensures
        header is None ==> r == Err::<String, AuthError>(AuthError::MissingHeader),
        header matches Some(h) ==> match bearer_token_of(h@) {
            Some(t) => r is Ok && (r matches Ok(s) ==> s@ == t),
            None => r == Err::<String, AuthError>(AuthError::MalformedHeader),
        },
{
    match header {
        None => Err(AuthError::MissingHeader),
        Some(h) => {
            let n = h.unicode_len();
            if n < 7 {
                return Err(AuthError::MalformedHeader);
            }
            let prefix = h.substring_char(0, 7);
            proof {
                reveal_strlit("Bearer ");
                assert("Bearer "@ =~= bearer_prefix());
            }
            if str_eq(prefix, "Bearer ") {
                Ok(h.substring_char(7, n).to_owned())
            } else {
                Err(AuthError::MalformedHeader)
            }
        },
    }
}

} // verus!
