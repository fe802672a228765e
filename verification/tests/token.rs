use model_runner::auth::{extract_auth_header, extract_id_key, format_token, AuthToken};
use model_runner::error::AuthError;

#[test]
fn parse_rejects_zero_separators() {
    assert_eq!(extract_id_key("bogus"), Err(AuthError::MalformedToken));
    assert_eq!(extract_id_key(""), Err(AuthError::MalformedToken));
}

#[test]
fn parse_splits_on_single_separator() {
    let (id, key) = extract_id_key("client_secret").unwrap();
    assert_eq!(id, "client");
    assert_eq!(key, "secret");
}

#[test]
fn parse_splits_only_at_first_separator() {
    // extra separators stay part of the secret, never re-split
    let (id, key) = extract_id_key("id_a_b_c").unwrap();
    assert_eq!(id, "id");
    assert_eq!(key, "a_b_c");
}

#[test]
fn parse_rejects_empty_segments() {
    assert_eq!(extract_id_key("_secret"), Err(AuthError::MalformedToken));
    assert_eq!(extract_id_key("id_"), Err(AuthError::MalformedToken));
    assert_eq!(extract_id_key("_"), Err(AuthError::MalformedToken));
    assert_eq!(extract_id_key("__"), Err(AuthError::MalformedToken));
}

#[test]
fn format_then_parse_round_trip() {
    let token = format_token("abc", "d_ef");
    assert_eq!(token, "abc_d_ef");
    let (id, key) = extract_id_key(&token).unwrap();
    assert_eq!(id, "abc");
    assert_eq!(key, "d_ef");
}

#[test]
fn header_extraction() {
    assert_eq!(extract_auth_header(None), Err(AuthError::MissingHeader));
    assert_eq!(
        extract_auth_header(Some("Token abc")),
        Err(AuthError::MalformedHeader)
    );
    assert_eq!(extract_auth_header(Some("Bearer")), Err(AuthError::MalformedHeader));
    assert_eq!(extract_auth_header(Some("bearer x_y")), Err(AuthError::MalformedHeader));
    assert_eq!(extract_auth_header(Some("Bearer x_y")).unwrap(), "x_y");
    // everything after the prefix is the token, verbatim
    assert_eq!(extract_auth_header(Some("Bearer  x")).unwrap(), " x");
}

#[test]
fn raw_token_parses_into_id_and_secret() {
    let t = AuthToken::from_raw_str("some_key").unwrap();
    assert_eq!(t.id, "some");
    assert_eq!(t.key_raw.as_deref(), Some("key"));
    assert!(t.key_hash.is_none());
    assert!(AuthToken::from_raw_str("nounderscore").is_err());
}

#[test]
fn stored_token_has_no_raw_secret() {
    let t = AuthToken::from("id".to_string(), "$argon2id$...".to_string());
    assert_eq!(t.id, "id");
    assert!(t.key_raw.is_none());
    assert!(t.key_hash.is_some());
}
