use asset_files::token::{validator, AuthError, Method, Token, TokenMap};

fn record(name: &str, token: &str) -> Token {
    Token { name: name.to_string(), token: token.to_string() }
}

fn table() -> TokenMap {
    Token::load_map(Some(vec![record("alice", "s3cret"), record("bob", "hunter2")]))
}

#[test]
fn load_keeps_the_records_of_a_readable_source() {
    let tokens = Token::load(Some(vec![record("alice", "s3cret"), record("bob", "hunter2")]));
    assert_eq!(tokens.len(), 2);
    assert_eq!(tokens[0].name, "alice");
    assert_eq!(tokens[0].token, "s3cret");
    assert_eq!(tokens[1].name, "bob");
    assert_eq!(tokens[1].token, "hunter2");
}

#[test]
fn load_of_a_failed_source_is_empty() {
    assert!(Token::load(None).is_empty());
    assert!(Token::load_map(None).is_empty());
}

#[test]
fn load_map_indexes_by_secret() {
    let table = table();
    assert!(!table.is_empty());
    assert_eq!(table.get("s3cret"), Some(&"alice".to_string()));
    assert_eq!(table.get("hunter2"), Some(&"bob".to_string()));
    assert_eq!(table.get("alice"), None);
}

#[test]
fn load_map_later_record_wins() {
    let table = Token::load_map(Some(vec![
        record("alice", "shared"),
        record("bob", "other"),
        record("carol", "shared"),
    ]));
    assert_eq!(table.get("shared"), Some(&"carol".to_string()));
    assert_eq!(table.get("other"), Some(&"bob".to_string()));
}

#[test]
fn token_map_insert_replaces() {
    let mut table = TokenMap::new();
    assert!(table.is_empty());
    table.insert("k".to_string(), "first".to_string());
    table.insert("k".to_string(), "second".to_string());
    assert_eq!(table.get("k"), Some(&"second".to_string()));
}

#[test]
fn failed_source_leaves_the_service_open() {
    let table = Token::load_map(None);
    assert_eq!(validator(Some(&table), Method::Post, None), Ok(None));
    assert_eq!(validator(Some(&table), Method::Delete, Some("anything")), Ok(None));
    assert_eq!(validator(Some(&table), Method::Get, None), Ok(None));
}

#[test]
fn empty_table_passes_with_or_without_credential() {
    let table = TokenMap::new();
    assert_eq!(validator(Some(&table), Method::Put, None), Ok(None));
    assert_eq!(validator(Some(&table), Method::Put, Some("s3cret")), Ok(None));
}

#[test]
fn missing_table_passes() {
    assert_eq!(validator(None, Method::Post, None), Ok(None));
    assert_eq!(validator(None, Method::Post, Some("s3cret")), Ok(None));
}

#[test]
fn known_secret_resolves_to_its_name() {
    let table = table();
    assert_eq!(validator(Some(&table), Method::Post, Some("s3cret")), Ok(Some("alice".to_string())));
    assert_eq!(validator(Some(&table), Method::Put, Some("hunter2")), Ok(Some("bob".to_string())));
    assert_eq!(validator(Some(&table), Method::Delete, Some("s3cret")), Ok(Some("alice".to_string())));
}

#[test]
fn reads_are_never_turned_away() {
    let table = table();
    assert_eq!(validator(Some(&table), Method::Get, None), Ok(None));
    assert_eq!(validator(Some(&table), Method::Get, Some("wrong")), Ok(None));
}

#[test]
fn known_secret_is_resolved_on_a_read() {
    let table = table();
    assert_eq!(validator(Some(&table), Method::Get, Some("s3cret")), Ok(Some("alice".to_string())));
}

#[test]
fn missing_credential_is_a_bad_request() {
    let table = table();
    assert_eq!(validator(Some(&table), Method::Post, None), Err(AuthError::BadRequest));
    assert_eq!(validator(Some(&table), Method::Head, None), Err(AuthError::BadRequest));
}

#[test]
fn unknown_secret_is_unauthorized() {
    let table = table();
    assert_eq!(validator(Some(&table), Method::Post, Some("wrong")), Err(AuthError::Unauthorized));
    assert_eq!(validator(Some(&table), Method::Patch, Some("alice")), Err(AuthError::Unauthorized));
    assert_eq!(validator(Some(&table), Method::Post, Some("")), Err(AuthError::Unauthorized));
}
