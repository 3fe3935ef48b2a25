use meilisearch_lib::action::Action;
use meilisearch_lib::api_key::{generate_key, AuthParam, KeyView};
use meilisearch_lib::key::Key;
use sha2::{Digest, Sha256};

fn expected_credential(master: &str, uid: &str) -> String {
    let sha = Sha256::digest(format!("{}-{}", uid, master).as_bytes());
    format!("{}-{:x}", uid, sha)
}

#[test]
fn generate_key_matches_the_documented_derivation() {
    let derived = generate_key("masterSecret", "abcd1234");
    assert_eq!(derived, expected_credential("masterSecret", "abcd1234"));
    assert!(derived.starts_with("abcd1234-"));
    // the digest part is 64 lowercase hexadecimal characters
    assert_eq!(derived.len(), "abcd1234".len() + 1 + 64);

    // an empty master secret still derives, and differently
    let unkeyed = generate_key("", "abcd1234");
    assert_eq!(unkeyed, expected_credential("", "abcd1234"));
    assert_ne!(unkeyed, derived);
}

#[test]
fn key_view_carries_the_record_and_derives_the_credential() {
    let key = Key {
        id: *b"abcd1234",
        description: Some(String::from("search only")),
        actions: vec![Action::Search],
        indexes: vec![String::from("movies")],
        expires_at: 4102444800,
        created_at: 1,
        updated_at: 2,
    };
    let master = String::from("masterSecret");
    let view = KeyView::from_key(key, Some(&master)).unwrap();
    assert_eq!(view.key, expected_credential("masterSecret", "abcd1234"));
    assert_eq!(view.description.as_deref(), Some("search only"));
    assert_eq!(view.actions, vec![Action::Search]);
    assert_eq!(view.indexes, vec![String::from("movies")]);
    assert_eq!(view.expires_at, 4102444800);

    let key2 = Key {
        id: *b"abcd1234",
        description: None,
        actions: vec![],
        indexes: vec![],
        expires_at: 0,
        created_at: 0,
        updated_at: 0,
    };
    let view2 = KeyView::from_key(key2, None).unwrap();
    assert_eq!(view2.key, expected_credential("", "abcd1234"));
}

#[test]
fn key_view_refuses_an_unspellable_identifier() {
    let key = Key {
        id: [0xff; 8],
        description: None,
        actions: vec![],
        indexes: vec![],
        expires_at: 0,
        created_at: 0,
        updated_at: 0,
    };
    assert!(KeyView::from_key(key, None).is_none());
}

#[test]
fn auth_param_exposes_the_credential() {
    let param = AuthParam { api_key: String::from("abcd1234-rest") };
    assert_eq!(&param.api_key[..8], "abcd1234");
}
