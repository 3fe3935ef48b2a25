use meilisearch_lib::action::Action;
use meilisearch_lib::auth_store::{AuthStore, AuthStoreError};
use meilisearch_lib::codec::ActionKeyIdCodec;
use meilisearch_lib::key::Key;

fn sample_key(id: [u8; 8], actions: Vec<Action>, indexes: Vec<&str>) -> Key {
    Key {
        id,
        description: Some(String::from("test credential")),
        actions,
        indexes: indexes.into_iter().map(String::from).collect(),
        expires_at: 4102444800,
        created_at: 1000,
        updated_at: 2000,
    }
}

#[test]
fn put_then_get_returns_the_record() {
    let mut store = AuthStore::new();
    let key = sample_key(*b"abcd1234", vec![Action::Search], vec!["movies"]);
    let stored = store.put_api_key(key.clone()).unwrap();
    assert_eq!(stored, key);

    // lookup goes by the eight-byte identifier prefix of the credential
    let found = store
        .get_api_key("abcd1234-0011223344556677889900112233445566778899001122334455667788990011")
        .unwrap()
        .unwrap();
    assert_eq!(found.actions, key.actions);
    assert_eq!(found.indexes, key.indexes);
    assert_eq!(found.expires_at, key.expires_at);

    let listed = store.list_api_keys().unwrap();
    assert_eq!(listed.len(), 1);
    assert_eq!(listed[0].id, *b"abcd1234");
}

#[test]
fn get_with_unknown_or_short_credential() {
    let store = AuthStore::new();
    assert!(store.get_api_key("abcd1234-rest").unwrap().is_none());
    assert!(store.get_api_key("short").unwrap().is_none());
}

#[test]
fn delete_purges_record_and_inverted_entries() {
    let mut store = AuthStore::new();
    let key = sample_key(*b"abcd1234", vec![Action::Search, Action::DocumentsAdd], vec![
        "movies", "books",
    ]);
    store.put_api_key(key).unwrap();
    assert_eq!(store.prefix_scan(b"abcd1234").len(), 4);

    let existed = store.delete_api_key("abcd1234-suffix").unwrap();
    assert!(existed);
    assert!(store.get_api_key("abcd1234-suffix").unwrap().is_none());
    assert_eq!(store.prefix_scan(b"abcd1234").len(), 0);

    // deleting again reports that nothing existed
    assert!(!store.delete_api_key("abcd1234-suffix").unwrap());
}

#[test]
fn second_put_replaces_all_inverted_entries() {
    let mut store = AuthStore::new();
    let first = sample_key(*b"abcd1234", vec![Action::Search], vec!["movies", "books"]);
    store.put_api_key(first).unwrap();

    let second = sample_key(*b"abcd1234", vec![Action::DocumentsDelete], vec!["games"]);
    store.put_api_key(second.clone()).unwrap();

    let entries = store.prefix_scan(b"abcd1234");
    assert_eq!(entries.len(), 1);
    let expected = ActionKeyIdCodec::bytes_encode(b"abcd1234", &Action::DocumentsDelete, Some("games"));
    assert_eq!(entries[0].0, expected);
    assert_eq!(entries[0].1, second.expires_at);

    let listed = store.list_api_keys().unwrap();
    assert_eq!(listed.len(), 1);
    assert_eq!(listed[0].actions, vec![Action::DocumentsDelete]);
}

#[test]
fn wildcard_key_writes_one_scopeless_entry_per_action() {
    let mut store = AuthStore::new();
    let key = sample_key(*b"abcd1234", vec![Action::DocumentsAdd], vec!["*"]);
    store.put_api_key(key.clone()).unwrap();

    let entries = store.prefix_scan(b"abcd1234");
    assert_eq!(entries.len(), 1);
    let expected = ActionKeyIdCodec::bytes_encode(b"abcd1234", &Action::DocumentsAdd, None);
    assert_eq!(entries[0].0, expected);
    assert_eq!(entries[0].1, key.expires_at);
}

#[test]
fn scoped_key_writes_one_entry_per_action_and_index() {
    let mut store = AuthStore::new();
    let key = sample_key(*b"abcd1234", vec![Action::Search], vec!["movies", "books"]);
    store.put_api_key(key).unwrap();

    let mut entries = store.prefix_scan(b"abcd1234");
    entries.sort();
    let mut expected = vec![
        ActionKeyIdCodec::bytes_encode(b"abcd1234", &Action::Search, Some("movies")),
        ActionKeyIdCodec::bytes_encode(b"abcd1234", &Action::Search, Some("books")),
    ];
    expected.sort();
    assert_eq!(entries.len(), 2);
    assert_eq!(entries[0].0, expected[0]);
    assert_eq!(entries[1].0, expected[1]);
    // no wildcard entry was written
    let wildcard = ActionKeyIdCodec::bytes_encode(b"abcd1234", &Action::Search, None);
    assert!(entries.iter().all(|e| e.0 != wildcard));
}

#[test]
fn puts_on_distinct_ids_both_land() {
    let mut store = AuthStore::new();
    let k1 = sample_key(*b"aaaa1111", vec![Action::Search], vec!["movies"]);
    let k2 = sample_key(*b"bbbb2222", vec![Action::DocumentsAdd], vec!["*"]);
    store.put_api_key(k1).unwrap();
    store.put_api_key(k2).unwrap();

    let listed = store.list_api_keys().unwrap();
    assert_eq!(listed.len(), 2);
    let ids: Vec<[u8; 8]> = listed.iter().map(|k| k.id).collect();
    assert!(ids.contains(&*b"aaaa1111"));
    assert!(ids.contains(&*b"bbbb2222"));
    assert_eq!(store.prefix_scan(b"aaaa1111").len(), 1);
    assert_eq!(store.prefix_scan(b"bbbb2222").len(), 1);
}

#[test]
fn empty_index_pattern_is_rejected() {
    let mut store = AuthStore::new();
    let key = sample_key(*b"abcd1234", vec![Action::Search], vec![""]);
    assert_eq!(store.put_api_key(key), Err(AuthStoreError::EmptyIndexPattern));
    assert_eq!(store.list_api_keys().unwrap().len(), 0);
}
