use meilisearch_lib::action::Action;
use meilisearch_lib::codec::{try_split_array_at, try_split_at, ActionKeyIdCodec};

#[test]
fn action_codes_are_stable() {
    assert_eq!(Action::All.repr(), 0);
    assert_eq!(Action::Search.repr(), 1);
    assert_eq!(Action::DocumentsAdd.repr(), 2);
    assert_eq!(Action::DocumentsDelete.repr(), 3);
    assert_eq!(Action::SettingsGet.repr(), 4);
    assert_eq!(Action::SettingsUpdate.repr(), 5);
    assert_eq!(Action::IndexesCreate.repr(), 6);
    assert_eq!(Action::IndexesDelete.repr(), 7);
    assert_eq!(Action::KeysManage.repr(), 8);
}

#[test]
fn action_code_roundtrip() {
    let actions = [
        Action::All,
        Action::Search,
        Action::DocumentsAdd,
        Action::DocumentsDelete,
        Action::SettingsGet,
        Action::SettingsUpdate,
        Action::IndexesCreate,
        Action::IndexesDelete,
        Action::KeysManage,
    ];
    for a in actions {
        assert_eq!(Action::from_repr(a.repr()), Some(a));
    }
    assert_eq!(Action::from_repr(9), None);
    assert_eq!(Action::from_repr(200), None);
}

#[test]
fn split_at_bounds() {
    let data = [1u8, 2, 3, 4];
    let (a, b) = try_split_at(&data, 1).unwrap();
    assert_eq!(a, &[1]);
    assert_eq!(b, &[2, 3, 4]);
    let (a, b) = try_split_at(&data, 4).unwrap();
    assert_eq!(a, &[1, 2, 3, 4]);
    assert_eq!(b.len(), 0);
    assert!(try_split_at(&data, 5).is_none());
}

#[test]
fn split_array_at_id_length() {
    let data = *b"abcd1234xyz";
    let (head, tail) = try_split_array_at(&data).unwrap();
    assert_eq!(&head, b"abcd1234");
    assert_eq!(tail, b"xyz");
    assert!(try_split_array_at(b"short").is_none());
}

#[test]
fn compound_key_roundtrip_wildcard() {
    let id = *b"abcd1234";
    let bytes = ActionKeyIdCodec::bytes_encode(&id, &Action::Search, None);
    assert_eq!(bytes.len(), 9);
    assert_eq!(&bytes[..8], b"abcd1234");
    assert_eq!(bytes[8], 1);
    let (did, daction, dscope) = ActionKeyIdCodec::bytes_decode(&bytes).unwrap();
    assert_eq!(did, id);
    assert_eq!(daction, Action::Search);
    assert_eq!(dscope, None);
}

#[test]
fn compound_key_roundtrip_scoped() {
    let id = *b"abcd1234";
    let bytes = ActionKeyIdCodec::bytes_encode(&id, &Action::DocumentsAdd, Some("movies"));
    assert_eq!(&bytes[..8], b"abcd1234");
    assert_eq!(bytes[8], 2);
    assert_eq!(&bytes[9..], b"movies");
    let (did, daction, dscope) = ActionKeyIdCodec::bytes_decode(&bytes).unwrap();
    assert_eq!(did, id);
    assert_eq!(daction, Action::DocumentsAdd);
    assert_eq!(dscope.as_deref(), Some("movies"));
}

#[test]
fn decode_rejects_corrupt_keys() {
    // too short to hold an identifier and an action code
    assert!(ActionKeyIdCodec::bytes_decode(b"abcd1234").is_none());
    assert!(ActionKeyIdCodec::bytes_decode(b"ab").is_none());
    // unrecognized action code
    let mut bytes = b"abcd1234".to_vec();
    bytes.push(250);
    assert!(ActionKeyIdCodec::bytes_decode(&bytes).is_none());
    // scope that is not valid UTF-8
    let mut bytes = b"abcd1234".to_vec();
    bytes.push(1);
    bytes.push(0xff);
    assert!(ActionKeyIdCodec::bytes_decode(&bytes).is_none());
    // the same key with a valid scope decodes
    let mut bytes = b"abcd1234".to_vec();
    bytes.push(1);
    bytes.push(b'x');
    assert!(ActionKeyIdCodec::bytes_decode(&bytes).is_some());
}
