use ducia::perm::{anonymous, Identity};
use ducia::session::{
    check_sequence, check_sequence_prefix, extract_bearer_or_session_token, extract_session_token,
    header_value, load_sequence, present_u64s, SessionStore,
};

fn headers(entries: &[(&str, &str)]) -> Vec<(String, String)> {
    entries.iter().map(|(k, v)| (k.to_string(), v.to_string())).collect()
}

#[test]
fn session_create_check_destroy() {
    let mut store = SessionStore::new();
    let id = anonymous();
    let token = store.create_session(&id);
    assert_eq!(token.len(), 36);
    let found = store.check_session(&token).unwrap();
    assert_eq!(found.id, "anonymous");
    assert_eq!(found.permissions, vec!["doc:read".to_string()]);
    store.destroy_session(&token);
    assert!(store.check_session(&token).is_none());
}

#[test]
fn sessions_are_independent() {
    let mut store = SessionStore::new();
    let a = Identity { id: "a".into(), roles: vec![], permissions: vec![], metadata: vec![] };
    let b = Identity { id: "b".into(), roles: vec![], permissions: vec![], metadata: vec![] };
    let ta = store.create_session(&a);
    let tb = store.create_session(&b);
    assert_ne!(ta, tb);
    store.destroy_session(&ta);
    assert!(store.check_session(&ta).is_none());
    assert_eq!(store.check_session(&tb).unwrap().id, "b");
    store.destroy_session("no-such-token");
    assert_eq!(store.check_session(&tb).unwrap().id, "b");
}

#[test]
fn insert_session_replaces() {
    let mut store = SessionStore::new();
    store.insert_session("t".into(), anonymous());
    let b = Identity { id: "b".into(), roles: vec![], permissions: vec![], metadata: vec![] };
    store.insert_session("t".into(), b);
    assert_eq!(store.check_session("t").unwrap().id, "b");
}

#[test]
fn authenticate_by_session_header() {
    let mut store = SessionStore::new();
    let token = store.create_session(&anonymous());
    assert!(store.authenticate(&headers(&[("x-session-token", &token)])).is_some());
    assert!(store.authenticate(&headers(&[("x-session-token", "")])).is_none());
    assert!(store.authenticate(&headers(&[("authorization", &token)])).is_none());
    assert!(store.authenticate(&headers(&[("x-session-token", "other")])).is_none());
}

#[test]
fn header_extraction() {
    let h = headers(&[("authorization", "Bearer abc"), ("x-session-token", "xyz")]);
    assert_eq!(header_value(&h, "authorization"), Some("Bearer abc".to_string()));
    assert_eq!(header_value(&h, "missing"), None);
    assert_eq!(extract_bearer_or_session_token(&h), Some("abc".to_string()));
    assert_eq!(extract_session_token(&h), Some("xyz".to_string()));
    let basic = headers(&[("authorization", "Basic abc"), ("x-session-token", "xyz")]);
    assert_eq!(extract_bearer_or_session_token(&basic), Some("xyz".to_string()));
    let empty_bearer = headers(&[("authorization", "Bearer ")]);
    assert_eq!(extract_bearer_or_session_token(&empty_bearer), None);
    assert_eq!(extract_bearer_or_session_token(&headers(&[])), None);
}

#[test]
fn sequence_checks() {
    assert!(check_sequence(vec![1, 2, 3, 2, 3, 4], vec![2, 3, 4]));
    assert!(!check_sequence(vec![2, 3], vec![2, 3, 4]));
    assert!(!check_sequence(vec![1, 2, 3], vec![]));
    assert!(!check_sequence(vec![2, 3, 5], vec![2, 3, 4]));
    assert!(check_sequence(vec![2, 1, 3, 4], vec![2, 1, 3, 4]));
}

#[test]
fn sequence_prefix_checks() {
    assert!(check_sequence_prefix(vec![], vec![2, 1]));
    assert!(check_sequence_prefix(vec![2], vec![2, 1]));
    assert!(check_sequence_prefix(vec![2, 1], vec![2, 1]));
    assert!(!check_sequence_prefix(vec![1], vec![2, 1]));
    assert!(!check_sequence_prefix(vec![2, 1, 3], vec![2, 1]));
    assert!(check_sequence_prefix(vec![9, 9], vec![]));
}

#[test]
fn sequence_from_json() {
    assert_eq!(load_sequence(Some(r#"{"sequence": [2, 1, 3, 4]}"#)), vec![2, 1, 3, 4]);
    assert_eq!(load_sequence(Some(r#"{"sequence": [2, -1, "x", 3.5, 4]}"#)), vec![2, 4]);
    assert_eq!(load_sequence(Some(r#"{"sequence": 3}"#)), Vec::<usize>::new());
    assert_eq!(load_sequence(Some("nope")), Vec::<usize>::new());
    assert_eq!(load_sequence(None), Vec::<usize>::new());
    assert_eq!(present_u64s(&vec![Some(1), None, Some(7)]), vec![1, 7]);
}
