use ducia::standalone::{doc_content_or_placeholder, load_site_name, DocsMap, GetOutcome};

#[test]
fn standalone_upload_list_get() {
    let mut map = DocsMap::empty();
    assert_eq!(map.next_file_name(), "1.md");
    let id = map.upload("First".into(), 10);
    assert_eq!(id, "1");
    let id2 = map.upload("Second".into(), 20);
    assert_eq!(id2, "2");
    assert_eq!(map.next_id, 3);
    let listed: Vec<(String, String, u64)> = map.list().into_iter().map(|s| (s.id, s.title, s.created_at)).collect();
    assert_eq!(listed, vec![("1".into(), "First".into(), 10), ("2".into(), "Second".into(), 20)]);
    match map.get("1") {
        GetOutcome::Found(m) => {
            assert_eq!(m.title, "First");
            assert_eq!(m.file, "1.md");
        }
        _ => panic!("expected the document"),
    }
    assert!(matches!(map.get("9"), GetOutcome::NotFound));
}

#[test]
fn standalone_deprecate_and_delete() {
    let mut map = DocsMap::empty();
    let id = map.upload("A".into(), 1);
    assert!(map.set_deprecated(&id, true));
    assert!(map.list().is_empty());
    assert!(map.set_deprecated(&id, false));
    assert_eq!(map.list().len(), 1);
    assert!(map.delete(&id));
    assert!(matches!(map.get(&id), GetOutcome::Gone));
    assert!(!map.set_deprecated(&id, true));
    assert!(!map.delete("77"));
    assert!(!map.set_deprecated("77", true));
    assert!(map.list().is_empty());
}

#[test]
fn standalone_defaults() {
    assert_eq!(load_site_name(Some(r#"{"name": "Site"}"#)), "Site");
    assert_eq!(load_site_name(None), "25 电科 3 班待办事项清单");
    assert_eq!(load_site_name(Some("[]")), "25 电科 3 班待办事项清单");
    assert_eq!(doc_content_or_placeholder(Some("x".into())), "x");
    assert_eq!(doc_content_or_placeholder(None), "# 文档内容丢失");
}
