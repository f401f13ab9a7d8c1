use ducia::doc::DocFull;
use ducia::storage::{content_file, row_id, DocsMap, FsStorage};

fn create_test_doc(map: &mut DocsMap) -> ducia::doc::DocMeta {
    map.create_doc("测试文档".into(), 1000)
}

#[test]
fn test_create_and_list() {
    let mut map = DocsMap::empty();
    let meta = create_test_doc(&mut map);
    assert_eq!(meta.title, "测试文档");
    assert!(!meta.deprecated);
    assert!(!meta.deleted);
    assert!(!meta.locked);

    let docs = map.list_docs(false);
    assert_eq!(docs.len(), 1);
}

#[test]
fn test_deprecate_and_restore() {
    let mut map = DocsMap::empty();
    let meta = create_test_doc(&mut map);

    assert!(map.update_meta(&meta.id, Some(true), None, None));
    assert!(map.get_doc(&meta.id).unwrap().deprecated);

    assert!(map.update_meta(&meta.id, Some(false), None, None));
    assert!(!map.get_doc(&meta.id).unwrap().deprecated);
}

#[test]
fn test_lock_persists() {
    let mut map = DocsMap::empty();
    let meta = create_test_doc(&mut map);

    map.update_meta(&meta.id, None, None, Some(true));
    assert!(map.get_doc(&meta.id).unwrap().locked);

    map.update_meta(&meta.id, Some(true), None, None);
    let doc = map.get_doc(&meta.id).unwrap();
    assert!(doc.deprecated);
    assert!(doc.locked);
}

#[test]
fn test_locked_deprecated_then_delete() {
    let mut map = DocsMap::empty();
    let meta = create_test_doc(&mut map);

    map.update_meta(&meta.id, Some(true), None, Some(true));
    let doc = map.get_doc(&meta.id).unwrap();
    assert!(doc.deprecated);
    assert!(doc.locked);

    map.update_meta(&meta.id, None, Some(true), None);
    assert!(map.list_docs(false).is_empty());
}

#[test]
fn test_soft_delete() {
    let mut map = DocsMap::empty();
    let meta = create_test_doc(&mut map);

    map.update_meta(&meta.id, None, Some(true), None);

    assert!(map.list_docs(false).is_empty());
    assert!(map.get_doc(&meta.id).is_none());
}

#[test]
fn test_unlock() {
    let mut map = DocsMap::empty();
    let meta = create_test_doc(&mut map);

    map.update_meta(&meta.id, None, None, Some(true));
    assert!(map.get_doc(&meta.id).unwrap().locked);

    map.update_meta(&meta.id, None, None, Some(false));
    assert!(!map.get_doc(&meta.id).unwrap().locked);
}

#[test]
fn ids_and_files_increase() {
    let mut map = DocsMap::empty();
    assert_eq!(map.next_file_name(), "1.md");
    let a = map.create_doc("A".into(), 1);
    let b = map.create_doc("B".into(), 2);
    assert_eq!((a.id.as_str(), a.file.as_str()), ("1", "1.md"));
    assert_eq!((b.id.as_str(), b.file.as_str()), ("2", "2.md"));
    assert_eq!(map.next_id, 3);
    assert_eq!(map.get_doc("1").unwrap().title, "A");
    let listed: Vec<String> = map.list_docs(false).into_iter().map(|d| d.id).collect();
    assert_eq!(listed, vec!["1".to_string(), "2".to_string()]);
}

#[test]
fn large_ids_in_decimal() {
    let mut map = DocsMap { next_id: 1234567890123, docs: vec![] };
    let m = map.create_doc("x".into(), 0);
    assert_eq!(m.id, "1234567890123");
    assert_eq!(m.file, "1234567890123.md");
}

#[test]
fn deprecated_is_hidden_from_list_but_readable() {
    let mut map = DocsMap::empty();
    let a = map.create_doc("A".into(), 1);
    map.create_doc("B".into(), 2);
    map.update_meta(&a.id, Some(true), None, None);
    let listed: Vec<String> = map.list_docs(false).into_iter().map(|d| d.title).collect();
    assert_eq!(listed, vec!["B".to_string()]);
    assert!(map.get_doc(&a.id).is_some());
}

#[test]
fn update_unknown_document_changes_nothing() {
    let mut map = DocsMap::empty();
    map.create_doc("A".into(), 1);
    assert!(!map.update_meta("99", Some(true), Some(true), Some(true)));
    assert_eq!(map.list_docs(false).len(), 1);
    assert!(map.get_doc("99").is_none());
}

#[test]
fn create_replaces_stale_entry_with_same_id() {
    let mut map = DocsMap::empty();
    map.create_doc("old".into(), 1);
    map.next_id = 1;
    map.create_doc("new".into(), 2);
    assert_eq!(map.docs.len(), 1);
    assert_eq!(map.get_doc("1").unwrap().title, "new");
}

#[test]
fn full_document_assembly() {
    let mut map = DocsMap::empty();
    let meta = map.create_doc("T".into(), 9);
    let stored = map.get_doc(&meta.id).unwrap();
    let full = DocFull::from_meta(&meta.id, stored, "# 测试\n内容".into());
    assert_eq!(full.content, "# 测试\n内容");
    assert_eq!(full.created_at, 9);
}

#[test]
fn site_name_and_migration() {
    assert_eq!(FsStorage::site_name_from(Some(r#"{"name": "My Docs"}"#)), "My Docs");
    assert_eq!(FsStorage::site_name_from(Some(r#"{"name": 3}"#)), "Ducia Listing");
    assert_eq!(FsStorage::site_name_from(Some("{")), "Ducia Listing");
    assert_eq!(FsStorage::site_name_from(None), "Ducia Listing");
    assert!(FsStorage::should_migrate_index(false, true));
    assert!(!FsStorage::should_migrate_index(true, true));
    assert!(!FsStorage::should_migrate_index(false, false));
    let empty = FsStorage::index_or_empty(None);
    assert_eq!(empty.next_id, 1);
    assert!(empty.docs.is_empty());
    assert!(FsStorage::now_ms().unwrap() > 1_600_000_000_000);
}

#[test]
fn row_id_reads_decimal_identifiers() {
    assert_eq!(row_id("42"), 42);
    assert_eq!(row_id("+5"), 5);
    assert_eq!(row_id("-7"), -7);
    assert_eq!(row_id("9223372036854775807"), i64::MAX);
    assert_eq!(row_id("-9223372036854775808"), i64::MIN);
}

#[test]
fn row_id_is_zero_for_what_is_not_a_number() {
    assert_eq!(row_id(""), 0);
    assert_eq!(row_id("-"), 0);
    assert_eq!(row_id("abc"), 0);
    assert_eq!(row_id("1a"), 0);
    assert_eq!(row_id(" 1"), 0);
    assert_eq!(row_id("9223372036854775808"), 0);
    assert_eq!(row_id("-9223372036854775809"), 0);
}

#[test]
fn include_deleted_lists_deleted_but_not_deprecated() {
    let mut map = DocsMap::empty();
    let a = map.create_doc("A".into(), 1);
    let b = map.create_doc("B".into(), 2);
    let c = map.create_doc("C".into(), 3);
    map.update_meta(&b.id, None, Some(true), None);
    map.update_meta(&c.id, Some(true), None, None);
    let hidden: Vec<String> = map.list_docs(false).into_iter().map(|d| d.id).collect();
    assert_eq!(hidden, vec![a.id.clone()]);
    let all: Vec<String> = map.list_docs(true).into_iter().map(|d| d.id).collect();
    assert_eq!(all, vec![a.id.clone(), b.id.clone()]);
}

#[test]
fn new_identifier_never_overwrites_numbered_keys() {
    let mut map = DocsMap::empty();
    let old = map.create_doc("old".into(), 1);
    let mut renamed = DocsMap { next_id: 8, docs: vec![] };
    let mut stored = old.clone();
    stored.title = "seven".into();
    renamed.docs.push(("007".to_string(), stored));
    let meta = renamed.create_doc("eight".into(), 2);
    assert_eq!(meta.id, "8");
    assert_eq!(renamed.docs.len(), 2);
    assert_eq!(renamed.get_doc("007").unwrap().title, "seven");
    assert_eq!(content_file(42), "42.md");
}
