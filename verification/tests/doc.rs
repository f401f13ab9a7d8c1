use ducia::doc::{detect_format, may_change_deprecation, may_perform, DocFormat, DocFull, DocMeta, DocOperation};
use ducia::perm::{admin_identity, default_role_config, Identity, RoleConfig, RoleDef};
use ducia::markdown::markdown_to_html;

#[test]
fn format_from_extension() {
    assert_eq!(DocFormat::from_filename("notes.md"), DocFormat::Markdown);
    assert_eq!(DocFormat::from_filename("notes.markdown"), DocFormat::Markdown);
    assert_eq!(DocFormat::from_filename("notes.txt"), DocFormat::PlainText);
    assert_eq!(DocFormat::from_filename("page.html"), DocFormat::Html);
    assert_eq!(DocFormat::from_filename("page.htm"), DocFormat::Html);
}

#[test]
fn format_extension_is_lowercased() {
    assert_eq!(DocFormat::from_filename("README.TXT"), DocFormat::PlainText);
    assert_eq!(DocFormat::from_filename("Index.HtM"), DocFormat::Html);
}

#[test]
fn format_uses_last_extension_and_defaults_to_markdown() {
    assert_eq!(DocFormat::from_filename("archive.txt.html"), DocFormat::Html);
    assert_eq!(DocFormat::from_filename("noext"), DocFormat::Markdown);
    assert_eq!(DocFormat::from_filename("txt"), DocFormat::PlainText);
    assert_eq!(DocFormat::from_filename("image.png"), DocFormat::Markdown);
    assert_eq!(DocFormat::from_filename("trailing."), DocFormat::Markdown);
    assert_eq!(DocFormat::from_filename(""), DocFormat::Markdown);
}

#[test]
fn extension_round_trip() {
    for f in [DocFormat::Markdown, DocFormat::PlainText, DocFormat::Html] {
        assert_eq!(DocFormat::from_extension(f.extension()), f);
        let name = format!("doc.{}", f.extension());
        assert_eq!(DocFormat::from_filename(&name), f);
    }
    assert_eq!(DocFormat::Markdown.extension(), "md");
    assert_eq!(DocFormat::PlainText.extension(), "txt");
    assert_eq!(DocFormat::Html.extension(), "html");
}

#[test]
fn detect_format_labels() {
    assert_eq!(detect_format("a.md"), "markdown");
    assert_eq!(detect_format("a.MARKDOWN"), "markdown");
    assert_eq!(detect_format("a.txt"), "plaintext");
    assert_eq!(detect_format("a.htm"), "html");
    assert_eq!(detect_format("a.pdf"), "markdown");
}

#[test]
fn full_doc_from_meta() {
    let meta = DocMeta {
        id: "7".into(),
        title: "T".into(),
        file: "7.md".into(),
        created_at: 42,
        deprecated: true,
        deleted: false,
        locked: true,
    };
    let full = DocFull::from_meta("7", meta.clone(), "body".into());
    assert_eq!(full.id, "7");
    assert_eq!(full.title, "T");
    assert_eq!(full.content, "body");
    assert_eq!(full.created_at, 42);
    assert!(full.deprecated);
    assert!(full.locked);
}

#[test]
fn markdown_renders_html() {
    assert_eq!(markdown_to_html("# Hello World"), "<h1>Hello World</h1>\n");
    assert_eq!(markdown_to_html("plain *em*"), "<p>plain <em>em</em></p>\n");
}

#[test]
fn locked_documents_and_deprecation() {
    assert!(may_change_deprecation(false, false, false, true));
    assert!(may_change_deprecation(false, true, false, false));
    assert!(!may_change_deprecation(true, false, false, true));
    assert!(may_change_deprecation(true, false, true, true));
    assert!(!may_change_deprecation(true, true, true, false));
    assert!(!may_change_deprecation(true, true, false, false));
    assert!(may_change_deprecation(true, true, true, true));
}

#[test]
fn file_names_read_back_as_their_format() {
    for f in [DocFormat::Markdown, DocFormat::PlainText, DocFormat::Html] {
        assert_eq!(DocFormat::from_filename(&format!("doc.{}", f.extension())), f);
    }
    assert_eq!(DocFormat::from_filename("Notes.TXT"), DocFormat::PlainText);
}

#[test]
fn operations_need_their_permission() {
    let config = default_role_config();
    let viewer = Identity { id: "v".into(), roles: vec!["viewer".into()], permissions: vec![], metadata: vec![] };
    let admin = admin_identity();
    for op in [DocOperation::Create, DocOperation::SetDeprecated, DocOperation::Delete, DocOperation::SetLock] {
        assert!(!may_perform(&config, &viewer, op));
        assert!(may_perform(&config, &admin, op));
    }
    let mut roles = config.roles;
    roles.push(("editor".to_string(), RoleDef { permissions: vec!["doc:write".into(), "doc:deprecate".into()], extends: vec!["viewer".into()] }));
    let config = RoleConfig { roles };
    let editor = Identity { id: "e".into(), roles: vec!["editor".into()], permissions: vec![], metadata: vec![] };
    assert!(may_perform(&config, &editor, DocOperation::Create));
    assert!(may_perform(&config, &editor, DocOperation::SetDeprecated));
    assert!(!may_perform(&config, &editor, DocOperation::Delete));
    assert!(!may_perform(&config, &editor, DocOperation::SetLock));
}
