use ducia::web::{bearer_token, debug_enabled, inject_debug_flag, project_root_index, shown_file_name, spa_target, static_content_type, static_extension, use_database};

#[test]
fn spa_paths() {
    assert_eq!(spa_target("/"), None);
    assert_eq!(spa_target(""), None);
    assert_eq!(spa_target("//"), None);
    assert_eq!(spa_target("/assets/app.js"), Some("assets/app.js".to_string()));
    assert_eq!(spa_target("//x/y"), Some("x/y".to_string()));
}

#[test]
fn debug_marker() {
    assert_eq!(
        inject_debug_flag("<html><head><title>t</title></head></html>"),
        "<html><head><script>window.__DUCIA_DEBUG=true</script><title>t</title></head></html>"
    );
    assert_eq!(inject_debug_flag("<body></body>"), "<body></body>");
    assert!(debug_enabled(Some("true")));
    assert!(!debug_enabled(Some("TRUE")));
    assert!(!debug_enabled(Some("")));
    assert!(!debug_enabled(None));
}

#[test]
fn root_search_and_settings() {
    assert_eq!(project_root_index(&vec![false, false, true, true]), Some(2));
    assert_eq!(project_root_index(&vec![false, false]), None);
    assert!(use_database(Some(r#"{"use_database": true}"#)));
    assert!(!use_database(Some(r#"{"use_database": "yes"}"#)));
    assert!(!use_database(Some(r#"{}"#)));
    assert!(!use_database(None));
}

#[test]
fn tokens_and_names() {
    assert_eq!(bearer_token(Some("Bearer t0k")), "t0k");
    assert_eq!(bearer_token(Some("Basic t0k")), "");
    assert_eq!(bearer_token(None), "");
    assert_eq!(shown_file_name("12"), "12.md");
}

#[test]
fn static_files_get_the_type_of_their_extension() {
    assert_eq!(static_extension("assets/app.js"), "js");
    assert_eq!(static_extension("a.b/c.tar.gz"), "gz");
    assert_eq!(static_extension("a.b/README"), "");
    assert_eq!(static_extension(".hidden"), "");
    assert_eq!(static_extension("dir/.."), "");
    assert_eq!(static_extension("x."), "");
    assert_eq!(static_content_type("index.html"), "text/html");
    assert_eq!(static_content_type("assets/app.CSS"), "text/css");
    assert_eq!(static_content_type("LICENSE"), "application/octet-stream");
    for p in ["assets/app.js", "a.b/c.tar.gz", "a.b/README", ".hidden", "x.", "img/logo.svg", "..json"] {
        let std_ext = std::path::Path::new(p).extension().and_then(|e| e.to_str()).unwrap_or("");
        assert_eq!(static_extension(p), std_ext, "{}", p);
    }
}
