use ducia::i18n::{first_with_prefix, locale_code_of, locale_pack_reply, I18nManager, PackReply};

fn pack(entries: &[(&str, &str)]) -> Vec<(String, String)> {
    entries.iter().map(|(k, v)| (k.to_string(), v.to_string())).collect()
}

fn manager() -> I18nManager {
    let mut m = I18nManager::new("zh-CN");
    m.add_pack("zh-CN".into(), pack(&[("@meta.name", "简体中文"), ("hello", "你好"), ("greet", "你好，{{name}}！")]));
    m.add_pack("en".into(), pack(&[("@meta.name", "English"), ("hello", "Hello"), ("greet", "Hi {{name}}, {{name}}!")]));
    m.add_pack("ja-JP".into(), pack(&[("hello", "こんにちは")]));
    m
}

#[test]
fn resolve_prefers_exact_query() {
    let m = manager();
    assert_eq!(m.resolve(Some("en"), Some("zh-CN")), "en");
}

#[test]
fn resolve_query_by_prefix_case_insensitive() {
    let m = manager();
    assert_eq!(m.resolve(Some("JA"), None), "ja-JP");
    assert_eq!(m.resolve(Some("zh"), None), "zh-CN");
}

#[test]
fn resolve_from_accept_language() {
    let m = manager();
    assert_eq!(m.resolve(None, Some("fr-FR;q=0.9, en;q=0.8")), "en");
    assert_eq!(m.resolve(Some("xx"), Some("de, ja;q=0.5")), "ja-JP");
}

#[test]
fn resolve_falls_back_to_default() {
    let m = manager();
    assert_eq!(m.resolve(None, None), "zh-CN");
    assert_eq!(m.resolve(Some("fr"), Some("de,it")), "zh-CN");
}

#[test]
fn resolve_empty_part_matches_first_pack_by_prefix() {
    let m = manager();
    assert_eq!(m.resolve(None, Some(" ;q=1")), "zh-CN");
    let mut n = I18nManager::new("xx");
    n.add_pack("en".into(), vec![]);
    assert_eq!(n.resolve(None, Some(",")), "en");
}

#[test]
fn translate_with_fallbacks() {
    let m = manager();
    assert_eq!(m.t("en", "hello"), "Hello");
    assert_eq!(m.t("ja-JP", "hello"), "こんにちは");
    assert_eq!(m.t("ja-JP", "greet"), "你好，{{name}}！");
    assert_eq!(m.t("fr", "hello"), "你好");
    assert_eq!(m.t("en", "missing.key"), "[missing.key]");
}

#[test]
fn translate_with_params() {
    let m = manager();
    assert_eq!(m.tf("en", "greet", &vec![("name", "Ann")]), "Hi Ann, Ann!");
    assert_eq!(m.tf("zh-CN", "greet", &vec![("name", "张三"), ("unused", "x")]), "你好，张三！");
    assert_eq!(m.tf("en", "hello", &vec![]), "Hello");
}

#[test]
fn locales_and_names() {
    let m = manager();
    let locales = m.available_locales();
    let got: Vec<(String, String)> = locales.iter().map(|l| (l.code.clone(), l.name.clone())).collect();
    assert_eq!(
        got,
        vec![
            ("zh-CN".to_string(), "简体中文".to_string()),
            ("en".to_string(), "English".to_string()),
            ("ja-JP".to_string(), "ja-JP".to_string()),
        ]
    );
    assert_eq!(m.default_locale(), "zh-CN");
}

#[test]
fn replacing_a_pack() {
    let mut m = manager();
    m.add_pack("en".into(), pack(&[("hello", "Hey")]));
    assert_eq!(m.t("en", "hello"), "Hey");
    assert_eq!(m.available_locales().len(), 3);
}

#[test]
fn load_pack_from_json() {
    let mut m = I18nManager::new("en");
    assert!(m.load_pack("en".into(), r#"{"@meta.name": "English", "a": "A", "b": "B"}"#));
    assert!(!m.load_pack("de".into(), r#"{"a": 1}"#));
    assert!(!m.load_pack("fr".into(), "not json"));
    assert_eq!(m.t("en", "b"), "B");
    let locales = m.available_locales();
    assert_eq!(locales.len(), 1);
    assert_eq!(locales[0].name, "English");
}

#[test]
fn find_by_prefix_lowercases() {
    let m = manager();
    assert_eq!(m.find_by_prefix("EN"), Some("en".to_string()));
    assert_eq!(m.find_by_prefix("ko"), None);
    let keys = vec!["alpha".to_string(), "beta".to_string(), "bet".to_string()];
    assert_eq!(first_with_prefix(&keys, "bet"), Some(1));
    assert_eq!(first_with_prefix(&keys, "z"), None);
}

#[test]
fn locale_files_are_named_by_their_code() {
    assert_eq!(locale_code_of("en.json"), Some("en".to_string()));
    assert_eq!(locale_code_of("zh-CN.json"), Some("zh-CN".to_string()));
    assert_eq!(locale_code_of("a.b.json"), Some("a.b".to_string()));
    assert_eq!(locale_code_of("..json"), Some(".".to_string()));
    assert_eq!(locale_code_of(".json"), None);
    assert_eq!(locale_code_of("notes.txt"), None);
    assert_eq!(locale_code_of("en.JSON"), None);
    assert_eq!(locale_code_of("json"), None);
}

#[test]
fn loading_packs_gives_names_and_distinct_codes() {
    let mut m = I18nManager::new("en");
    assert!(m.load_pack("en".into(), r#"{"@meta.name":"English","hi":"Hello"}"#));
    assert!(m.load_pack("zh-CN".into(), r#"{"hi":"你好"}"#));
    assert!(!m.load_pack("bad".into(), "{oops"));
    assert!(!m.load_pack("nested".into(), r#"{"a":{"b":"c"}}"#));
    assert!(m.load_pack("en".into(), r#"{"@meta.name":"English","hi":"Hi"}"#));
    let locales = m.available_locales();
    let pairs: Vec<(String, String)> = locales.into_iter().map(|l| (l.code, l.name)).collect();
    assert_eq!(pairs, vec![("en".to_string(), "English".to_string()), ("zh-CN".to_string(), "zh-CN".to_string())]);
    assert_eq!(m.t("en", "hi"), "Hi");
    assert_eq!(m.default_locale(), "en");
}

#[test]
fn placeholders_filled_and_plain_text_kept() {
    let mut m = I18nManager::new("zh-CN");
    m.add_pack("zh-CN".into(), pack(&[("hi", "你好，{{name}}"), ("plain", "没有占位符")]));
    assert_eq!(m.tf("zh-CN", "hi", &vec![("name", "Alice")]), "你好，Alice");
    assert_eq!(m.tf("zh-CN", "hi", &vec![]), "你好，{{name}}");
    assert_eq!(m.tf("zh-CN", "hi", &vec![("other", "x")]), "你好，{{name}}");
    assert_eq!(m.tf("zh-CN", "plain", &vec![("name", "Alice")]), "没有占位符");
}

#[test]
fn locale_pack_replies() {
    match locale_pack_reply(Some(r#"{ "@meta.name": "English", "a": {"b": "c"} }"#)) {
        PackReply::Pack(p) => assert_eq!(p, r#"{"@meta.name":"English","a":{"b":"c"}}"#),
        _ => panic!("expected the pack"),
    }
    assert!(matches!(locale_pack_reply(Some("{oops")), PackReply::Invalid));
    assert!(matches!(locale_pack_reply(None), PackReply::Missing));
}

#[test]
fn locales_carry_their_text_direction() {
    let mut m = I18nManager::new("en");
    m.add_pack("ar".into(), pack(&[("@meta.name", "العربية"), ("@meta.dir", "rtl")]));
    m.add_pack("en".into(), pack(&[("@meta.name", "English")]));
    let dirs: Vec<(String, String)> = m.available_locales().into_iter().map(|l| (l.code, l.dir)).collect();
    assert_eq!(dirs, vec![("ar".to_string(), "rtl".to_string()), ("en".to_string(), "ltr".to_string())]);
}
