use ducia::i18n::I18nManager;
use ducia::perm::default_role_config;
use ducia::registry::{AppState, PluginRegistry};

#[test]
fn registry_builder() {
    let r: PluginRegistry<&str, u32> = PluginRegistry::new();
    assert!(r.auth().is_none());
    assert!(r.storage().is_none());
    let r = r.with_auth("simple").with_storage(7);
    assert_eq!(r.auth(), Some(&"simple"));
    assert_eq!(r.storage(), Some(&7));
    let r = r.with_auth("db");
    assert_eq!(r.auth(), Some(&"db"));
    assert_eq!(r.storage(), Some(&7));
}

#[test]
fn registry_extras_and_default() {
    let mut r: PluginRegistry<(), ()> = PluginRegistry::default();
    r.register_extra("metrics", 5u64);
    r.register_extra("metrics", String::from("replaced"));
    r.register_extra("search", vec![1u8]);
    assert!(r.auth().is_none());
}

#[test]
fn app_state_holds_parts() {
    let plugins: PluginRegistry<u8, u8> = PluginRegistry::new().with_auth(1);
    let state = AppState::new(plugins, default_role_config(), I18nManager::new("zh-CN"));
    assert_eq!(state.plugins.auth(), Some(&1));
    assert_eq!(state.role_config.roles.len(), 2);
    assert_eq!(state.i18n.default_locale(), "zh-CN");
}
