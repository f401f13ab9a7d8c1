//! The plugin registry and the application state built around it.
//!
//! The registry holds one authentication plugin, one storage plugin and any
//! number of named extra plugins. It is generic in the plugin types, so the
//! application chooses how plugins are held (for instance as trait objects).

use vstd::prelude::*;
use std::sync::Arc;
use crate::keyed::{has_key, insert, lookup};
use crate::perm::RoleConfig;
use crate::i18n::I18nManager;

verus! {

/// Any value that can be kept as an extra plugin.
pub trait ExtraPlugin: Send + Sync {}

impl<T: Send + Sync> ExtraPlugin for T {}

/// The plugins of an application, assembled at start-up.
pub struct PluginRegistry<A, S> {
    auth: Option<A>,
    storage: Option<S>,
    extras: Vec<(String, Box<dyn ExtraPlugin>)>,
}

impl<A, S> PluginRegistry<A, S> {
    pub closed spec fn auth_spec(&self) -> Option<A> {
        self.auth
    }

    pub closed spec fn storage_spec(&self) -> Option<S> {
        self.storage
    }

    /// Whether an extra plugin is registered under `name`.
    pub closed spec fn has_extra(&self, name: Seq<char>) -> bool {
        has_key(self.extras@, name)
    }

    /// An empty registry.
    pub fn new() -> (r: Self)
        ensures
            r.auth_spec() is None,
            r.storage_spec() is None,
            forall|name: Seq<char>| !r.has_extra(name),
    {
        PluginRegistry { auth: None, storage: None, extras: Vec::new() }
    }

    /// The registry with `plugin` as its authentication plugin.
    pub fn with_auth(self, plugin: A) -> (r: Self)
        ensures
            r.auth_spec() == Some(plugin),
            r.storage_spec() == self.storage_spec(),
            forall|name: Seq<char>| r.has_extra(name) == self.has_extra(name),
    {
        let mut s = self;
        s.auth = Some(plugin);
        s
    }

    /// The registry with `plugin` as its storage plugin.
    pub fn with_storage(self, plugin: S) -> (r: Self)
        ensures
            r.storage_spec() == Some(plugin),
            r.auth_spec() == self.auth_spec(),
            forall|name: Seq<char>| r.has_extra(name) == self.has_extra(name),
    {
        let mut s = self;
        s.storage = Some(plugin);
        s
    }

    /// The authentication plugin, if one is registered.
    pub fn auth(&self) -> (r: Option<&A>)
        ensures
            match r {
                Some(a) => self.auth_spec() == Some(*a),
                None => self.auth_spec() is None,
            },
    {
        self.auth.as_ref()
    }

    /// The storage plugin, if one is registered.
    pub fn storage(&self) -> (r: Option<&S>)
        ensures
            match r {
                Some(s) => self.storage_spec() == Some(*s),
                None => self.storage_spec() is None,
            },
    {
        self.storage.as_ref()
    }

    /// Registers `plugin` under `name`, replacing any plugin of that name.
    pub fn register_extra<T: 'static + Send + Sync>(&mut self, name: &str, plugin: T)
        ensures
            final(self).has_extra(name@),
            forall|other: Seq<char>| other != name@ ==> final(self).has_extra(other) == old(self).has_extra(other),
            final(self).auth_spec() == old(self).auth_spec(),
            final(self).storage_spec() == old(self).storage_spec(),
    {
        let boxed: Box<dyn ExtraPlugin> = Box::new(plugin);
        let ghost before = self.extras@;
        insert(&mut self.extras, String::from_str(name), boxed);
        proof {
            assert forall|other: Seq<char>| other != name@ implies has_key(self.extras@, other) == has_key(before, other) by {
                assert(lookup(self.extras@, other) == lookup(before, other));
            }
            assert(lookup(self.extras@, name@) is Some);
        }
    }
}

impl<A, S> Default for PluginRegistry<A, S> {
    fn default() -> (r: Self)
        ensures
            r.auth_spec() is None,
            r.storage_spec() is None,
            forall|name: Seq<char>| !r.has_extra(name),
    {
        PluginRegistry::new()
    }
}

/// The state shared by all request handlers.
pub struct AppState<A, S> {
    /// The plugins.
    pub plugins: PluginRegistry<A, S>,
    /// The role table.
    pub role_config: Arc<RoleConfig>,
    /// The locale packs.
    pub i18n: I18nManager,
}

impl<A, S> AppState<A, S> {
    /// The state made of the plugins, the role table and the locale packs.
    pub fn new(plugins: PluginRegistry<A, S>, role_config: RoleConfig, i18n: I18nManager) -> (r: Self)
        ensures
            r.plugins == plugins,
            *r.role_config == role_config,
            r.i18n == i18n,
    {
        AppState { plugins, role_config: Arc::new(role_config), i18n }
    }
}

} // verus!
