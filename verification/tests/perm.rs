use ducia::perm::{anonymous, admin_identity, default_role_config, Identity, RoleConfig, RoleDef};

fn s(x: &str) -> String {
    x.to_string()
}

fn sorted(mut v: Vec<String>) -> Vec<String> {
    v.sort();
    v
}

#[test]
fn test_identity_permissions() {
    let id = Identity {
        id: "test".into(),
        roles: vec![],
        permissions: vec!["doc:read".into(), "doc:write".into()],
        metadata: Vec::new(),
    };

    assert!(id.has_permission("doc:read"));
    assert!(id.has_permission("doc:write"));
    assert!(!id.has_permission("doc:delete"));
}

#[test]
fn test_wildcard_permission() {
    let id = Identity {
        id: "admin".into(),
        roles: vec!["admin".into()],
        permissions: vec!["*".into()],
        metadata: Vec::new(),
    };

    assert!(id.has_permission("anything"));
}

#[test]
fn test_role_inheritance() {
    let roles = vec![
        (
            s("editor"),
            RoleDef {
                permissions: vec!["doc:write".into()],
                extends: vec!["viewer".into()],
            },
        ),
        (
            s("viewer"),
            RoleDef {
                permissions: vec!["doc:read".into()],
                extends: vec![],
            },
        ),
    ];

    let config = RoleConfig { roles };

    let identity = config.build_identity("test", vec!["editor".into()]);
    assert!(identity.has_permission("doc:read"));
    assert!(identity.has_permission("doc:write"));
    assert!(!identity.has_permission("doc:delete"));
}

#[test]
fn has_role_matches_exact_names() {
    let id = Identity { id: s("u"), roles: vec![s("editor")], permissions: vec![], metadata: vec![] };
    assert!(id.has_role("editor"));
    assert!(!id.has_role("edit"));
    assert!(!id.has_role("Editor"));
}

#[test]
fn five_level_chain_from_the_guide() {
    let config = RoleConfig {
        roles: vec![
            (s("superadmin"), RoleDef { permissions: vec![s("*")], extends: vec![s("admin")] }),
            (
                s("admin"),
                RoleDef { permissions: vec![s("doc:delete"), s("user:manage"), s("config:write")], extends: vec![s("editor")] },
            ),
            (s("editor"), RoleDef { permissions: vec![s("doc:write"), s("doc:deprecate")], extends: vec![s("viewer")] }),
            (s("viewer"), RoleDef { permissions: vec![s("doc:read")], extends: vec![] }),
            (s("anonymous"), RoleDef { permissions: vec![s("doc:read")], extends: vec![] }),
        ],
    };
    let editor = config.build_identity("user-1", vec![s("editor")]);
    assert_eq!(sorted(editor.permissions.clone()), vec![s("doc:deprecate"), s("doc:read"), s("doc:write")]);
    assert!(editor.has_permission("doc:write"));
    assert!(!editor.has_permission("doc:delete"));

    let admin = config.build_identity("a", vec![s("admin")]);
    assert_eq!(
        sorted(admin.permissions.clone()),
        vec![s("config:write"), s("doc:delete"), s("doc:deprecate"), s("doc:read"), s("doc:write"), s("user:manage")]
    );
    let root = config.build_identity("r", vec![s("superadmin")]);
    assert!(root.has_permission("anything:at-all"));
}

#[test]
fn cyclic_inheritance_terminates_and_merges() {
    let config = RoleConfig {
        roles: vec![
            (s("a"), RoleDef { permissions: vec![s("p:a")], extends: vec![s("b")] }),
            (s("b"), RoleDef { permissions: vec![s("p:b")], extends: vec![s("a"), s("c")] }),
            (s("c"), RoleDef { permissions: vec![s("p:a")], extends: vec![s("c")] }),
        ],
    };
    let id = config.build_identity("x", vec![s("a")]);
    assert_eq!(sorted(id.permissions.clone()), vec![s("p:a"), s("p:b")]);
}

#[test]
fn unknown_roles_and_direct_permissions() {
    let config = default_role_config();
    let ident = Identity {
        id: s("x"),
        roles: vec![s("ghost"), s("viewer"), s("viewer")],
        permissions: vec![s("doc:write"), s("doc:write")],
        metadata: vec![],
    };
    let perms = sorted(config.resolve_permissions(&ident));
    assert_eq!(perms, vec![s("doc:read"), s("doc:write")]);
}

#[test]
fn first_definition_of_a_role_counts() {
    let config = RoleConfig {
        roles: vec![
            (s("r"), RoleDef { permissions: vec![s("one")], extends: vec![] }),
            (s("r"), RoleDef { permissions: vec![s("two")], extends: vec![] }),
        ],
    };
    let id = config.build_identity("x", vec![s("r")]);
    assert_eq!(id.permissions, vec![s("one")]);
}

#[test]
fn default_config_admin_and_viewer() {
    let config = default_role_config();
    assert_eq!(config.roles.len(), 2);
    let admin = config.build_identity("a", vec![s("admin")]);
    assert_eq!(admin.permissions, vec![s("*")]);
    assert!(admin.has_permission("doc:delete"));
    let viewer = config.build_identity("v", vec![s("viewer")]);
    assert!(viewer.has_permission("doc:read"));
    assert!(!viewer.has_permission("doc:write"));
}

#[test]
fn anonymous_and_admin_identities() {
    let anon = anonymous();
    assert_eq!(anon.id, "anonymous");
    assert_eq!(anon.roles, vec![s("anonymous")]);
    assert_eq!(anon.permissions, vec![s("doc:read")]);
    assert!(anon.metadata.is_empty());
    assert!(anon.has_permission("doc:read"));
    assert!(!anon.has_permission("doc:write"));

    let admin = admin_identity();
    assert_eq!(admin.id, "admin");
    assert!(admin.has_role("admin"));
    assert!(admin.has_permission("user:manage"));
}

#[test]
fn permits_uses_roles_and_wildcard() {
    let mut roles = Vec::new();
    roles.push(("editor".to_string(), RoleDef { permissions: vec!["doc:write".into()], extends: vec!["viewer".into()] }));
    roles.push(("viewer".to_string(), RoleDef { permissions: vec!["doc:read".into()], extends: vec![] }));
    let config = RoleConfig { roles };
    let editor = Identity { id: "e".into(), roles: vec!["editor".into()], permissions: vec![], metadata: vec![] };
    assert!(config.permits(&editor, "doc:write"));
    assert!(config.permits(&editor, "doc:read"));
    assert!(!config.permits(&editor, "doc:delete"));
    assert!(!editor.is_admin());
    let admin = admin_identity();
    assert!(admin.is_admin());
    assert!(config.permits(&admin, "doc:delete"));
    assert!(!config.permits(&anonymous(), "doc:write"));
    assert!(config.permits(&anonymous(), "doc:read"));
}
