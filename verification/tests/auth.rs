use ducia::auth::{
    authenticate_token, check_registration, check_token, identity_from_claims, jwt_secret, login_claims, login_token,
    parse_roles, prepare_registration, session_claims, session_token, AuthConfig, AuthError, Claims, RegisterRequest,
    UserRecord,
};
use ducia::perm::Identity;

fn strings(v: &[&str]) -> Vec<String> {
    v.iter().map(|s| s.to_string()).collect()
}

#[test]
fn roles_are_split_trimmed_and_filtered() {
    assert_eq!(parse_roles("viewer"), strings(&["viewer"]));
    assert_eq!(parse_roles("viewer, editor ,,admin"), strings(&["viewer", "editor", "admin"]));
    assert_eq!(parse_roles(""), Vec::<String>::new());
    assert_eq!(parse_roles(" , "), Vec::<String>::new());
}

#[test]
fn registration_input_checks() {
    let ok = RegisterRequest { username: "  alice ".into(), password: "abcd".into() };
    assert_eq!(check_registration(&ok).ok(), Some("alice".to_string()));
    let short = RegisterRequest { username: "alice".into(), password: "abc".into() };
    assert!(matches!(check_registration(&short), Err(AuthError::InvalidRegistration)));
    let blank = RegisterRequest { username: "   ".into(), password: "abcdef".into() };
    assert!(matches!(check_registration(&blank), Err(AuthError::InvalidRegistration)));
    let two_chars = RegisterRequest { username: "bob".into(), password: "密码".into() };
    assert!(matches!(check_registration(&two_chars), Err(AuthError::InvalidRegistration)));
    let four_chars = RegisterRequest { username: "bob".into(), password: "密码密码".into() };
    assert!(check_registration(&four_chars).is_ok());
}

#[test]
fn register_then_login() {
    let req = RegisterRequest { username: " carol ".into(), password: "secret".into() };
    let user = match prepare_registration(&req, 1_700_000_000) {
        Ok(u) => u,
        Err(_) => panic!("registration refused"),
    };
    assert_eq!(user.username, "carol");
    assert_eq!(user.roles, "viewer");
    assert_eq!(user.id.len(), 36);
    assert_eq!(user.created_at, 1_700_000_000);
    let parsed = uuid::Uuid::parse_str(&user.id).unwrap();
    assert_eq!(parsed.get_version_num(), 4);
    assert_eq!(user.id, user.id.to_lowercase());
    let info = user.user_info();
    assert_eq!(info.roles, strings(&["viewer"]));

    let record = UserRecord {
        id: user.id.clone(),
        username: user.username.clone(),
        password_hash: user.password_hash.clone(),
        roles: "viewer, editor".into(),
    };
    let (claims, who) = match login_claims("secret", Some(record), 1000) {
        Ok(x) => x,
        Err(_) => panic!("login refused"),
    };
    assert_eq!(claims.sub, user.id);
    assert_eq!(claims.exp, 1000 + 604800);
    assert_eq!(claims.iat, 1000);
    assert_eq!(claims.roles, strings(&["viewer", "editor"]));
    assert_eq!(who.username, "carol");

    let record2 = UserRecord { id: user.id.clone(), username: "carol".into(), password_hash: user.password_hash, roles: "viewer".into() };
    assert!(matches!(login_claims("wrong", Some(record2), 1000), Err(AuthError::InvalidCredentials)));
    let broken = UserRecord { id: "x".into(), username: "x".into(), password_hash: "not-a-hash".into(), roles: "".into() };
    assert!(matches!(login_claims("secret", Some(broken), 1000), Err(AuthError::Hash(_))));
    assert!(matches!(login_claims("secret", None, 1000), Err(AuthError::InvalidCredentials)));
}

#[test]
fn registration_refused_without_hashing() {
    let req = RegisterRequest { username: "".into(), password: "secret".into() };
    assert!(matches!(prepare_registration(&req, 0), Err(AuthError::InvalidRegistration)));
}

#[test]
fn session_claims_and_identity() {
    let who = Identity {
        id: "u1".into(),
        roles: strings(&["admin"]),
        permissions: strings(&["*"]),
        metadata: vec![("username".into(), "dave".into())],
    };
    let c = session_claims(&who, 50);
    assert_eq!((c.sub.as_str(), c.username.as_str(), c.exp, c.iat), ("u1", "dave", 50 + 86400, 50));
    assert_eq!(c.roles, strings(&["admin"]));
    let anon = Identity { id: "a".into(), roles: vec![], permissions: vec![], metadata: vec![] };
    assert_eq!(session_claims(&anon, 0).username, "");

    let back = identity_from_claims(Claims { sub: "u2".into(), username: "erin".into(), roles: strings(&["viewer"]), exp: 9, iat: 1 });
    assert_eq!(back.id, "u2");
    assert_eq!(back.roles, strings(&["viewer"]));
    assert!(back.permissions.is_empty());
    assert_eq!(back.metadata, vec![("username".to_string(), "erin".to_string())]);
}

#[test]
fn secret_configured_or_random() {
    assert_eq!(jwt_secret(AuthConfig { jwt_secret: Some("k".into()) }), "k");
    let a = jwt_secret(AuthConfig { jwt_secret: None });
    let b = jwt_secret(AuthConfig { jwt_secret: None });
    assert_eq!(a.len(), 36);
    assert_ne!(a, b);
}

fn now_secs() -> usize {
    std::time::SystemTime::now().duration_since(std::time::UNIX_EPOCH).unwrap().as_secs() as usize
}

#[test]
fn login_token_carries_the_user_and_checks_under_its_secret() {
    let req = RegisterRequest { username: " alice ".into(), password: "1234".into() };
    let user = match prepare_registration(&req, 0) {
        Ok(u) => u,
        Err(_) => panic!("registration refused"),
    };
    let record = UserRecord {
        id: user.id.clone(),
        username: user.username.clone(),
        password_hash: user.password_hash.clone(),
        roles: user.roles.clone(),
    };
    let now = now_secs();
    let (token, info) = match login_token("1234", Some(record), now, "s3cret") {
        Ok(x) => x,
        Err(_) => panic!("login refused"),
    };
    assert_eq!(info.id, user.id);
    assert_eq!(info.username, "alice");
    assert_eq!(info.roles, strings(&["viewer"]));
    let who = check_token(&token, "s3cret").expect("token refused");
    assert_eq!(who.id, user.id);
    assert_eq!(who.roles, strings(&["viewer"]));
    assert!(who.permissions.is_empty());
    assert_eq!(who.metadata, vec![("username".to_string(), "alice".to_string())]);
    assert!(check_token(&token, "other").is_none());
    assert!(check_token("not.a.token", "s3cret").is_none());
    assert!(matches!(login_token("1234", None, now, "s3cret"), Err(AuthError::InvalidCredentials)));

    let headers = vec![("authorization".to_string(), format!("Bearer {}", token))];
    assert_eq!(authenticate_token(&headers, "s3cret").map(|i| i.id), Some(user.id.clone()));
    let by_session = vec![("x-session-token".to_string(), token.clone())];
    assert!(authenticate_token(&by_session, "s3cret").is_some());
    assert!(authenticate_token(&vec![], "s3cret").is_none());
}

#[test]
fn session_token_round_trip_and_expiry() {
    let who = Identity {
        id: "u1".into(),
        roles: strings(&["editor"]),
        permissions: vec![],
        metadata: vec![("username".to_string(), "bob".to_string())],
    };
    let token = session_token(&who, now_secs(), "k");
    let back = check_token(&token, "k").expect("token refused");
    assert_eq!(back.id, "u1");
    assert_eq!(back.roles, strings(&["editor"]));
    assert_eq!(back.metadata, vec![("username".to_string(), "bob".to_string())]);
    let old = session_token(&who, 1000, "k");
    assert!(check_token(&old, "k").is_none());
}
