//! The database-backed identity system: registration, login and the
//! contents of its session tokens. Storing users and signing tokens are done
//! by the caller; the checks and the values that go into them are here.

use vstd::prelude::*;
use crate::clock::{is_uuid_v4_text, new_uuid};
use crate::perm::{Identity, clone_strings, views};
use crate::keyed::lookup;
use crate::session::{bearer_or_session_token, extract_bearer_or_session_token};
use crate::text::{split_char, substring, to_chars, trim, trim_ws, lemma_first_index_is};

verus! {

#[verifier::external_type_specification]
#[verifier::external_body]
pub struct ExBcryptError(bcrypt::BcryptError);

/// Whether `password` matches the bcrypt hash `hash` (`bcrypt::verify`):
/// `None` when `hash` is not a well-formed bcrypt hash.
pub uninterp spec fn bcrypt_verifies(password: Seq<char>, hash: Seq<char>) -> Option<bool>;

/// Hashes `password` with a random salt at the default cost
/// (`bcrypt::hash`). The result depends on the salt; what is stated is that
/// `bcrypt::verify` accepts the password against it, since it recomputes
/// the hash with the salt and cost written in it.
#[verifier::external_body]
fn bcrypt_hash(password: &str) -> (r: Result<String, bcrypt::BcryptError>)
    ensures
        r matches Ok(h) ==> bcrypt_verifies(password@, h@) == Some(true),
{
    bcrypt::hash(password, bcrypt::DEFAULT_COST)
}

/// Checks `password` against `hash` (`bcrypt::verify`).
#[verifier::external_body]
fn bcrypt_verify(password: &str, hash: &str) -> (r: Result<bool, bcrypt::BcryptError>)
    ensures
        match r {
            Ok(b) => bcrypt_verifies(password@, hash@) == Some(b),
            Err(_) => bcrypt_verifies(password@, hash@) is None,
        },
{
    bcrypt::verify(password, hash)
}

/// A registration request.
pub struct RegisterRequest {
    pub username: String,
    pub password: String,
}

/// A login request.
pub struct LoginRequest {
    pub username: String,
    pub password: String,
}

/// A user as shown to clients.
pub struct UserInfo {
    pub id: String,
    pub username: String,
    pub roles: Vec<String>,
}

/// The answer to a successful login: a signed token and the user.
pub struct AuthResponse {
    pub token: String,
    pub user: UserInfo,
}

/// Configuration of the plugin (`auth.json`).
pub struct AuthConfig {
    pub jwt_secret: Option<String>,
}

/// The contents of a session token.
pub struct Claims {
    pub sub: String,
    pub username: String,
    pub roles: Vec<String>,
    pub exp: usize,
    pub iat: usize,
}

/// A user as stored: identifier, name, password hash and the comma-separated
/// list of its roles.
pub struct UserRecord {
    pub id: String,
    pub username: String,
    pub password_hash: String,
    pub roles: String,
}

/// A user about to be stored.
pub struct NewUser {
    pub id: String,
    pub username: String,
    pub password_hash: String,
    pub roles: String,
    pub created_at: i64,
}

/// Why a request was refused.
pub enum AuthError {
    /// The user name is empty or the password shorter than 4 characters.
    InvalidRegistration,
    /// Unknown user or wrong password.
    InvalidCredentials,
    /// The password hash could not be made or read.
    Hash(bcrypt::BcryptError),
}

#[verifier::external_type_specification]
#[verifier::external_body]
pub struct ExJwtError(jsonwebtoken::errors::Error);

/// The contents of a token as plain values: subject, user name, roles,
/// expiry and issue time.
pub type ClaimsView = (Seq<char>, Seq<char>, Seq<Seq<char>>, usize, usize);

/// The plain values of `c`.
pub open spec fn claims_view(c: Claims) -> ClaimsView {
    (c.sub@, c.username@, views(c.roles@), c.exp, c.iat)
}

/// The token that `jsonwebtoken::encode` makes with the default header
/// (HS256) of the JSON object `{exp, iat, roles, sub, username}` under the
/// key `secret`.
pub uninterp spec fn hs256_token(sub: Seq<char>, username: Seq<char>, roles: Seq<Seq<char>>, exp: usize, iat: usize, secret: Seq<char>) -> Seq<char>;

/// The claims that `token` carries when its header names HS256, its
/// signature checks under the key `secret`, its payload has no `aud` claim
/// and holds `sub`, `username`, `roles` (strings), `exp` and `iat` (whole
/// numbers); `None` otherwise. Whether the token has expired is not part of
/// this.
pub uninterp spec fn hs256_claims(token: Seq<char>, secret: Seq<char>) -> Option<ClaimsView>;

/// Signs `claims` (`jsonwebtoken::encode`, default header, HMAC key from
/// the bytes of `secret`), the claims written as a JSON object. With the
/// HS256 header and an HMAC key, `encode` cannot fail: it serialises the
/// header and the object and computes the HMAC. Decoding the token under
/// the same key gives the claims back.
#[verifier::external_body]
fn sign_claims(claims: &Claims, secret: &str) -> (r: Result<String, jsonwebtoken::errors::Error>)
    ensures
        r is Ok,
        r matches Ok(t) ==> t@ == hs256_token(claims.sub@, claims.username@, views(claims.roles@), claims.exp, claims.iat, secret@),
        r matches Ok(t) ==> hs256_claims(t@, secret@) == Some(claims_view(*claims)),
{
    let mut m = serde_json::Map::new();
    m.insert("sub".to_string(), claims.sub.clone().into());
    m.insert("username".to_string(), claims.username.clone().into());
    m.insert("roles".to_string(), claims.roles.clone().into());
    m.insert("exp".to_string(), claims.exp.into());
    m.insert("iat".to_string(), claims.iat.into());
    let key = jsonwebtoken::EncodingKey::from_secret(secret.as_bytes());
    jsonwebtoken::encode(&jsonwebtoken::Header::default(), &serde_json::Value::Object(m), &key)
}

/// Decodes `token` under the key `secret` (`jsonwebtoken::decode` with the
/// default validation, HS256 only, with its expiry check turned off, so
/// that no clock is read), then reads the claims from the payload. The
/// expiry is checked by the caller.
#[verifier::external_body]
fn decode_claims(token: &str, secret: &str) -> (r: Option<Claims>)
    ensures
        match r {
            Some(c) => hs256_claims(token@, secret@) == Some(claims_view(c)),
            None => hs256_claims(token@, secret@) is None,
        },
{
    let mut v = jsonwebtoken::Validation::default();
    v.validate_exp = false;
    let key = jsonwebtoken::DecodingKey::from_secret(secret.as_bytes());
    let c = jsonwebtoken::decode::<serde_json::Value>(token, &key, &v).ok()?.claims;
    Some(Claims {
        sub: c["sub"].as_str()?.into(),
        username: c["username"].as_str()?.into(),
        roles: c["roles"].as_array()?.iter().map(|x| x.as_str().map(String::from)).collect::<Option<_>>()?,
        exp: c["exp"].as_u64()?.try_into().ok()?,
        iat: c["iat"].as_u64()?.try_into().ok()?,
    })
}

/// Seconds in a day.
pub const DAY_SECS: usize = 86400;

/// Lifetime of a login token: seven days.
pub const LOGIN_TOKEN_SECS: usize = 604800;

/// A registration is accepted when the trimmed user name is not empty and
/// the password is at least 4 characters long.
pub open spec fn registration_ok(req: RegisterRequest) -> bool {
    trim_ws(req.username@).len() > 0 && req.password@.len() >= 4
}

/// The non-empty trimmed pieces of `parts`, in order.
pub open spec fn nonempty_trimmed(parts: Seq<Seq<char>>) -> Seq<Seq<char>>
    decreases parts.len(),
{
    if parts.len() == 0 {
        Seq::empty()
    } else {
        let t = trim_ws(parts[0]);
        let rest = nonempty_trimmed(parts.drop_first());
        if t.len() > 0 { seq![t] + rest } else { rest }
    }
}

/// The role names of a comma-separated list: each piece trimmed, empty
/// pieces dropped.
pub open spec fn roles_of(list: Seq<char>) -> Seq<Seq<char>> {
    nonempty_trimmed(split_char(list, ','))
}

/// The role names of a comma-separated list.
pub fn parse_roles(list: &str) -> (r: Vec<String>)
    ensures
        views(r@) == roles_of(list@),
{
    let v = to_chars(list);
    let n = v.len();
    let mut out: Vec<String> = Vec::new();
    let mut start: usize = 0;
    let mut more = true;
    assert(list@.skip(0) =~= list@);
    assert(views(out@) =~= Seq::<Seq<char>>::empty());
    while more
        invariant
            v@ == list@,
            n == list@.len(),
            start <= n,
            roles_of(list@) == views(out@) + if more {
                nonempty_trimmed(split_char(list@.skip(start as int), ','))
            } else {
                Seq::empty()
            },
        decreases n + 1 - start - (if more { 0int } else { 1int }),
    {
        let mut end: usize = start;
        while end < n && v[end] != ','
            invariant
                v@ == list@,
                n == list@.len(),
                start <= end <= n,
                forall|j: int| start <= j < end ==> list@[j] != ',',
            decreases n - end,
        {
            end = end + 1;
        }
        let ghost t = list@.skip(start as int);
        let ghost parts = split_char(t, ',');
        proof {
            let k = (end - start) as int;
            lemma_first_index_is(t, ',', k);
            assert(t.take(k) =~= list@.subrange(start as int, end as int));
            if end < n {
                assert(t.skip(k + 1) =~= list@.skip(end + 1));
                assert(parts == seq![t.take(k)] + split_char(t.skip(k + 1), ','));
                assert(parts.drop_first() =~= split_char(list@.skip(end + 1), ','));
            } else {
                assert(parts == seq![t]);
                assert(t =~= list@.subrange(start as int, end as int));
                assert(parts.drop_first() =~= Seq::<Seq<char>>::empty());
            }
            assert(parts[0] == list@.subrange(start as int, end as int));
        }
        let part = substring(list, start, end);
        let piece = trim(part.as_str());
        let ghost before = views(out@);
        let ghost piece_view = piece@;
        if piece.unicode_len() > 0 {
            out.push(piece);
            assert(views(out@) =~= before.push(piece_view));
        }
        proof {
            let rest = nonempty_trimmed(parts.drop_first());
            if piece_view.len() > 0 {
                assert(nonempty_trimmed(parts) == seq![piece_view] + rest);
                assert(before + (seq![piece_view] + rest) =~= views(out@) + rest);
            } else {
                assert(nonempty_trimmed(parts) == rest);
            }
        }
        if end == n {
            more = false;
            proof {
                assert(nonempty_trimmed(Seq::<Seq<char>>::empty()) == Seq::<Seq<char>>::empty());
                assert(views(out@) + Seq::<Seq<char>>::empty() =~= views(out@));
            }
        } else {
            start = end + 1;
        }
    }
    out
}

/// Checks a registration request; on success gives the trimmed user name.
pub fn check_registration(req: &RegisterRequest) -> (r: Result<String, AuthError>)
    ensures
        match r {
            Ok(name) => registration_ok(*req) && name@ == trim_ws(req.username@),
            Err(e) => !registration_ok(*req) && e is InvalidRegistration,
        },
{
    let name = trim(req.username.as_str());
    if name.unicode_len() == 0 || req.password.unicode_len() < 4 {
        return Err(AuthError::InvalidRegistration);
    }
    Ok(name)
}

/// The user to store for an accepted registration made at `created_at`
/// (seconds since the Unix epoch): a fresh random identifier, the trimmed
/// name, a hash of the password and the role `viewer`.
pub fn prepare_registration(req: &RegisterRequest, created_at: i64) -> (r: Result<NewUser, AuthError>)
    ensures
        !registration_ok(*req) <==> r matches Err(AuthError::InvalidRegistration),
        registration_ok(*req) ==> (r is Ok || r matches Err(AuthError::Hash(_))),
        r matches Ok(u) ==> {
            &&& is_uuid_v4_text(u.id@)
            &&& u.username@ == trim_ws(req.username@)
            &&& bcrypt_verifies(req.password@, u.password_hash@) == Some(true)
            &&& u.roles@ == "viewer"@
            &&& u.created_at == created_at
        },
{
    let username = match check_registration(req) {
        Ok(n) => n,
        Err(e) => return Err(e),
    };
    let id = new_uuid();
    let password_hash = match bcrypt_hash(req.password.as_str()) {
        Ok(h) => h,
        Err(e) => return Err(AuthError::Hash(e)),
    };
    Ok(NewUser { id, username, password_hash, roles: String::from_str("viewer"), created_at })
}

impl NewUser {
    /// The user as shown to clients: its identifier, name and the role
    /// `viewer`.
    pub fn user_info(&self) -> (r: UserInfo)
        ensures
            r.id == self.id,
            r.username == self.username,
            views(r.roles@) == seq!["viewer"@],
    {
        let mut roles: Vec<String> = Vec::new();
        roles.push(String::from_str("viewer"));
        assert(views(roles@) =~= seq!["viewer"@]);
        UserInfo { id: self.id.clone(), username: self.username.clone(), roles }
    }
}

/// What a login yields once the password check has answered `verdict`
/// for the stored user `record`, at time `now` (seconds): on a match, the
/// token contents (valid for seven days) and the user; otherwise the reason.
pub fn login_outcome(verdict: Result<bool, bcrypt::BcryptError>, record: UserRecord, now: usize) -> (r: Result<(Claims, UserInfo), AuthError>)
    requires
        now <= usize::MAX - LOGIN_TOKEN_SECS,
    ensures
        match verdict {
            Ok(true) => r matches Ok((claims, user)) && {
                &&& claims.sub == record.id
                &&& claims.username == record.username
                &&& views(claims.roles@) == roles_of(record.roles@)
                &&& claims.iat == now
                &&& claims.exp == now + LOGIN_TOKEN_SECS
                &&& user.id == record.id
                &&& user.username == record.username
                &&& views(user.roles@) == roles_of(record.roles@)
            },
            Ok(false) => r matches Err(AuthError::InvalidCredentials),
            Err(e) => r matches Err(AuthError::Hash(e2)) && e2 == e,
        },
{
    match verdict {
        Err(e) => Err(AuthError::Hash(e)),
        Ok(false) => Err(AuthError::InvalidCredentials),
        Ok(true) => {
            let roles = parse_roles(record.roles.as_str());
            let claim_roles = clone_strings(&roles);
            let claims = Claims {
                sub: record.id.clone(),
                username: record.username.clone(),
                roles: claim_roles,
                exp: now + LOGIN_TOKEN_SECS,
                iat: now,
            };
            let user = UserInfo { id: record.id, username: record.username, roles };
            Ok((claims, user))
        },
    }
}

/// The outcome of a login attempt with `password` against the user stored
/// under the requested name (`None` when there is none) at time `now`
/// (seconds).
pub fn login_claims(password: &str, record: Option<UserRecord>, now: usize) -> (r: Result<(Claims, UserInfo), AuthError>)
    requires
        now <= usize::MAX - LOGIN_TOKEN_SECS,
    ensures
        match record {
            None => r matches Err(AuthError::InvalidCredentials),
            Some(record) => match bcrypt_verifies(password@, record.password_hash@) {
                Some(true) => r matches Ok((claims, user)) && {
                    &&& claims.sub == record.id
                    &&& claims.username == record.username
                    &&& views(claims.roles@) == roles_of(record.roles@)
                    &&& claims.iat == now
                    &&& claims.exp == now + LOGIN_TOKEN_SECS
                    &&& user.id == record.id
                    &&& user.username == record.username
                    &&& views(user.roles@) == roles_of(record.roles@)
                },
                Some(false) => r matches Err(AuthError::InvalidCredentials),
                None => r matches Err(AuthError::Hash(_)),
            },
        },
{
    match record {
        None => Err(AuthError::InvalidCredentials),
        Some(record) => {
            let verdict = bcrypt_verify(password, record.password_hash.as_str());
            login_outcome(verdict, record, now)
        },
    }
}

/// The contents of a session token for `identity` at time `now` (seconds),
/// valid for one day; the user name is the `username` metadata entry, or
/// empty.
pub fn session_claims(identity: &Identity, now: usize) -> (r: Claims)
    requires
        now <= usize::MAX - DAY_SECS,
    ensures
        r.sub == identity.id,
        r.username@ == match lookup(identity.metadata@, "username"@) {
            Some(u) => u@,
            None => Seq::<char>::empty(),
        },
        r.roles@ == identity.roles@,
        r.iat == now,
        r.exp == now + DAY_SECS,
{
    let username = match crate::keyed::find_key(&identity.metadata, "username") {
        Some(i) => identity.metadata[i].1.clone(),
        None => String::new(),
    };
    Claims {
        sub: identity.id.clone(),
        username,
        roles: clone_strings(&identity.roles),
        exp: now + DAY_SECS,
        iat: now,
    }
}

/// The identity a valid token stands for: its subject, its roles, no direct
/// permissions, and its user name as `username` metadata.
pub fn identity_from_claims(claims: Claims) -> (r: Identity)
    ensures
        r.id == claims.sub,
        r.roles@ == claims.roles@,
        r.permissions@.len() == 0,
        r.metadata@.len() == 1,
        r.metadata@[0].0@ == "username"@,
        r.metadata@[0].1 == claims.username,
{
    let mut metadata: Vec<(String, String)> = Vec::new();
    metadata.push((String::from_str("username"), claims.username));
    Identity { id: claims.sub, roles: claims.roles, permissions: Vec::new(), metadata }
}

/// The secret that signs tokens: the configured one, or a fresh random one.
pub fn jwt_secret(config: AuthConfig) -> (r: String)
    ensures
        config.jwt_secret matches Some(s) ==> r == s,
        config.jwt_secret is None ==> is_uuid_v4_text(r@),
{
    match config.jwt_secret {
        Some(s) => s,
        None => new_uuid(),
    }
}

/// The token of a login with `password` against the user stored under the
/// requested name (`None` when there is none) at time `now` (seconds),
/// signed with `secret`, and the user: on a match, a token carrying the
/// user's identifier, name and roles, valid for seven days.
pub fn login_token(password: &str, record: Option<UserRecord>, now: usize, secret: &str) -> (r: Result<(String, UserInfo), AuthError>)
    requires
        now <= usize::MAX - LOGIN_TOKEN_SECS,
    ensures
        match record {
            None => r matches Err(AuthError::InvalidCredentials),
            Some(record) => match bcrypt_verifies(password@, record.password_hash@) {
                Some(true) => r matches Ok((token, user)) && {
                    let c = (record.id@, record.username@, roles_of(record.roles@), (now + LOGIN_TOKEN_SECS) as usize, now);
                    &&& token@ == hs256_token(c.0, c.1, c.2, c.3, c.4, secret@)
                    &&& hs256_claims(token@, secret@) == Some(c)
                    &&& forall|t: u64| t as int <= now + LOGIN_TOKEN_SECS + 60 ==> #[trigger] accepted_claims(token@, secret@, t) == Some(c)
                    &&& user.id == record.id
                    &&& user.username == record.username
                    &&& views(user.roles@) == roles_of(record.roles@)
                },
                Some(false) => r matches Err(AuthError::InvalidCredentials),
                None => r matches Err(AuthError::Hash(_)),
            },
        },
{
    match login_claims(password, record, now) {
        Ok((claims, user)) => match sign_claims(&claims, secret) {
            Ok(token) => Ok((token, user)),
            Err(_) => {
                assert(false);
                Err(AuthError::InvalidCredentials)
            },
        },
        Err(e) => Err(e),
    }
}

/// The user name an identity carries: its `username` metadata, or empty.
pub open spec fn username_of(identity: Identity) -> Seq<char> {
    match lookup(identity.metadata@, "username"@) {
        Some(u) => u@,
        None => Seq::<char>::empty(),
    }
}

/// A session token for `identity` at time `now` (seconds), signed with
/// `secret` and valid for one day.
pub fn session_token(identity: &Identity, now: usize, secret: &str) -> (r: String)
    requires
        now <= usize::MAX - DAY_SECS,
    ensures
        r@ == hs256_token(identity.id@, username_of(*identity), views(identity.roles@), (now + DAY_SECS) as usize, now, secret@),
        hs256_claims(r@, secret@) == Some((identity.id@, username_of(*identity), views(identity.roles@), (now + DAY_SECS) as usize, now)),
        forall|t: u64| t as int <= now + DAY_SECS + 60 ==> #[trigger] accepted_claims(r@, secret@, t)
            == Some((identity.id@, username_of(*identity), views(identity.roles@), (now + DAY_SECS) as usize, now)),
{
    let claims = session_claims(identity, now);
    match sign_claims(&claims, secret) {
        Ok(token) => token,
        Err(_) => {
            assert(false);
            String::new()
        },
    }
}

/// The claims with which `token` is accepted under `secret` at time `now`
/// (seconds since the Unix epoch): those it carries, unless its expiry lies
/// more than a minute (the leeway `jsonwebtoken` allows) before `now`.
pub open spec fn accepted_claims(token: Seq<char>, secret: Seq<char>, now: u64) -> Option<ClaimsView> {
    match hs256_claims(token, secret) {
        Some(c) => if c.3 as int + 60 >= now as int { Some(c) } else { None },
        None => None,
    }
}

/// `i` is the identity the claims `c` stand for: their subject, roles and
/// user name, and no direct permissions.
pub open spec fn identity_of_claims(i: Identity, c: ClaimsView) -> bool {
    &&& i.id@ == c.0
    &&& views(i.roles@) == c.2
    &&& i.permissions@.len() == 0
    &&& i.metadata@.len() == 1
    &&& i.metadata@[0].0@ == "username"@
    &&& i.metadata@[0].1@ == c.1
}

/// The identity `token` stands for at time `now` (seconds since the Unix
/// epoch): the one of the claims it carries under `secret`, while it has
/// not expired (a minute of leeway allowed); `None` otherwise.
pub fn check_token_at(token: &str, secret: &str, now: u64) -> (r: Option<Identity>)
    ensures
        match accepted_claims(token@, secret@, now) {
            Some(c) => r matches Some(i) && identity_of_claims(i, c),
            None => r is None,
        },
{
    match decode_claims(token, secret) {
        Some(c) => {
            if c.exp as u128 + 60 >= now as u128 {
                Some(identity_from_claims(c))
            } else {
                None
            }
        },
        None => None,
    }
}

/// A token carrying claims `c` under `secret` is accepted with exactly those
/// claims up to a minute after its expiry, whatever they hold, and refused
/// after that; a token whose signature does not check is refused.
pub proof fn lemma_token_acceptance(token: Seq<char>, secret: Seq<char>, now: u64)
    ensures
        hs256_claims(token, secret) is None ==> accepted_claims(token, secret, now) is None,
        forall|c: ClaimsView| hs256_claims(token, secret) == Some(c) && now as int <= c.3 as int + 60
            ==> accepted_claims(token, secret, now) == Some(c),
        forall|c: ClaimsView| hs256_claims(token, secret) == Some(c) && now as int > c.3 as int + 60
            ==> accepted_claims(token, secret, now) is None,
{
}

/// The identity a token stands for when it checks under `secret` and has
/// not expired by the clock: the identifier, roles and user name it
/// carries, and no direct permissions. A token whose signature does not
/// check gives `None`.
pub fn check_token(token: &str, secret: &str) -> (r: Option<Identity>)
    ensures
        hs256_claims(token@, secret@) is None ==> r is None,
        r matches Some(i) ==> hs256_claims(token@, secret@) matches Some(c) && {
            &&& i.id@ == c.0
            &&& views(i.roles@) == c.2
            &&& i.permissions@.len() == 0
            &&& i.metadata@.len() == 1
            &&& i.metadata@[0].0@ == "username"@
            &&& i.metadata@[0].1@ == c.1
        },
{
    match crate::clock::now_secs() {
        Some(now) => check_token_at(token, secret, now),
        None => None,
    }
}

/// The identity a request's headers carry: the token of its
/// `Authorization: Bearer` header, else of its `x-session-token` header,
/// checked under `secret`; `None` when there is no token.
pub fn authenticate_token(headers: &Vec<(String, String)>, secret: &str) -> (r: Option<Identity>)
    ensures
        bearer_or_session_token(headers@) is None ==> r is None,
        r matches Some(i) ==> bearer_or_session_token(headers@) matches Some(t) && hs256_claims(t, secret@) matches Some(c) && {
            &&& i.id@ == c.0
            &&& views(i.roles@) == c.2
            &&& i.permissions@.len() == 0
            &&& i.metadata@.len() == 1
            &&& i.metadata@[0].0@ == "username"@
            &&& i.metadata@[0].1@ == c.1
        },
{
    match extract_bearer_or_session_token(headers) {
        Some(t) => check_token(t.as_str(), secret),
        None => None,
    }
}

} // verus!
