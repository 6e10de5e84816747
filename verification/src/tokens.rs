//! Session tokens and the OAuth login flows. A token is an HMAC-signed
//! claim record `{sub, iat, exp, hash}` whose `hash` field is the unpadded
//! base64 of the HMAC-SHA256 of the account's password hash under the
//! server secret — so rotating the password changes the fingerprint and
//! strands every outstanding token. Access tokens live an hour, refresh
//! tokens fourteen days.

use vstd::prelude::*;
use vstd::string::StringSliceAdditionalSpecFns;
use crate::crypto::{
    b64_nopad_of, base64_nopad_encode, bcrypt_matches, bcrypt_verify, hmac_sha256, hmac_sha256_of,
    md5_hex, md5_hex_of,
};
use vstd::utf8::encode_utf8;

verus! {

/// Lifetime of an access token, in seconds.
pub const ACCESS_TOKEN_LIFETIME: i64 = 3600;

/// Lifetime of a refresh token: fourteen days of seconds.
pub const REFRESH_TOKEN_LIFETIME: i64 = 1209600;

/// The claims carried by a token.
#[derive(Debug, Clone)]
pub struct TokenClaim {
    pub sub: i32,
    pub exp: i64,
    pub iat: i64,
    /// Fingerprint of the password hash the token was minted against.
    pub hash: String,
}

/// The token string the jwt crate signs for these claims under this secret.
pub uninterp spec fn jwt_hs256_of(sub: int, iat: int, exp: int, hash: Seq<char>, secret: Seq<u8>) -> Seq<char>;

/// Relies on jwt's SignWithKey over an HMAC-SHA256 key: the token is a
/// function of the claims and the secret, and signing cannot fail — HMAC
/// accepts keys of any length, and serializing these integer and string
/// claims cannot error.
#[verifier::external_body]
fn jwt_sign(sub: i32, iat: i64, exp: i64, hash: &String, secret: &[u8]) -> (r: Option<String>)
    ensures
        r is Some,
        r matches Some(t) ==> t@ == jwt_hs256_of(sub as int, iat as int, exp as int, hash@, secret@),
{
    let key = <hmac::Hmac<sha2::Sha256> as hmac::Mac>::new_from_slice(secret).ok()?;
    let mut claims = std::collections::BTreeMap::new();
    claims.insert("sub", serde_json::Value::from(sub));
    claims.insert("exp", serde_json::Value::from(exp));
    claims.insert("iat", serde_json::Value::from(iat));
    claims.insert("hash", serde_json::Value::from(hash.as_str()));
    jwt::SignWithKey::sign_with_key(claims, &key).ok()
}

/// Relies on jwt's VerifyWithKey over an HMAC-SHA256 key. A token this
/// library signed under the same secret verifies and yields its claims
/// back; which claims a hostile token may carry is not modeled, so nothing
/// more is promised, and the caller must validate the result.
#[verifier::external_body]
fn jwt_decode(token: &str, secret: &[u8]) -> (r: Option<TokenClaim>)
    ensures
        r is None ==> forall|sub: i32, iat: i64, exp: i64, hash: Seq<char>|
            token@ != #[trigger] jwt_hs256_of(sub as int, iat as int, exp as int, hash, secret@),
        r matches Some(c) ==> forall|sub: i32, iat: i64, exp: i64, hash: Seq<char>|
            token@ == #[trigger] jwt_hs256_of(sub as int, iat as int, exp as int, hash, secret@)
                ==> (c.sub == sub && c.iat == iat && c.exp == exp && c.hash@ == hash),
{
    let key = <hmac::Hmac<sha2::Sha256> as hmac::Mac>::new_from_slice(secret).ok()?;
    let claims: std::collections::BTreeMap<String, serde_json::Value> =
        jwt::VerifyWithKey::verify_with_key(token, &key).ok()?;
    let sub = i32::try_from(claims.get("sub")?.as_i64()?).ok()?;
    let exp = claims.get("exp")?.as_i64()?;
    let iat = claims.get("iat")?.as_i64()?;
    let hash = claims.get("hash")?.as_str()?.to_string();
    Some(TokenClaim { sub, exp, iat, hash })
}

/// The fingerprint a password hash gets under the server secret.
pub open spec fn spec_password_fingerprint(secret: Seq<u8>, password_hash: Seq<u8>) -> Seq<char> {
    b64_nopad_of(hmac_sha256_of(secret, password_hash))
}

pub fn password_fingerprint(secret: &[u8], password_hash: &[u8]) -> (r: String)
    ensures
        r@ == spec_password_fingerprint(secret@, password_hash@),
{
    let tag = hmac_sha256(secret, password_hash);
    base64_nopad_encode(&tag)
}

/// When a token's claims stand: its fingerprint equals the account's
/// current one, and it has not expired.
pub open spec fn spec_claims_valid(c: TokenClaim, now: i64, fingerprint: Seq<char>) -> bool {
    c.hash@ == fingerprint && c.exp >= now
}

pub fn check_claims(c: &TokenClaim, now: i64, fingerprint: &String) -> (r: bool)
    ensures
        r == spec_claims_valid(*c, now, fingerprint@),
{
    c.hash.eq(fingerprint) && c.exp >= now
}

/// Verify a presented token against the account's current password hash:
/// check the signature, then the fingerprint and expiry. Anything returned
/// carries claims that stand at `now`; and a token this library minted
/// against the current hash, not yet expired, is always accepted.
pub fn verify_token(token: &str, now: i64, password_hash: &[u8], secret: &[u8]) -> (r: Option<
    TokenClaim,
>)
    ensures
        r matches Some(c) ==> spec_claims_valid(
            c,
            now,
            spec_password_fingerprint(secret@, password_hash@),
        ),
        forall|sub: i32, iat: i64, exp: i64|
            (token@ == #[trigger] jwt_hs256_of(
                sub as int,
                iat as int,
                exp as int,
                spec_password_fingerprint(secret@, password_hash@),
                secret@,
            ) && exp >= now) ==> r is Some,
{
    let r = match jwt_decode(token, secret) {
        None => None,
        Some(c) => {
            let fp = password_fingerprint(secret, password_hash);
            if check_claims(&c, now, &fp) {
                Some(c)
            } else {
                None
            }
        },
    };
    proof {
        assert forall|sub: i32, iat: i64, exp: i64|
            (token@ == #[trigger] jwt_hs256_of(
                sub as int,
                iat as int,
                exp as int,
                spec_password_fingerprint(secret@, password_hash@),
                secret@,
            ) && exp >= now) implies r is Some by {}
    }
    r
}

/// Mint an access token: issued at `now`, expiring an hour later, carrying
/// the current password fingerprint. Minting always succeeds.
pub fn mint_access_token(sub: i32, now: i64, password_hash: &[u8], secret: &[u8]) -> (r: Option<
    String,
>)
    requires
        0 <= now <= 0x1000_0000_0000_0000,
    ensures
        r is Some,
        r matches Some(t) ==> t@ == jwt_hs256_of(
            sub as int,
            now as int,
            now + ACCESS_TOKEN_LIFETIME,
            spec_password_fingerprint(secret@, password_hash@),
            secret@,
        ),
{
    let fp = password_fingerprint(secret, password_hash);
    jwt_sign(sub, now, now + ACCESS_TOKEN_LIFETIME, &fp, secret)
}

/// Mint a refresh token: issued at `now`, expiring fourteen days later.
/// Minting always succeeds.
pub fn mint_refresh_token(sub: i32, now: i64, password_hash: &[u8], secret: &[u8]) -> (r: Option<
    String,
>)
    requires
        0 <= now <= 0x1000_0000_0000_0000,
    ensures
        r is Some,
        r matches Some(t) ==> t@ == jwt_hs256_of(
            sub as int,
            now as int,
            now + REFRESH_TOKEN_LIFETIME,
            spec_password_fingerprint(secret@, password_hash@),
            secret@,
        ),
{
    let fp = password_fingerprint(secret, password_hash);
    jwt_sign(sub, now, now + REFRESH_TOKEN_LIFETIME, &fp, secret)
}

/// Tokens verify exactly by fingerprint and expiry: the validity predicate
/// holds if and only if the claim's hash equals the unpadded base64 of the
/// HMAC of the current password hash, and the expiry has not passed.
pub proof fn lemma_token_validity_iff(c: TokenClaim, now: i64, secret: Seq<u8>, password_hash: Seq<u8>)
    ensures
        spec_claims_valid(c, now, spec_password_fingerprint(secret, password_hash)) <==> (c.hash@
            == b64_nopad_of(hmac_sha256_of(secret, password_hash)) && c.exp >= now),
{
}

/// A password change invalidates outstanding tokens: once the account's
/// fingerprint differs from the one a token carries, that token no longer
/// verifies, at any time. (Distinct fingerprints are a hypothesis here:
/// HMAC-SHA256 collisions cannot be ruled out by proof.)
pub proof fn lemma_password_rotation_invalidates(
    c: TokenClaim,
    now: i64,
    secret: Seq<u8>,
    old_hash: Seq<u8>,
    new_hash: Seq<u8>,
)
    requires
        c.hash@ == spec_password_fingerprint(secret, old_hash),
        spec_password_fingerprint(secret, new_hash) != spec_password_fingerprint(secret, old_hash),
    ensures
        !spec_claims_valid(c, now, spec_password_fingerprint(secret, new_hash)),
{
}

/// A refresh token older than its fourteen-day lifetime is rejected even if
/// the password never changed: expiry alone invalidates it.
pub proof fn lemma_stale_refresh_rejected(c: TokenClaim, now: i64, fingerprint: Seq<char>)
    requires
        c.exp == c.iat + REFRESH_TOKEN_LIFETIME,
        now > c.iat + REFRESH_TOKEN_LIFETIME,
    ensures
        !spec_claims_valid(c, now, fingerprint),
{
}

// ------------------------------------------------------------------
// The OAuth login endpoint's decisions.
// ------------------------------------------------------------------

/// A registered OAuth application.
#[derive(Debug, Clone)]
pub struct OauthApp {
    pub id: i32,
    pub secret: String,
    pub allowed_grant_types: Vec<String>,
}

/// The structured errors the token endpoint returns.
#[derive(Debug, Clone, Copy, PartialEq, Eq, Structural)]
pub enum OauthError {
    ClientId,
    ClientSecret,
    GrantType,
    MissingUsername,
    MissingRefreshToken,
    RefreshToken,
    InvalidCredentials,
    Internal,
}

impl OauthError {
    /// The `error` key of the response body.
    pub fn error_key(&self) -> (r: &'static str)
        ensures
            self is ClientId ==> r@ == "client_id"@,
            self is ClientSecret ==> r@ == "client_secret"@,
            self is GrantType ==> r@ == "grant_type"@,
            self is MissingUsername ==> r@ == "username"@,
            self is MissingRefreshToken ==> r@ == "username"@,
            self is RefreshToken ==> r@ == "refresh_token"@,
            self is InvalidCredentials ==> r@ == "invalid_credentials"@,
            self is Internal ==> r@ == "internal_error"@,
    {
        match self {
            OauthError::ClientId => "client_id",
            OauthError::ClientSecret => "client_secret",
            OauthError::GrantType => "grant_type",
            OauthError::MissingUsername => "username",
            OauthError::MissingRefreshToken => "username",
            OauthError::RefreshToken => "refresh_token",
            OauthError::InvalidCredentials => "invalid_credentials",
            OauthError::Internal => "internal_error",
        }
    }

    /// The human-readable message of the response body.
    pub fn message(&self) -> (r: &'static str)
        ensures
            self is RefreshToken ==> r@ == "Invalid refresh token."@,
            self is InvalidCredentials ==> r@ == "Invalid credentials."@,
    {
        match self {
            OauthError::ClientId => "client_id is incorrect",
            OauthError::ClientSecret => "client_secret is incorrect",
            OauthError::GrantType => "grant_type is incorrect",
            OauthError::MissingUsername => "username and password are required for this grant_type",
            OauthError::MissingRefreshToken => "refresh token are required for this grant_type",
            OauthError::RefreshToken => "Invalid refresh token.",
            OauthError::InvalidCredentials => "Invalid credentials.",
            OauthError::Internal => "internal error",
        }
    }
}

/// Does some element of the list read as the given text?
pub open spec fn spec_contains_string(l: Seq<String>, s: Seq<char>) -> bool {
    exists|i: int| 0 <= i < l.len() && l[i]@ == s
}

fn contains_string(l: &Vec<String>, s: &String) -> (r: bool)
    ensures
        r == spec_contains_string(l@, s@),
{
    let mut i: usize = 0;
    while i < l.len()
        invariant
            i <= l@.len(),
            forall|j: int| 0 <= j < i ==> l@[j]@ != s@,
        decreases l@.len() - i,
    {
        if l[i].eq(s) {
            return true;
        }
        i = i + 1;
    }
    false
}

/// Validate the client of a token request, in the order the endpoint
/// reports errors: an unknown client id first, then a grant type the
/// application does not allow, then a wrong client secret.
pub open spec fn spec_validate_client(
    app: Option<OauthApp>,
    client_secret: Seq<char>,
    grant_type: Seq<char>,
) -> Option<OauthError> {
    match app {
        None => Some(OauthError::ClientId),
        Some(a) => if !spec_contains_string(a.allowed_grant_types@, grant_type) {
            Some(OauthError::GrantType)
        } else if a.secret@ != client_secret {
            Some(OauthError::ClientSecret)
        } else {
            None
        },
    }
}

pub fn validate_client(app: &Option<OauthApp>, client_secret: &String, grant_type: &String) -> (r:
    Option<OauthError>)
    ensures
        r == spec_validate_client(*app, client_secret@, grant_type@),
{
    match app {
        None => Some(OauthError::ClientId),
        Some(a) => {
            if !contains_string(&a.allowed_grant_types, grant_type) {
                Some(OauthError::GrantType)
            } else if !a.secret.eq(client_secret) {
                Some(OauthError::ClientSecret)
            } else {
                None
            }
        },
    }
}

/// Whether a presented plain password belongs to the stored bcrypt hash:
/// the client convention hashes the password with MD5 first, and bcrypt
/// checks that digest against the stored hash.
pub open spec fn spec_password_matches(password: Seq<char>, stored_hash: Seq<char>) -> bool {
    bcrypt_matches(encode_utf8(md5_hex_of(encode_utf8(password))), stored_hash)
}

pub fn password_matches(password: &String, stored_hash: &String) -> (r: bool)
    ensures
        r == spec_password_matches(password@, stored_hash@),
{
    let digest = md5_hex(password.as_str().as_bytes());
    bcrypt_verify(digest.as_str().as_bytes(), stored_hash.as_str())
}

/// The password grant: fails with invalid credentials when the user is
/// unknown or the password does not match; otherwise mints an access and a
/// refresh token against the account's current password hash. A signing
/// failure surfaces as an internal error.
pub fn password_grant(
    user: &Option<(i32, String)>,
    password: &String,
    now: i64,
    secret: &[u8],
) -> (r: Result<(String, String), OauthError>)
    requires
        0 <= now <= 0x1000_0000_0000_0000,
    ensures
        (user is None || (user matches Some((_, h)) && !spec_password_matches(password@, h@)))
            <==> r == Result::<(String, String), OauthError>::Err(OauthError::InvalidCredentials),
        r is Ok <==> (user matches Some((_, h)) && spec_password_matches(password@, h@)),
        r matches Ok((access, refresh)) ==> (user matches Some((uid, h))
            && spec_password_matches(password@, h@) && access@ == jwt_hs256_of(
            uid as int,
            now as int,
            now + ACCESS_TOKEN_LIFETIME,
            spec_password_fingerprint(secret@, encode_utf8(h@)),
            secret@,
        ) && refresh@ == jwt_hs256_of(
            uid as int,
            now as int,
            now + REFRESH_TOKEN_LIFETIME,
            spec_password_fingerprint(secret@, encode_utf8(h@)),
            secret@,
        )),
{
    match user {
        None => Err(OauthError::InvalidCredentials),
        Some((uid, stored_hash)) => {
            if !password_matches(password, stored_hash) {
                return Err(OauthError::InvalidCredentials);
            }
            let access = mint_access_token(*uid, now, stored_hash.as_str().as_bytes(), secret);
            let refresh = mint_refresh_token(*uid, now, stored_hash.as_str().as_bytes(), secret);
            match (access, refresh) {
                (Some(a), Some(r2)) => Ok((a, r2)),
                _ => Err(OauthError::Internal),
            }
        },
    }
}

/// The refresh grant: the claims must have survived the signature check,
/// the user they name must exist, and the claims must still stand against
/// the account's current password hash — a rotated password or a stale
/// expiry rejects the token. Fresh tokens are then minted.
pub fn refresh_grant(
    claims: &Option<TokenClaim>,
    user: &Option<(i32, String)>,
    now: i64,
    secret: &[u8],
) -> (r: Result<(String, String), OauthError>)
    requires
        0 <= now <= 0x1000_0000_0000_0000,
    ensures
        (claims is None || user is None || (claims matches Some(c) && user matches Some((_, h))
            && !spec_claims_valid(*c, now, spec_password_fingerprint(secret@, encode_utf8(h@))))) <==> r
            == Result::<(String, String), OauthError>::Err(OauthError::RefreshToken),
        r is Ok <==> (claims matches Some(c) && user matches Some((_, h)) && spec_claims_valid(
            *c,
            now,
            spec_password_fingerprint(secret@, encode_utf8(h@)),
        )),
        r matches Ok((access, refresh)) ==> (claims matches Some(c) && user matches Some((uid, h))
            && spec_claims_valid(*c, now, spec_password_fingerprint(secret@, encode_utf8(h@)))
            && access@ == jwt_hs256_of(
            uid as int,
            now as int,
            now + ACCESS_TOKEN_LIFETIME,
            spec_password_fingerprint(secret@, encode_utf8(h@)),
            secret@,
        ) && refresh@ == jwt_hs256_of(
            uid as int,
            now as int,
            now + REFRESH_TOKEN_LIFETIME,
            spec_password_fingerprint(secret@, encode_utf8(h@)),
            secret@,
        )),
{
    match (claims, user) {
        (Some(c), Some((uid, stored_hash))) => {
            let fp = password_fingerprint(secret, stored_hash.as_str().as_bytes());
            if !check_claims(c, now, &fp) {
                return Err(OauthError::RefreshToken);
            }
            let access = mint_access_token(*uid, now, stored_hash.as_str().as_bytes(), secret);
            let refresh = mint_refresh_token(*uid, now, stored_hash.as_str().as_bytes(), secret);
            match (access, refresh) {
                (Some(a), Some(r2)) => Ok((a, r2)),
                _ => Err(OauthError::Internal),
            }
        },
        _ => Err(OauthError::RefreshToken),
    }
}

/// Decode a presented refresh token's signature: a token this library
/// signed yields its claims back, and nothing decodes that was not signed
/// under the secret. The claims still need validation against the account.
pub fn decode_token(token: &str, secret: &[u8]) -> (r: Option<TokenClaim>)
    ensures
        r is None ==> forall|sub: i32, iat: i64, exp: i64, hash: Seq<char>|
            token@ != #[trigger] jwt_hs256_of(sub as int, iat as int, exp as int, hash, secret@),
        r matches Some(c) ==> forall|sub: i32, iat: i64, exp: i64, hash: Seq<char>|
            token@ == #[trigger] jwt_hs256_of(sub as int, iat as int, exp as int, hash, secret@)
                ==> (c.sub == sub && c.iat == iat && c.exp == exp && c.hash@ == hash),
{
    jwt_decode(token, secret)
}

/// The identity cache's password check: a cached verification short-cuts to
/// comparing the cached hash with the stored one; a miss falls back to
/// bcrypt against the stored hash. The presented credential reaches this
/// point already MD5-hashed by the client.
pub fn check_cached_password(cached: &Option<String>, stored_hash: &String, presented: &String) -> (r:
    bool)
    ensures
        cached matches Some(c) ==> r == (stored_hash@ == c@),
        cached is None ==> r == bcrypt_matches(encode_utf8(presented@), stored_hash@),
{
    match cached {
        Some(c) => stored_hash.eq(c),
        None => bcrypt_verify(presented.as_str().as_bytes(), stored_hash.as_str()),
    }
}

} // verus!
