//! Bearer tokens: minting of prefixed opaque tokens, classification by
//! prefix, and JSON Web Tokens for sessions.

use vstd::prelude::*;
use crate::strutil::str_starts_with;
use crate::timeutil::now_epoch_seconds;
use jsonwebtoken::{decode, encode, DecodingKey, EncodingKey, Header, Validation};
use serde_json::Value;

verus! {

#[derive(Debug)]
pub enum TokenError {
    Creation(String),
    Validation(String),
    Expired,
}

/// Session claims carried inside a JWT.
pub struct Claims {
    pub sub: i64,
    pub username: String,
    pub is_admin: bool,
    pub exp: i64,
    pub iat: i64,
}

/// The kind of bearer token, told apart by prefix.
#[derive(Clone, Copy, Debug, PartialEq, Eq, Structural)]
pub enum TokenType {
    AppToken,
    ClientToken,
    WebhookToken,
    Jwt,
}

pub open spec fn spec_classify_token(t: Seq<char>) -> TokenType {
    if "AP_"@.is_prefix_of(t) {
        TokenType::AppToken
    } else if "CL_"@.is_prefix_of(t) {
        TokenType::ClientToken
    } else if "WH_"@.is_prefix_of(t) {
        TokenType::WebhookToken
    } else {
        TokenType::Jwt
    }
}

/// Determine the type of token from its prefix.  A token without a known
/// prefix is treated as a session token.
pub fn classify_token(token: &str) -> (r: TokenType)
    ensures
        r == spec_classify_token(token@),
{
    if str_starts_with(token, "AP_") {
        TokenType::AppToken
    } else if str_starts_with(token, "CL_") {
        TokenType::ClientToken
    } else if str_starts_with(token, "WH_") {
        TokenType::WebhookToken
    } else {
        TokenType::Jwt
    }
}

// ---------------------------------------------------------------------------
// Opaque token minting
// ---------------------------------------------------------------------------

pub open spec fn spec_is_lower_hex(c: char) -> bool {
    ('0' <= c && c <= '9') || ('a' <= c && c <= 'f')
}

/// Relies on `uuid::Uuid::new_v4` and its simple formatter: a version-4
/// UUID from a cryptographic random source, written as 32 lowercase
/// hexadecimal characters.
#[verifier::external_body]
fn random_hex32() -> (r: String)
    ensures
        r@.len() == 32,
        forall|i: int| 0 <= i < 32 ==> spec_is_lower_hex(r@[i]),
{
    uuid::Uuid::new_v4().as_simple().to_string()
}

/// Relies on `uuid::Uuid::new_v4` and its hyphenated formatter: a version-4
/// UUID from a cryptographic random source, written as 36 characters of
/// lowercase hexadecimal digits and hyphens.
#[verifier::external_body]
pub fn random_uuid36() -> (r: String)
    ensures
        r@.len() == 36,
        forall|i: int| 0 <= i < 36 ==> spec_is_lower_hex(r@[i]) || r@[i] == '-',
{
    uuid::Uuid::new_v4().to_string()
}

/// Whether `t` is a well-formed minted token: the given prefix followed by
/// 32 lowercase hexadecimal characters.
pub open spec fn spec_minted_token(t: Seq<char>, prefix: Seq<char>) -> bool {
    &&& t.len() == prefix.len() + 32
    &&& prefix.is_prefix_of(t)
    &&& forall|i: int| prefix.len() <= i < t.len() ==> spec_is_lower_hex(t[i])
}

/// Generate a prefixed application token.
pub fn generate_app_token() -> (r: String)
    ensures
        spec_minted_token(r@, "AP_"@),
        spec_classify_token(r@) == TokenType::AppToken,
{
    let hex = random_hex32();
    let r = String::from_str("AP_").concat(hex.as_str());
    proof {
        reveal_strlit("AP_");
        assert("AP_"@.is_prefix_of(r@));
        assert(forall|i: int| 3 <= i < r@.len() ==> spec_is_lower_hex(r@[i]));
    }
    r
}

/// Generate a prefixed client token.
pub fn generate_client_token() -> (r: String)
    ensures
        spec_minted_token(r@, "CL_"@),
        spec_classify_token(r@) == TokenType::ClientToken,
{
    let hex = random_hex32();
    let r = String::from_str("CL_").concat(hex.as_str());
    proof {
        reveal_strlit("CL_");
        reveal_strlit("AP_");
        assert("CL_"@.is_prefix_of(r@));
        assert(r@[0] == 'C');
        if "AP_"@.is_prefix_of(r@) {
            assert("AP_"@[0] == r@.subrange(0, 3)[0]);
        }
        assert(forall|i: int| 3 <= i < r@.len() ==> spec_is_lower_hex(r@[i]));
    }
    r
}

/// Generate a webhook token.
pub fn generate_webhook_token() -> (r: String)
    ensures
        spec_minted_token(r@, "WH_"@),
        spec_classify_token(r@) == TokenType::WebhookToken,
{
    let hex = random_hex32();
    let r = String::from_str("WH_").concat(hex.as_str());
    proof {
        reveal_strlit("WH_");
        reveal_strlit("CL_");
        reveal_strlit("AP_");
        assert("WH_"@.is_prefix_of(r@));
        assert(r@[0] == 'W');
        if "AP_"@.is_prefix_of(r@) {
            assert("AP_"@[0] == r@.subrange(0, 3)[0]);
        }
        if "CL_"@.is_prefix_of(r@) {
            assert("CL_"@[0] == r@.subrange(0, 3)[0]);
        }
        assert(forall|i: int| 3 <= i < r@.len() ==> spec_is_lower_hex(r@[i]));
    }
    r
}

// ---------------------------------------------------------------------------
// JSON Web Tokens
// ---------------------------------------------------------------------------

/// The session token that signing the given claims with the given secret
/// yields.  HMAC signing is a pure function of its inputs, so the token is
/// one too; its pages-long construction stays unstated.
pub uninterp spec fn jwt_of(
    sub: int,
    username: Seq<char>,
    is_admin: bool,
    exp: int,
    iat: int,
    secret: Seq<char>,
) -> Seq<char>;

/// Relies on `jsonwebtoken::encode` with the default HS256 header: the
/// result is the deterministic signed encoding of exactly the claim fields
/// handed in, under the given secret.
#[verifier::external_body]
fn encode_jwt(claims: &Claims, secret: &str) -> (r: Result<String, TokenError>)
    ensures
        r is Ok ==> (r matches Ok(t) && t@ == jwt_of(
            claims.sub as int,
            claims.username@,
            claims.is_admin,
            claims.exp as int,
            claims.iat as int,
            secret@,
        )),
{
    let mut m = serde_json::Map::new();
    m.insert("sub".to_string(), Value::from(claims.sub));
    m.insert("username".to_string(), Value::from(claims.username.clone()));
    m.insert("is_admin".to_string(), Value::from(claims.is_admin));
    m.insert("exp".to_string(), Value::from(claims.exp));
    m.insert("iat".to_string(), Value::from(claims.iat));
    encode(&Header::default(), &Value::Object(m), &EncodingKey::from_secret(secret.as_bytes()))
        .map_err(|e| TokenError::Creation(e.to_string()))
}

/// Relies on `jsonwebtoken::decode` with default validation (HS256,
/// signature checked, `exp` required and compared against the clock): when
/// it succeeds on a token that was minted from some claim fields under the
/// same secret, the claims it returns are exactly those fields.
#[verifier::external_body]
fn decode_jwt(token: &str, secret: &str) -> (r: Result<Claims, TokenError>)
    ensures
        forall|sub: i64, username: Seq<char>, admin: bool, exp: i64, iat: i64|
            token@ == #[trigger] jwt_of(sub as int, username, admin, exp as int, iat as int, secret@)
                && r is Ok ==> {
                &&& r matches Ok(c)
                &&& c.sub == sub
                &&& c.username@ == username
                &&& c.is_admin == admin
                &&& c.exp == exp
                &&& c.iat == iat
            },
{
    let c = decode::<Value>(token, &DecodingKey::from_secret(secret.as_bytes()), &Validation::default())
        .map_err(|e| TokenError::Validation(e.to_string()))?.claims;
    match (c.get("sub").and_then(Value::as_i64), c.get("username").and_then(Value::as_str),
           c.get("is_admin").and_then(Value::as_bool), c.get("exp").and_then(Value::as_i64),
           c.get("iat").and_then(Value::as_i64)) {
        (Some(s), Some(u), Some(a), Some(e), Some(i)) =>
            Ok(Claims { sub: s, username: u.to_string(), is_admin: a, exp: e, iat: i }),
        _ => Err(TokenError::Validation("claims incomplete".to_string())),
    }
}

/// Session lifetime in seconds.
pub const JWT_LIFETIME_SECS: i64 = 86400;

/// Create a JWT session token for the given user, valid for 24 hours from
/// the moment of minting.
pub fn create_jwt(user_id: i64, username: &str, is_admin: bool, secret: &str) -> (r: Result<
    String,
    TokenError,
>)
    ensures
        r matches Ok(t) ==> exists|iat: i64, exp: i64|
            exp == iat + JWT_LIFETIME_SECS && t@ == jwt_of(
                user_id as int,
                username@,
                is_admin,
                exp as int,
                iat as int,
                secret@,
            ),
{
    let now = now_epoch_seconds();
    let exp = match now.checked_add(JWT_LIFETIME_SECS) {
        Some(e) => e,
        None => {
            return Err(TokenError::Creation(String::from_str("clock out of range")));
        },
    };
    let claims = Claims {
        sub: user_id,
        username: String::from_str(username),
        is_admin,
        exp,
        iat: now,
    };
    encode_jwt(&claims, secret)
}

/// Validate and decode a JWT.  Success pins the claims down: whenever the
/// token was minted from some claim fields under this secret, the claims
/// returned are exactly those fields.
pub fn validate_jwt(token: &str, secret: &str) -> (r: Result<Claims, TokenError>)
    ensures
        forall|sub: i64, username: Seq<char>, admin: bool, exp: i64, iat: i64|
            token@ == #[trigger] jwt_of(sub as int, username, admin, exp as int, iat as int, secret@)
                && r is Ok ==> {
                &&& r matches Ok(c)
                &&& c.sub == sub
                &&& c.username@ == username
                &&& c.is_admin == admin
                &&& c.exp == exp
                &&& c.iat == iat
            },
{
    decode_jwt(token, secret)
}

/// Law: a token minted for given user data never validates to different
/// user data under the same secret.  Whenever validation of the minted
/// token succeeds, the claims are exactly those minted.
pub fn jwt_mint_validate_agree(user_id: i64, username: &str, is_admin: bool, secret: &str) -> (r:
    Option<Claims>)
    ensures
        r matches Some(c) ==> {
            &&& c.sub == user_id
            &&& c.username@ == username@
            &&& c.is_admin == is_admin
        },
{
    let token = match create_jwt(user_id, username, is_admin, secret) {
        Ok(t) => t,
        Err(_) => {
            return None;
        },
    };
    let v = validate_jwt(token.as_str(), secret);
    proof {
        if v is Ok {
            let (iat0, exp0): (i64, i64) = choose|iat: i64, exp: i64|
                exp == iat + JWT_LIFETIME_SECS && token@ == jwt_of(
                    user_id as int,
                    username@,
                    is_admin,
                    exp as int,
                    iat as int,
                    secret@,
                );
            assert(token@ == jwt_of(
                user_id as int,
                username@,
                is_admin,
                exp0 as int,
                iat0 as int,
                secret@,
            ));
        }
    }
    match v {
        Ok(c) => Some(c),
        Err(_) => None,
    }
}

} // verus!
