//! Credential handling: password hashing and verification, and issue /
//! validation of signed identity claims with expiry.
//!
//! The cryptography itself is performed by outside libraries and is
//! specified here through named results; the expiry policy and the
//! registry checks around it are verified logic.

use vstd::prelude::*;
use crate::types::UserID;

verus! {

/// A decoded credential claim: an identity and an expiry timestamp in
/// seconds since the Unix epoch. Validity requires the signature to
/// check out and the expiry to be no earlier than the present moment.
pub struct Jwt {
    pub name: UserID,
    pub exp: u64,
}

/// Whether `password` matches the bcrypt hash `hash`. A function of the
/// two strings alone; a malformed hash matches nothing.
pub uninterp spec fn bcrypt_verifies(password: Seq<char>, hash: Seq<char>) -> bool;

/// The signed token that carries the claim (`name`, `exp`) under
/// `secret`. HMAC signing with a fixed header is deterministic.
pub uninterp spec fn jwt_of(name: Seq<char>, exp: u64, secret: Seq<u8>) -> Seq<char>;

/// The claim a token's signature binds under `secret`: `Some` exactly
/// when the signature verifies and the payload carries a textual
/// identity and an integral expiry. A function of token and secret
/// alone; the clock plays no part in it.
pub uninterp spec fn claims_of(token: Seq<char>, secret: Seq<u8>) -> Option<(Seq<char>, u64)>;

/// Relies on bcrypt::verify: whether a password matches a bcrypt hash
/// depends on the two strings alone. An error (malformed hash) counts
/// as no match, as the login path expects.
#[verifier::external_body]
pub(crate) fn verify_password(password: &str, hash: &str) -> (r: bool)
    ensures
        r == bcrypt_verifies(password@, hash@),
{
    bcrypt::verify(password, hash).unwrap_or(false)
}

/// Relies on bcrypt::hash: the salt is drawn from the operating system,
/// so all that holds of every outcome is that a produced hash verifies
/// the password it was made from.
#[verifier::external_body]
pub(crate) fn hash_password(password: &str) -> (r: Option<String>)
    ensures
        r matches Some(h) ==> bcrypt_verifies(password@, h@),
{
    bcrypt::hash(password, bcrypt::DEFAULT_COST).ok()
}

/// Relies on jsonwebtoken::encode with an HS512 header: signing is
/// deterministic in the claims and the secret, and decoding the token
/// with the same secret yields the same claims back. For a byte-string
/// secret the call cannot fail — the key's family matches the header's,
/// the HMAC construction accepts a key of any length, the claim object
/// always serializes, and HMAC signing is infallible — so a token is
/// always produced.
#[verifier::external_body]
pub(crate) fn encode_claims(name: &str, exp: u64, secret: &[u8]) -> (r: Option<String>)
    ensures
        r is Some,
        r matches Some(t) ==> t@ == jwt_of(name@, exp, secret@),
        r matches Some(t) ==> claims_of(t@, secret@) == Some((name@, exp)),
{
    let mut claims = serde_json::Map::new();
    claims.insert("name".to_string(), serde_json::Value::String(name.to_string()));
    claims.insert("exp".to_string(), serde_json::Value::from(exp));
    let header = jsonwebtoken::Header::new(jsonwebtoken::Algorithm::HS512);
    let key = jsonwebtoken::EncodingKey::from_secret(secret);
    jsonwebtoken::encode(&header, &serde_json::Value::Object(claims), &key).ok()
}

/// Relies on jsonwebtoken::decode with HS512 and default validation:
/// whenever it accepts a token (it also consults the clock for the
/// expiry claim, so acceptance is not a function of the arguments),
/// the claims it returns are the ones the token's signature binds
/// under the secret. Leading and trailing whitespace around the token
/// is ignored before decoding.
#[verifier::external_body]
pub fn decode_jwt(token: &str, secret: &[u8]) -> (r: Option<Jwt>)
    ensures
        r matches Some(j) ==> claims_of(token@, secret@) == Some((j.name@, j.exp)),
{
    let validation = jsonwebtoken::Validation::new(jsonwebtoken::Algorithm::HS512);
    let key = jsonwebtoken::DecodingKey::from_secret(secret);
    let data = jsonwebtoken::decode::<serde_json::Value>(token.trim(), &key, &validation).ok()?;
    let name = data.claims.get("name")?.as_str()?.to_string();
    let exp = data.claims.get("exp")?.as_u64()?;
    Some(Jwt { name: UserID(name), exp })
}

/// Whether a claim expiring at `exp` is still current at time `now`.
pub open spec fn spec_jwt_current(exp: u64, now: u64) -> bool {
    exp >= now
}

impl Jwt {
    /// Whether this claim is still current at time `now`.
    pub fn is_current(&self, now: u64) -> (r: bool)
        ensures
            r == spec_jwt_current(self.exp, now),
    {
        self.exp >= now
    }
}

/// Issue a signed credential for `name`, good for an hour from `now`:
/// the token decodes back to exactly this identity and expiry under
/// the same secret.
pub fn encode_jwt(name: &UserID, secret: &[u8], now: u64) -> (r: String)
    requires
        now <= u64::MAX - 3600,
    ensures
        r@ == jwt_of(name@, (now + 3600) as u64, secret@),
        claims_of(r@, secret@) == Some((name@, (now + 3600) as u64)),
{
    let exp: u64 = now + 3600;
    match encode_claims(name.0.as_str(), exp, secret) {
        Some(t) => t,
        None => vstd::pervasive::unreached(),
    }
}

/// Decode a token and apply the expiry policy: accepted claims carry
/// the identity the signature binds, and have not expired at `now`.
pub fn check_token(token: &str, secret: &[u8], now: u64) -> (r: Option<Jwt>)
    ensures
        r matches Some(j) ==> {
            &&& claims_of(token@, secret@) == Some((j.name@, j.exp))
            &&& spec_jwt_current(j.exp, now)
        },
{
    match decode_jwt(token, secret) {
        Some(j) => if j.exp >= now {
            Some(j)
        } else {
            None
        },
        None => None,
    }
}

} // verus!
