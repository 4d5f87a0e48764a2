//! The operations that this library takes from other crates and from the
//! operating system. Their contracts are stated here and believed, not
//! proved: everything else in the library is proved from them.

use crate::token::{Claims, ClaimsView};
use vstd::prelude::*;

verus! {

/// The SHA-256 digest of a byte string.
pub uninterp spec fn sha256_digest(data: Seq<u8>) -> Seq<u8>;

/// `sha2::Sha256::digest`: the digest depends on the bytes alone and is 32
/// bytes long.
#[verifier::external_body]
pub(crate) fn sha256(data: &[u8]) -> (out: Vec<u8>)
    ensures
        out@ == sha256_digest(data@),
        out@.len() == 32,
{
    <sha2::Sha256 as sha2::Digest>::digest(data).to_vec()
}

/// The unpadded RFC 4648 base-32 text of a byte string.
pub uninterp spec fn base32_text(data: Seq<u8>) -> Seq<char>;

/// The bytes that a base-32 text stands for, if it is one.
pub uninterp spec fn base32_bytes(text: Seq<char>) -> Option<Seq<u8>>;

/// The characters that base-32 text is written with.
pub open spec fn is_base32_char(c: char) -> bool {
    ('A' <= c && c <= 'Z') || ('2' <= c && c <= '7')
}

/// `base32::encode` with the unpadded RFC 4648 alphabet: the text depends on
/// the bytes alone, has one character for every five bits or part of five
/// bits, is written with `A`-`Z` and `2`-`7` only, and decodes back to the
/// same bytes.
#[verifier::external_body]
pub(crate) fn base32_encode(data: &[u8]) -> (out: String)
    ensures
        out@ == base32_text(data@),
        out@.len() == (8 * data@.len() + 4) / 5,
        forall|i: int| 0 <= i < out@.len() ==> is_base32_char(#[trigger] out@[i]),
        base32_bytes(out@) == Some(data@),
{
    base32::encode(base32::Alphabet::RFC4648 { padding: false }, data)
}

/// `base32::decode` with the unpadded RFC 4648 alphabet: whether the text
/// decodes, and to what, depends on the text alone.
#[verifier::external_body]
pub(crate) fn base32_decode(text: &str) -> (out: Option<Vec<u8>>)
    ensures
        match out {
            Some(bytes) => base32_bytes(text@) == Some(bytes@),
            None => base32_bytes(text@).is_none(),
        },
{
    base32::decode(base32::Alphabet::RFC4648 { padding: false }, text)
}

/// `rand::Rng::fill` on the thread-local generator: twenty bytes about which
/// nothing is known beforehand.
#[verifier::external_body]
pub(crate) fn random_nonce() -> [u8; 20] {
    let mut nonce = [0u8; 20];
    rand::Rng::fill(&mut rand::thread_rng(), &mut nonce[..]);
    nonce
}

/// One more than the latest reading that `unix_now` can give: chrono
/// counts the days of a date in 32 bits and the seconds of a day up to
/// 86 400.
pub const UNIX_NOW_LIMIT: i64 = 185_542_587_187_200;

/// `chrono::Utc::now().timestamp()`: the wall clock in seconds since the
/// Unix epoch. Whatever it shows, the reading is not before the epoch and
/// within what chrono can tell.
#[verifier::external_body]
pub(crate) fn unix_now() -> (now: i64)
    ensures
        0 <= now < UNIX_NOW_LIMIT,
{
    chrono::Utc::now().timestamp()
}

#[verifier::external_type_specification]
#[verifier::external_body]
pub struct ExJwtError(jsonwebtoken::errors::Error);

/// The token that carries the claims, signed with the secret.
pub uninterp spec fn jwt_token(claims: ClaimsView, secret: Seq<char>) -> Seq<char>;

/// The claims that a token carries, if it is a token signed with the
/// secret and its five claims are there.
pub uninterp spec fn jwt_claims(token: Seq<char>, secret: Seq<char>) -> Option<ClaimsView>;

/// `jsonwebtoken::encode` with the default header (HMAC-SHA-256) on the five
/// claims as a JSON object. With a secret for a key and claims of text and
/// whole numbers nothing can fail. The token depends on the claims and the
/// secret alone; it is three parts joined by dots, so it is not empty; and
/// decoding it with the same secret gives the claims back.
#[verifier::external_body]
pub(crate) fn jwt_encode(claims: &Claims, secret: &str) -> (r: Result<
    String,
    jsonwebtoken::errors::Error,
>)
    ensures
        r is Ok,
        r matches Ok(token) ==> token@ == jwt_token(claims@, secret@),
        r matches Ok(token) ==> token@.len() > 0,
        r matches Ok(token) ==> jwt_claims(token@, secret@) == Some(claims@),
{
    let body = std::collections::BTreeMap::from([
        ("sub", serde_json::Value::from(claims.sub.as_str())),
        ("api_key_id", serde_json::Value::from(claims.api_key_id)),
        ("scopes", serde_json::Value::from(claims.scopes.clone())),
        ("exp", serde_json::Value::from(claims.exp)),
        ("iat", serde_json::Value::from(claims.iat)),
    ]);
    let key = jsonwebtoken::EncodingKey::from_secret(secret.as_bytes());
    jsonwebtoken::encode(&jsonwebtoken::Header::default(), &body, &key)
}

/// `jsonwebtoken::decode` with the signature checked (HMAC-SHA-256) and the
/// expiry left to the caller, then the five claims read from the JSON
/// object: whether this succeeds, and with which claims, depends on the
/// token and the secret alone.
#[verifier::external_body]
pub(crate) fn jwt_decode(token: &str, secret: &str) -> (r: Result<
    Claims,
    jsonwebtoken::errors::Error,
>)
    ensures
        match r {
            Ok(claims) => jwt_claims(token@, secret@) == Some(claims@),
            Err(_) => jwt_claims(token@, secret@).is_none(),
        },
{
    let mut rules = jsonwebtoken::Validation::default();
    rules.validate_exp = false;
    rules.required_spec_claims.clear();
    let key = jsonwebtoken::DecodingKey::from_secret(secret.as_bytes());
    let body = jsonwebtoken::decode::<serde_json::Value>(token, &key, &rules)?.claims;
    let fields = serde_json::Value::Array(vec![
        body["sub"].clone(),
        body["api_key_id"].clone(),
        body["scopes"].clone(),
        body["exp"].clone(),
        body["iat"].clone(),
    ]);
    let (sub, api_key_id, scopes, exp, iat) = serde_json::from_value(fields)?;
    Ok(Claims { sub, api_key_id, scopes, exp, iat })
}

#[verifier::external_type_specification]
#[verifier::external_body]
pub struct ExInstant(std::time::Instant);

/// `std::time::Instant::now`: a reading of the monotonic clock.
#[verifier::external_body]
pub(crate) fn clock_origin() -> std::time::Instant {
    std::time::Instant::now()
}

/// `std::time::Instant::elapsed`: the time that went by since the reading,
/// however long that is.
#[verifier::external_body]
pub(crate) fn clock_elapsed(origin: &std::time::Instant) -> std::time::Duration {
    origin.elapsed()
}

/// `std::time::Duration::as_nanos`: a span of time in whole nanoseconds.
#[verifier::external_body]
pub(crate) fn duration_nanos(span: &std::time::Duration) -> u128 {
    span.as_nanos()
}

} // verus!
