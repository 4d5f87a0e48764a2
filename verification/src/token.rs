//! Access tokens: short-lived signed claims that stand in for an API key.

use crate::errors::ApiError;
use crate::primitives::{
    jwt_claims, jwt_decode, jwt_encode, jwt_token, sha256, sha256_digest, unix_now,
    UNIX_NOW_LIMIT,
};
use crate::text::{decimal_string, decimal_text, hex_lower, hex_string};
use vstd::prelude::*;
use vstd::utf8::encode_utf8;

verus! {

/// What a token says: whose it is, under which key it was issued, what it
/// allows, and from when until when it holds. Points in time are seconds
/// since the Unix epoch.
#[derive(Debug)]
pub struct Claims {
    pub sub: String,
    pub api_key_id: i64,
    pub scopes: Vec<String>,
    pub exp: i64,
    pub iat: i64,
}

/// Claims as the contracts see them.
pub struct ClaimsView {
    pub sub: Seq<char>,
    pub api_key_id: i64,
    pub scopes: Seq<Seq<char>>,
    pub exp: i64,
    pub iat: i64,
}

/// The text of each scope of a list.
pub open spec fn scope_texts(scopes: Seq<String>) -> Seq<Seq<char>> {
    scopes.map_values(|scope: String| scope@)
}

/// What decoding gave, as the contracts see it.
pub open spec fn claims_view(decoded: Option<Claims>) -> Option<ClaimsView> {
    match decoded {
        Some(claims) => Some(claims@),
        None => None,
    }
}

/// The outcome of issuing a token, as the contracts see it.
pub open spec fn issued_view(r: Result<String, ApiError>) -> Result<Seq<char>, ApiError> {
    match r {
        Ok(token) => Ok(token@),
        Err(e) => Err(e),
    }
}

/// The outcome of checking a token, as the contracts see it.
pub open spec fn checked_view(r: Result<Claims, ApiError>) -> Result<ClaimsView, ApiError> {
    match r {
        Ok(claims) => Ok(claims@),
        Err(e) => Err(e),
    }
}

impl View for Claims {
    type V = ClaimsView;

    open spec fn view(&self) -> ClaimsView {
        ClaimsView {
            sub: self.sub@,
            api_key_id: self.api_key_id,
            scopes: scope_texts(self.scopes@),
            exp: self.exp,
            iat: self.iat,
        }
    }
}

/// For how many seconds a token holds.
pub const TOKEN_VALIDITY_SECONDS: i64 = 3600;

/// The claims of a token issued at `now`: the subject is the user id in
/// decimal, and the token expires one validity span after it was issued.
pub open spec fn issued_claims(
    user_id: i64,
    api_key_id: i64,
    scopes: Seq<Seq<char>>,
    now: i64,
) -> ClaimsView {
    ClaimsView {
        sub: decimal_text(user_id as int),
        api_key_id,
        scopes,
        exp: (now + TOKEN_VALIDITY_SECONDS) as i64,
        iat: now,
    }
}

/// What issuing a token at `now` comes to: the signed claims, unless the
/// expiry does not fit the clock, which is `Internal`.
pub open spec fn issue_verdict(
    secret: Seq<char>,
    user_id: i64,
    api_key_id: i64,
    scopes: Seq<Seq<char>>,
    now: i64,
) -> Result<Seq<char>, ApiError> {
    if now + TOKEN_VALIDITY_SECONDS > i64::MAX {
        Err(ApiError::Internal)
    } else {
        Ok(jwt_token(issued_claims(user_id, api_key_id, scopes, now), secret))
    }
}

/// What becomes of a token once it was decoded: a token that did not
/// decode is `InvalidToken`, one whose expiry lies before `now` is
/// `TokenExpired`, and any other is good for its claims.
pub open spec fn claims_verdict(decoded: Option<ClaimsView>, now: i64) -> Result<
    ClaimsView,
    ApiError,
> {
    match decoded {
        None => Err(ApiError::InvalidToken),
        Some(claims) => if claims.exp < now {
            Err(ApiError::TokenExpired)
        } else {
            Ok(claims)
        },
    }
}

/// The hash under which an issued token is put on record: the SHA-256
/// digest of the token in lower-case hexadecimal.
pub open spec fn token_hash_text(token: Seq<char>) -> Seq<char> {
    hex_lower(sha256_digest(encode_utf8(token)))
}

/// A token that decoded and has not expired is accepted with exactly the
/// claims it carries.
pub proof fn law_unexpired_claims_are_accepted(claims: ClaimsView, now: i64)
    requires
        now <= claims.exp,
    ensures
        claims_verdict(Some(claims), now) == Ok::<ClaimsView, ApiError>(claims),
{
}

/// A token that decoded but whose expiry lies in the past is reported as
/// expired, never as invalid.
pub proof fn law_expired_claims_are_reported_expired(claims: ClaimsView, now: i64)
    requires
        claims.exp < now,
    ensures
        claims_verdict(Some(claims), now) == Err::<ClaimsView, ApiError>(ApiError::TokenExpired),
{
}

/// Claims issued at `now` expire after they were issued, and are accepted
/// at `now` and for the whole validity span after it.
pub proof fn law_issued_claims_are_accepted(
    user_id: i64,
    api_key_id: i64,
    scopes: Seq<Seq<char>>,
    now: i64,
    later: i64,
)
    requires
        now + TOKEN_VALIDITY_SECONDS <= i64::MAX,
        later <= now + TOKEN_VALIDITY_SECONDS,
    ensures
        issued_claims(user_id, api_key_id, scopes, now).iat < issued_claims(
            user_id,
            api_key_id,
            scopes,
            now,
        ).exp,
        claims_verdict(Some(issued_claims(user_id, api_key_id, scopes, now)), later) == Ok::<
            ClaimsView,
            ApiError,
        >(issued_claims(user_id, api_key_id, scopes, now)),
{
}

/// Decides on a token from what decoding it gave.
pub fn check_claims(decoded: Option<Claims>, now: i64) -> (r: Result<Claims, ApiError>)
    ensures
        checked_view(r) == claims_verdict(claims_view(decoded), now),
{
    match decoded {
        None => Err(ApiError::InvalidToken),
        Some(claims) => {
            if claims.exp < now {
                Err(ApiError::TokenExpired)
            } else {
                Ok(claims)
            }
        },
    }
}

/// The hash under which an issued token is put on record.
pub fn token_hash(token: &str) -> (hash: String)
    ensures
        hash@ == token_hash_text(token@),
        hash@.len() == 64,
{
    hex_string(sha256(token.as_bytes()).as_slice())
}

/// Issues and checks access tokens signed with one secret.
#[derive(Clone)]
pub struct TokenService {
    pub secret_key: String,
}

impl TokenService {
    /// A service that signs and checks with the secret.
    pub fn new(secret_key: String) -> (service: Self)
        ensures
            service.secret_key == secret_key,
    {
        TokenService { secret_key }
    }

    /// Issues a token for the user under the key, at the present reading
    /// of the wall clock. A token is always issued, it is not empty, and
    /// checking it with this service at that reading gives the issued
    /// claims back.
    pub fn generate_access_token(&self, user_id: i64, api_key_id: i64, scopes: Vec<String>) -> (r:
        Result<String, ApiError>)
        ensures
            r is Ok,
            r matches Ok(token) ==> token@.len() > 0,
            exists|now: i64|
                0 <= now < UNIX_NOW_LIMIT && issued_view(r) == #[trigger] issue_verdict(
                    self.secret_key@,
                    user_id,
                    api_key_id,
                    scope_texts(scopes@),
                    now,
                ) && (r matches Ok(token) ==> claims_verdict(
                    jwt_claims(token@, self.secret_key@),
                    now,
                ) == Ok::<ClaimsView, ApiError>(
                    issued_claims(user_id, api_key_id, scope_texts(scopes@), now),
                )),
    {
        let now = unix_now();
        self.generate_access_token_at(user_id, api_key_id, scopes, now)
    }

    /// Issues a token for the user under the key, as of `now`.
    ///
    /// A token is issued unless its expiry does not fit the clock. It is not
    /// empty, it carries `issued_claims`, and checking it with this service
    /// at any time up to its expiry gives those claims back.
    pub fn generate_access_token_at(
        &self,
        user_id: i64,
        api_key_id: i64,
        scopes: Vec<String>,
        now: i64,
    ) -> (r: Result<String, ApiError>)
        ensures
            issued_view(r) == issue_verdict(
                self.secret_key@,
                user_id,
                api_key_id,
                scope_texts(scopes@),
                now,
            ),
            r matches Ok(token) ==> token@.len() > 0,
            r matches Ok(token) ==> forall|later: i64|
                later <= now + TOKEN_VALIDITY_SECONDS ==> #[trigger] claims_verdict(
                    jwt_claims(token@, self.secret_key@),
                    later,
                ) == Ok::<ClaimsView, ApiError>(
                    issued_claims(user_id, api_key_id, scope_texts(scopes@), now),
                ),
    {
        let exp = match now.checked_add(TOKEN_VALIDITY_SECONDS) {
            Some(exp) => exp,
            None => {
                return Err(ApiError::Internal);
            },
        };
        let claims = Claims { sub: decimal_string(user_id), api_key_id, scopes, exp, iat: now };
        match jwt_encode(&claims, self.secret_key.as_str()) {
            Ok(token) => Ok(token),
            Err(error) => Err(ApiError::from(error)),
        }
    }

    /// Checks a token at the present reading of the wall clock.
    pub fn validate_access_token(&self, token: &str) -> (r: Result<Claims, ApiError>)
        ensures
            exists|now: i64|
                0 <= now < UNIX_NOW_LIMIT && checked_view(r) == #[trigger] claims_verdict(
                    jwt_claims(token@, self.secret_key@),
                    now,
                ),
    {
        let now = unix_now();
        self.validate_access_token_at(token, now)
    }

    /// Checks a token as of `now`: the signature first, then the expiry, so
    /// that a token which has merely expired is told apart from one that
    /// was never good.
    pub fn validate_access_token_at(&self, token: &str, now: i64) -> (r: Result<Claims, ApiError>)
        ensures
            checked_view(r) == claims_verdict(jwt_claims(token@, self.secret_key@), now),
    {
        let decoded = match jwt_decode(token, self.secret_key.as_str()) {
            Ok(claims) => Some(claims),
            Err(_) => None,
        };
        check_claims(decoded, now)
    }
}

} // verus!
