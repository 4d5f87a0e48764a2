use vstd::prelude::*;
use vstd::string::StringExecFns;

verus! {

/// Why a key, a token or a request was turned down.
#[derive(Debug, PartialEq, Eq)]
pub enum ApiError {
    /// The key does not have the six expected fields, or one of the
    /// first five is not what it has to be.
    InvalidKeyFormat,
    /// The key is well formed but its checksum field does not match.
    InvalidChecksum,
    /// No stored record belongs to the key.
    KeyNotFound,
    /// The stored record has passed its expiry.
    KeyExpired,
    /// The stored record is switched off.
    KeyInactive,
    /// The token could not be decoded or its signature is wrong.
    InvalidToken,
    /// The token decoded but its expiry lies in the past.
    TokenExpired,
    /// No user goes by the id.
    UserNotFound,
    /// The user name or the address is taken.
    UserExists,
    /// The request itself was malformed; the text says how.
    InvalidRequest(String),
    /// A failure of a collaborator that is not detailed to the caller.
    Internal,
}

impl ApiError {
    /// The human-readable sentence that belongs to each error.
    pub open spec fn message_text(self) -> Seq<char> {
        match self {
            ApiError::InvalidKeyFormat => "Invalid API key format"@,
            ApiError::InvalidChecksum => "Invalid checksum"@,
            ApiError::KeyNotFound => "API key not found"@,
            ApiError::KeyExpired => "API key expired"@,
            ApiError::KeyInactive => "API key is inactive"@,
            ApiError::InvalidToken => "Invalid token"@,
            ApiError::TokenExpired => "Token expired"@,
            ApiError::UserNotFound => "User not found"@,
            ApiError::UserExists => "User already exists"@,
            ApiError::InvalidRequest(detail) => "Invalid request: "@ + detail@,
            ApiError::Internal => "Internal server error"@,
        }
    }

    pub fn message(&self) -> (text: String)
        ensures
            text@ == self.message_text(),
    {
        match self {
            ApiError::InvalidKeyFormat => String::from_str("Invalid API key format"),
            ApiError::InvalidChecksum => String::from_str("Invalid checksum"),
            ApiError::KeyNotFound => String::from_str("API key not found"),
            ApiError::KeyExpired => String::from_str("API key expired"),
            ApiError::KeyInactive => String::from_str("API key is inactive"),
            ApiError::InvalidToken => String::from_str("Invalid token"),
            ApiError::TokenExpired => String::from_str("Token expired"),
            ApiError::UserNotFound => String::from_str("User not found"),
            ApiError::UserExists => String::from_str("User already exists"),
            ApiError::InvalidRequest(detail) => {
                let mut text = String::from_str("Invalid request: ");
                text.append(detail.as_str());
                text
            },
            ApiError::Internal => String::from_str("Internal server error"),
        }
    }
}

/// Whatever goes wrong with a token while it is made or decoded, the
/// caller learns only that the token is not valid.
impl From<jsonwebtoken::errors::Error> for ApiError {
    fn from(error: jsonwebtoken::errors::Error) -> (r: ApiError) {
        ApiError::InvalidToken
    }
}

impl vstd::std_specs::convert::FromSpecImpl<jsonwebtoken::errors::Error> for ApiError {
    open spec fn obeys_from_spec() -> bool {
        true
    }

    open spec fn from_spec(error: jsonwebtoken::errors::Error) -> ApiError {
        ApiError::InvalidToken
    }
}

} // verus!
