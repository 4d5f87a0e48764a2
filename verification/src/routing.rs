//! What the request router needs before and after a request is admitted:
//! under which category a path is limited, who is asking, and what to tell
//! a client that was turned away.

use crate::rate_limit::RateLimitError;
use crate::text::{
    decimal_digits, decimal_string_unsigned, first_field, same_text, split, starts_with,
    text_starts_with, trim, trim_text,
};
use vstd::prelude::*;
use vstd::string::StrSliceExecFns;
use vstd::string::StringExecFns;

verus! {

/// The category under which requests to a path are limited.
pub open spec fn category_of_path(path: Seq<char>) -> Seq<char> {
    if path == "/api-keys"@ {
        "api_key_gen"@
    } else if path == "/users"@ {
        "write"@
    } else if path == "/validate"@ || path == "/tokens/validate"@ {
        "auth"@
    } else if path == "/protected"@ {
        "read"@
    } else {
        "default"@
    }
}

/// The category under which requests to a path are limited.
pub fn determine_rate_limit_category(path: &str) -> (category: String)
    ensures
        category@ == category_of_path(path@),
{
    if same_text(path, "/api-keys") {
        String::from_str("api_key_gen")
    } else if same_text(path, "/users") {
        String::from_str("write")
    } else if same_text(path, "/validate") || same_text(path, "/tokens/validate") {
        String::from_str("auth")
    } else if same_text(path, "/protected") {
        String::from_str("read")
    } else {
        String::from_str("default")
    }
}

/// The identifier under which a client is limited, from the two headers
/// that may tell who it is. A bearer credential in the authorization header
/// comes first; else the first address of the forwarded-for header, without
/// the white space around it; else all such clients share one identifier.
pub open spec fn client_identifier(
    authorization: Option<Seq<char>>,
    forwarded_for: Option<Seq<char>>,
) -> Seq<char> {
    if authorization is Some && starts_with(authorization->0, "Bearer "@) {
        "api_key:"@ + authorization->0.skip(7)
    } else if forwarded_for is Some {
        "ip:"@ + trim(split(forwarded_for->0, ',')[0])
    } else {
        "unknown"@
    }
}

/// The characters of a header value that is there.
pub open spec fn header_text(header: Option<&str>) -> Option<Seq<char>> {
    match header {
        Some(text) => Some(text@),
        None => None,
    }
}

/// The identifier under which a client is limited.
pub fn extract_client_identifier(authorization: Option<&str>, forwarded_for: Option<&str>) -> (id:
    String)
    ensures
        id@ == client_identifier(header_text(authorization), header_text(forwarded_for)),
{
    proof {
        reveal_strlit("Bearer ");
    }
    if let Some(header) = authorization {
        if text_starts_with(header, "Bearer ") {
            let credential = header.substring_char(7, header.unicode_len());
            let mut id = String::from_str("api_key:");
            id.append(credential);
            return id;
        }
    }
    if let Some(header) = forwarded_for {
        let mut id = String::from_str("ip:");
        id.append(trim_text(first_field(header, ',')));
        return id;
    }
    String::from_str("unknown")
}

/// How a denial begins, by what the client ran into.
pub open spec fn denial_headline(error: RateLimitError) -> Seq<char> {
    match error {
        RateLimitError::LimitExceeded => "Rate limit exceeded for "@,
        RateLimitError::BurstLimitExceeded => "Burst limit exceeded for "@,
    }
}

/// How the time until the window ends is written: in whole seconds, or as
/// nothing where no window is running.
pub open spec fn reset_text(reset_in: Option<u128>) -> Seq<char> {
    match reset_in {
        Some(nanos) => "Some(\""@ + decimal_digits((nanos / 1_000_000_000) as nat) + "s\")"@,
        None => "None"@,
    }
}

/// What a client is told that was turned away, whichever cap it ran into:
/// the cap, the category, how many requests are left, and in how many whole
/// seconds the window ends, so that it can hold back.
pub open spec fn denial_text(
    category: Seq<char>,
    error: RateLimitError,
    remaining: u16,
    reset_in: Option<u128>,
) -> Seq<char> {
    denial_headline(error) + category + " endpoint. Remaining requests: "@ + decimal_digits(
        remaining as nat,
    ) + ", Reset in: "@ + reset_text(reset_in)
}

/// What a client is told that was turned away.
pub fn denial_message(
    category: &str,
    error: RateLimitError,
    remaining: u16,
    reset_in: Option<u128>,
) -> (message: String)
    ensures
        message@ == denial_text(category@, error, remaining, reset_in),
{
    let mut message = match error {
        RateLimitError::LimitExceeded => String::from_str("Rate limit exceeded for "),
        RateLimitError::BurstLimitExceeded => String::from_str("Burst limit exceeded for "),
    };
    message.append(category);
    message.append(" endpoint. Remaining requests: ");
    message.append(decimal_string_unsigned(remaining as u128).as_str());
    message.append(", Reset in: ");
    match reset_in {
        Some(nanos) => {
            message.append("Some(\"");
            message.append(decimal_string_unsigned(nanos / 1_000_000_000).as_str());
            message.append("s\")");
        },
        None => {
            message.append("None");
        },
    }
    message
}

} // verus!
