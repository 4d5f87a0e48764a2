use secure_api_key::rate_limit::RateLimitError;
use secure_api_key::routing::{
    denial_message, determine_rate_limit_category, extract_client_identifier,
};

#[test]
fn paths_have_their_categories() {
    assert_eq!(determine_rate_limit_category("/api-keys"), "api_key_gen");
    assert_eq!(determine_rate_limit_category("/users"), "write");
    assert_eq!(determine_rate_limit_category("/validate"), "auth");
    assert_eq!(determine_rate_limit_category("/tokens/validate"), "auth");
    assert_eq!(determine_rate_limit_category("/protected"), "read");
}

#[test]
fn any_other_path_is_in_the_default_category() {
    for path in ["", "/", "/users/", "/Users", "/api-keys/1", "/tokens", "/batch"] {
        assert_eq!(determine_rate_limit_category(path), "default");
    }
}

#[test]
fn bearer_credential_identifies_the_client() {
    assert_eq!(
        extract_client_identifier(Some("Bearer abc_123"), None),
        "api_key:abc_123"
    );
    assert_eq!(
        extract_client_identifier(Some("Bearer abc"), Some("10.0.0.1")),
        "api_key:abc"
    );
    assert_eq!(extract_client_identifier(Some("Bearer "), None), "api_key:");
    assert_eq!(
        extract_client_identifier(Some("Bearer  two spaces "), None),
        "api_key: two spaces "
    );
}

#[test]
fn first_forwarded_address_identifies_the_client() {
    assert_eq!(
        extract_client_identifier(None, Some("10.0.0.1")),
        "ip:10.0.0.1"
    );
    assert_eq!(
        extract_client_identifier(None, Some(" 10.0.0.1 , 10.0.0.2,10.0.0.3")),
        "ip:10.0.0.1"
    );
    assert_eq!(extract_client_identifier(None, Some("")), "ip:");
    assert_eq!(extract_client_identifier(None, Some(",10.0.0.2")), "ip:");
    // an authorization header that holds no bearer credential does not count
    assert_eq!(
        extract_client_identifier(Some("Basic dXNlcg=="), Some("10.0.0.9,x")),
        "ip:10.0.0.9"
    );
    assert_eq!(
        extract_client_identifier(Some("bearer abc"), Some("10.0.0.9")),
        "ip:10.0.0.9"
    );
}

#[test]
fn clients_without_either_share_one_identifier() {
    assert_eq!(extract_client_identifier(None, None), "unknown");
    assert_eq!(
        extract_client_identifier(Some("Basic dXNlcg=="), None),
        "unknown"
    );
}

#[test]
fn client_that_ran_into_the_rate_cap_gets_hints() {
    assert_eq!(
        denial_message(
            "auth",
            RateLimitError::LimitExceeded,
            0,
            Some(59_999_999_999)
        ),
        "Rate limit exceeded for auth endpoint. Remaining requests: 0, Reset in: Some(\"59s\")"
    );
    assert_eq!(
        denial_message("read", RateLimitError::LimitExceeded, 12, None),
        "Rate limit exceeded for read endpoint. Remaining requests: 12, Reset in: None"
    );
    assert_eq!(
        denial_message("x", RateLimitError::LimitExceeded, 65_535, Some(0)),
        "Rate limit exceeded for x endpoint. Remaining requests: 65535, Reset in: Some(\"0s\")"
    );
}

#[test]
fn client_that_ran_into_the_burst_cap_gets_hints_too() {
    assert_eq!(
        denial_message(
            "api_key_gen",
            RateLimitError::BurstLimitExceeded,
            3,
            Some(1_000_000_000)
        ),
        "Burst limit exceeded for api_key_gen endpoint. Remaining requests: 3, Reset in: Some(\"1s\")"
    );
    assert_eq!(
        denial_message("auth", RateLimitError::BurstLimitExceeded, 0, Some(59_500_000_000)),
        "Burst limit exceeded for auth endpoint. Remaining requests: 0, Reset in: Some(\"59s\")"
    );
    assert_eq!(
        denial_message("auth", RateLimitError::BurstLimitExceeded, 0, None),
        "Burst limit exceeded for auth endpoint. Remaining requests: 0, Reset in: None"
    );
}

#[test]
fn denial_tells_what_is_left_and_when_the_window_ends() {
    for error in [
        RateLimitError::LimitExceeded,
        RateLimitError::BurstLimitExceeded,
    ] {
        let one = denial_message("read", error, 7, Some(12_000_000_000));
        assert!(one.contains("read"));
        assert!(one.contains("Remaining requests: 7"));
        assert!(one.contains("12s"));
        assert_ne!(one, denial_message("read", error, 8, Some(12_000_000_000)));
        assert_ne!(one, denial_message("read", error, 7, Some(13_000_000_000)));
        assert_ne!(one, denial_message("write", error, 7, Some(12_000_000_000)));
    }
}
