use secure_api_key::errors::ApiError;
use secure_api_key::models::ApiKey;
use secure_api_key::security::{api_key_hash, check_stored_key, ApiKeyService};

fn service(prefix: &str, environment: &str) -> ApiKeyService {
    ApiKeyService::new(
        prefix.to_string(),
        environment.to_string(),
        "test_secret_key".to_string(),
    )
}

fn counting_nonce() -> [u8; 20] {
    let mut nonce = [0u8; 20];
    for (i, byte) in nonce.iter_mut().enumerate() {
        *byte = i as u8;
    }
    nonce
}

const ACME_KEY: &str = "acme_prod_v1_1700000000_AAAQEAYEAUDAOCAJBIFQYDIOB4IBCEQT_LKWTB2Y";

fn record(hash: &str, active: bool) -> ApiKey {
    ApiKey {
        id: 11,
        user_id: 42,
        key_hash: hash.to_string(),
        key_prefix: "acme".to_string(),
        environment: "prod".to_string(),
        version: 1,
        scopes: vec!["read".to_string(), "write".to_string()],
        is_active: active,
        issued_at: 1_700_000_000,
        expires_at: None,
        last_used_at: None,
        usage_count: 0,
    }
}

fn replace_char(text: &str, at: usize, with: char) -> String {
    let mut chars: Vec<char> = text.chars().collect();
    chars[at] = with;
    chars.into_iter().collect()
}

#[test]
fn new_service_issues_version_one() {
    let svc = service("acme", "prod");
    assert_eq!(svc.prefix, "acme");
    assert_eq!(svc.environment, "prod");
    assert_eq!(svc.version, 1);
    assert_eq!(svc.secret_key, "test_secret_key");
}

#[test]
fn scenario_acme_prod_key() {
    let svc = service("acme", "prod");
    let (key, hash) = svc.generate_api_key_with(1_700_000_000, &counting_nonce());
    assert_eq!(key, ACME_KEY);
    assert_eq!(
        hash,
        "eefbc346a1b38cb9241284bc7ed0ae7b1eea289e22f54bd1dea4d820f1435287"
    );

    let fields: Vec<&str> = key.split('_').collect();
    assert_eq!(fields.len(), 6);
    assert_eq!(fields[3], "1700000000");
    // twenty random bytes are 32 characters of base 32, four checksum bytes are 7
    assert_eq!(fields[4].len(), 32);
    assert_eq!(fields[5].len(), 7);

    assert_eq!(svc.validate_api_key_format(&key), Ok(()));

    // another last character of the checksum field
    let flipped = replace_char(&key, key.len() - 1, 'A');
    assert_eq!(
        svc.validate_api_key_format(&flipped),
        Err(ApiError::InvalidChecksum)
    );
}

#[test]
fn generated_keys_pass_the_format_check() {
    for (prefix, environment, version) in [
        ("acme", "prod", 1),
        ("", "", 0),
        ("test", "dev", -7),
        ("clé", "ümgebung", i32::MAX),
        ("a-b.c", "x y", i32::MIN),
    ] {
        let mut svc = service(prefix, environment);
        svc.version = version;
        let (key, hash) = svc.generate_api_key().expect("a key is always issued");
        assert_eq!(svc.validate_api_key_format(&key), Ok(()), "{}", key);
        assert_eq!(hash, api_key_hash(&key));
        for timestamp in [0u32, 9, 10, 1_700_000_000, u32::MAX] {
            let (key, _) = svc.generate_api_key_with(timestamp, &[0xa5; 20]);
            assert_eq!(svc.validate_api_key_format(&key), Ok(()), "{}", key);
        }
    }
}

#[test]
fn generated_key_has_the_documented_shape() {
    let svc = service("test", "dev");
    let (key, hash) = svc.generate_api_key().unwrap();
    let fields: Vec<&str> = key.split('_').collect();
    assert_eq!(fields.len(), 6);
    assert_eq!(fields[0], "test");
    assert_eq!(fields[1], "dev");
    assert_eq!(fields[2], "v1");
    let timestamp: u32 = fields[3].parse().unwrap();
    // the clock of this machine is past the year 2020
    assert!(timestamp > 1_577_836_800);
    assert_eq!(fields[4].len(), 32);
    assert_eq!(fields[5].len(), 7);
    assert!(fields[4]
        .chars()
        .chain(fields[5].chars())
        .all(|c| c.is_ascii_uppercase() || ('2'..='7').contains(&c)));
    assert_eq!(hash.len(), 64);
    assert!(hash
        .chars()
        .all(|c| c.is_ascii_digit() || ('a'..='f').contains(&c)));
}

#[test]
fn negative_version_is_written_with_its_sign() {
    let mut svc = service("te", "dev");
    svc.version = -7;
    let (key, _) = svc.generate_api_key_with(0, &[0xff; 20]);
    assert_eq!(key, "te_dev_v-7_0_77777777777777777777777777777777_4HGLJII");
}

#[test]
fn repeated_generation_never_repeats() {
    let svc = service("acme", "prod");
    let mut keys = std::collections::HashSet::new();
    let mut hashes = std::collections::HashSet::new();
    for _ in 0..500 {
        let (key, hash) = svc.generate_api_key().unwrap();
        assert!(keys.insert(key));
        assert!(hashes.insert(hash));
    }
}

#[test]
fn changed_character_in_random_or_checksum_is_refused() {
    let svc = service("acme", "prod");
    let random_start = "acme_prod_v1_1700000000_".len();
    // every character of the random field, and all but the last of the
    // checksum field, carries five bits of the encoded bytes
    for at in random_start..ACME_KEY.len() - 1 {
        if ACME_KEY.as_bytes()[at] == b'_' {
            continue;
        }
        for with in ['A', 'B', 'Z', '2', '7', '1', '0', '-', 'é'] {
            if ACME_KEY.as_bytes()[at] == with as u8 {
                continue;
            }
            let changed = replace_char(ACME_KEY, at, with);
            let verdict = svc.validate_api_key_format(&changed);
            assert!(
                verdict == Err(ApiError::InvalidChecksum)
                    || verdict == Err(ApiError::InvalidKeyFormat),
                "{} gave {:?}",
                changed,
                verdict
            );
        }
    }
}

#[test]
fn undecodable_random_field_is_a_format_error() {
    let svc = service("acme", "prod");
    let at = "acme_prod_v1_1700000000_".len();
    assert_eq!(
        svc.validate_api_key_format(&replace_char(ACME_KEY, at, '1')),
        Err(ApiError::InvalidKeyFormat)
    );
    assert_eq!(
        svc.validate_api_key_format(&replace_char(ACME_KEY, at, 'é')),
        Err(ApiError::InvalidKeyFormat)
    );
}

#[test]
fn undecodable_checksum_field_is_a_checksum_error() {
    let svc = service("acme", "prod");
    let at = ACME_KEY.len() - 3;
    assert_eq!(
        svc.validate_api_key_format(&replace_char(ACME_KEY, at, '8')),
        Err(ApiError::InvalidChecksum)
    );
    assert_eq!(
        svc.validate_api_key_format(&replace_char(ACME_KEY, at, 'ß')),
        Err(ApiError::InvalidChecksum)
    );
}

#[test]
fn wrong_number_of_fields_is_a_format_error() {
    let svc = service("acme", "prod");
    for key in [
        "",
        "acme",
        "acme_prod_v1_1700000000_AAAQEAYEAUDAOCAJBIFQYDIOB4IBCEQT",
        "acme_prod_v1_1700000000_AAAQEAYEAUDAOCAJBIFQYDIOB4IBCEQT_LKWTB2Y_",
        "_acme_prod_v1_1700000000_AAAQEAYEAUDAOCAJBIFQYDIOB4IBCEQT_LKWTB2Y",
        "acme_prod_v1_1700000000_AAAQEAYEAUDAOCAJ_BIFQYDIOB4IBCEQT_LKWTB2Y",
        "_____ _",
    ] {
        assert_eq!(
            svc.validate_api_key_format(key),
            Err(ApiError::InvalidKeyFormat),
            "{}",
            key
        );
    }
}

#[test]
fn mismatch_of_prefix_or_environment_is_a_format_error() {
    assert_eq!(
        service("acme", "dev").validate_api_key_format(ACME_KEY),
        Err(ApiError::InvalidKeyFormat)
    );
    assert_eq!(
        service("acm", "prod").validate_api_key_format(ACME_KEY),
        Err(ApiError::InvalidKeyFormat)
    );
    assert_eq!(
        service("ACME", "prod").validate_api_key_format(ACME_KEY),
        Err(ApiError::InvalidKeyFormat)
    );
    assert_eq!(
        service("acme", "prod").validate_api_key_format(ACME_KEY),
        Ok(())
    );
}

#[test]
fn version_field_has_to_begin_with_v() {
    let svc = service("acme", "prod");
    for version in ["1", "", "V1", "1v"] {
        let key = format!(
            "acme_prod_{}_1700000000_AAAQEAYEAUDAOCAJBIFQYDIOB4IBCEQT_LKWTB2Y",
            version
        );
        assert_eq!(
            svc.validate_api_key_format(&key),
            Err(ApiError::InvalidKeyFormat)
        );
    }
    // the version is part of what the checksum covers
    assert_eq!(
        svc.validate_api_key_format(
            "acme_prod_v2_1700000000_AAAQEAYEAUDAOCAJBIFQYDIOB4IBCEQT_LKWTB2Y"
        ),
        Err(ApiError::InvalidChecksum)
    );
}

#[test]
fn timestamp_field_has_to_be_a_32_bit_number() {
    let svc = service("acme", "prod");
    for timestamp in ["", "+", "-1", "17e8", "4294967296", "1700000000 ", "0x10"] {
        let key = format!(
            "acme_prod_v1_{}_AAAQEAYEAUDAOCAJBIFQYDIOB4IBCEQT_LKWTB2Y",
            timestamp
        );
        assert_eq!(
            svc.validate_api_key_format(&key),
            Err(ApiError::InvalidKeyFormat),
            "{}",
            key
        );
    }
    // a number in another spelling is a number, but not the text that the
    // checksum was taken over
    for timestamp in ["+1700000000", "01700000000", "4294967295"] {
        let key = format!(
            "acme_prod_v1_{}_AAAQEAYEAUDAOCAJBIFQYDIOB4IBCEQT_LKWTB2Y",
            timestamp
        );
        assert_eq!(
            svc.validate_api_key_format(&key),
            Err(ApiError::InvalidChecksum),
            "{}",
            key
        );
    }
}

#[test]
fn timestamp_is_not_held_against_the_clock() {
    let svc = service("acme", "prod");
    let (ancient, _) = svc.generate_api_key_with(0, &counting_nonce());
    let (far, _) = svc.generate_api_key_with(u32::MAX, &counting_nonce());
    assert_eq!(svc.validate_api_key_format(&ancient), Ok(()));
    assert_eq!(svc.validate_api_key_format(&far), Ok(()));
}

#[test]
fn checksum_field_counts_by_its_first_four_bytes() {
    let svc = service("acme", "prod");
    // fewer than four bytes
    let short = &ACME_KEY[..ACME_KEY.len() - 2];
    assert_eq!(
        svc.validate_api_key_format(short),
        Err(ApiError::InvalidChecksum)
    );
    assert_eq!(
        svc.validate_api_key_format(&ACME_KEY[..ACME_KEY.len() - 7]),
        Err(ApiError::InvalidChecksum)
    );
    // the four bytes and one more
    let longer = format!("{}A", ACME_KEY);
    assert_eq!(svc.validate_api_key_format(&longer), Ok(()));
}

#[test]
fn key_hash_is_sha256_in_lower_case_hex() {
    assert_eq!(
        api_key_hash("abc"),
        "ba7816bf8f01cfea414140de5dae2223b00361a396177a9cb410ff61f20015ad"
    );
    assert_eq!(
        api_key_hash(ACME_KEY),
        "eefbc346a1b38cb9241284bc7ed0ae7b1eea289e22f54bd1dea4d820f1435287"
    );
}

#[test]
fn stored_key_has_to_exist_and_be_active() {
    assert!(matches!(check_stored_key(None), Err(ApiError::KeyNotFound)));
    assert!(matches!(
        check_stored_key(Some(record("h", false))),
        Err(ApiError::KeyInactive)
    ));
    let found = check_stored_key(Some(record("h", true))).unwrap();
    assert_eq!(found.id, 11);
    assert_eq!(found.user_id, 42);
    assert_eq!(found.key_hash, "h");
    assert_eq!(found.scopes, vec!["read".to_string(), "write".to_string()]);
}

#[test]
fn valid_key_is_bound_to_its_record() {
    let svc = service("acme", "prod");
    let hash = api_key_hash(ACME_KEY);
    let stored = record(&hash, true);
    let found = svc
        .validate_api_key(ACME_KEY, |h: &str| {
            if h == stored.key_hash {
                Some(stored.clone())
            } else {
                None
            }
        })
        .unwrap();
    assert_eq!(found.user_id, 42);
    assert_eq!(found.key_hash, hash);
}

#[test]
fn lookup_decides_between_not_found_and_inactive() {
    let svc = service("acme", "prod");
    assert!(matches!(
        svc.validate_api_key(ACME_KEY, |_: &str| None),
        Err(ApiError::KeyNotFound)
    ));
    assert!(matches!(
        svc.validate_api_key(ACME_KEY, |h: &str| Some(record(h, false))),
        Err(ApiError::KeyInactive)
    ));
}

#[test]
fn malformed_key_is_never_looked_up() {
    let svc = service("acme", "prod");
    let asked = std::cell::Cell::new(0);
    let lookup = |h: &str| {
        asked.set(asked.get() + 1);
        Some(record(h, true))
    };
    assert!(matches!(
        svc.validate_api_key("acme_prod_v1", &lookup),
        Err(ApiError::InvalidKeyFormat)
    ));
    let flipped = replace_char(ACME_KEY, ACME_KEY.len() - 2, 'A');
    assert!(matches!(
        svc.validate_api_key(&flipped, &lookup),
        Err(ApiError::InvalidChecksum)
    ));
    assert_eq!(asked.get(), 0);
    assert!(svc.validate_api_key(ACME_KEY, &lookup).is_ok());
    assert_eq!(asked.get(), 1);
}

#[test]
fn errors_have_their_messages() {
    assert_eq!(ApiError::InvalidKeyFormat.message(), "Invalid API key format");
    assert_eq!(ApiError::InvalidChecksum.message(), "Invalid checksum");
    assert_eq!(ApiError::KeyNotFound.message(), "API key not found");
    assert_eq!(ApiError::KeyExpired.message(), "API key expired");
    assert_eq!(ApiError::KeyInactive.message(), "API key is inactive");
    assert_eq!(ApiError::InvalidToken.message(), "Invalid token");
    assert_eq!(ApiError::TokenExpired.message(), "Token expired");
    assert_eq!(ApiError::UserNotFound.message(), "User not found");
    assert_eq!(ApiError::UserExists.message(), "User already exists");
    assert_eq!(
        ApiError::InvalidRequest("no body".to_string()).message(),
        "Invalid request: no body"
    );
    assert_eq!(ApiError::Internal.message(), "Internal server error");
}

#[test]
fn base32_fields_are_read_without_regard_to_case() {
    let svc = service("acme", "prod");
    let lower = "acme_prod_v1_1700000000_aaaqeayeaudaocajbifqydiob4ibceqt_lkwtb2y";
    assert_eq!(svc.validate_api_key_format(lower), Ok(()));
    // the hash is taken over the key as it is written
    assert_ne!(api_key_hash(lower), api_key_hash(ACME_KEY));
}

#[test]
fn issued_key_has_its_shape_whatever_the_prefix_holds() {
    let nonce = counting_nonce();
    for (prefix, environment) in [("acme", "prod"), ("my_app", "dev"), ("_", "__"), ("", "")] {
        let svc = service(prefix, environment);
        let (key, hash) = svc.generate_api_key_with(1_700_000_000, &nonce);
        let fields: Vec<&str> = key.split('_').collect();
        let n = fields.len();
        assert!(n >= 6);
        assert_eq!(fields[n - 1].len(), 7);
        assert_eq!(fields[n - 2].len(), 32);
        assert_eq!(fields[n - 2], "AAAQEAYEAUDAOCAJBIFQYDIOB4IBCEQT");
        assert_eq!(fields[n - 3], "1700000000");
        assert_eq!(hash.len(), 64);
    }
}

#[test]
fn keys_for_different_material_differ() {
    let svc = service("acme", "prod");
    let nonce = counting_nonce();
    let mut other = nonce;
    other[19] ^= 1;
    let (a, hash_a) = svc.generate_api_key_with(1_700_000_000, &nonce);
    let (b, hash_b) = svc.generate_api_key_with(1_700_000_001, &nonce);
    let (c, hash_c) = svc.generate_api_key_with(1_700_000_000, &other);
    assert_ne!(a, b);
    assert_ne!(a, c);
    assert_ne!(b, c);
    assert_ne!(hash_a, hash_b);
    assert_ne!(hash_a, hash_c);
}

#[test]
fn key_service_can_be_cloned() {
    let svc = service("acme", "prod");
    let copy = svc.clone();
    assert_eq!(copy.prefix, "acme");
    assert_eq!(copy.validate_api_key_format(ACME_KEY), Ok(()));
}
