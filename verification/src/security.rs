//! API keys: how a key is put together, how its format and checksum are
//! checked, and how a key is bound to its stored record.

use crate::errors::ApiError;
use crate::models::ApiKey;
use crate::primitives::{
    base32_bytes, base32_decode, base32_encode, base32_text, is_base32_char, random_nonce, sha256,
    sha256_digest, unix_now,
};
use crate::text::{
    all_digits, count_char, decimal_digits, decimal_string, decimal_text, hex_lower, hex_string, is_digit,
    lemma_decimal_digits, lemma_parse_decimal, lemma_split_count, lemma_split_is_not_empty,
    lemma_split_joined,
    lemma_split_without_separator,
    parse_u32, parse_u32_text, same_text, split, split_text, texts,
};
pub use crate::token::{Claims, TokenService};
use vstd::prelude::*;
use vstd::slice::slice_subrange;
use vstd::string::StrSliceExecFns;
use vstd::string::StringExecFns;
use vstd::utf8::encode_utf8;

verus! {

/// The character that divides the fields of a key.
pub open spec fn field_separator() -> char {
    '_'
}

/// The bytes over which the checksum of a key is taken: the first four
/// fields as they are written in the key, and the random bytes themselves.
pub open spec fn checksum_input(
    prefix: Seq<char>,
    environment: Seq<char>,
    version: Seq<char>,
    timestamp: Seq<char>,
    random: Seq<u8>,
) -> Seq<u8> {
    encode_utf8(prefix) + encode_utf8(environment) + encode_utf8(version) + encode_utf8(timestamp)
        + random
}

/// The checksum of a key: the first four bytes of the SHA-256 digest of
/// `checksum_input`.
pub open spec fn checksum(
    prefix: Seq<char>,
    environment: Seq<char>,
    version: Seq<char>,
    timestamp: Seq<char>,
    random: Seq<u8>,
) -> Seq<u8> {
    sha256_digest(checksum_input(prefix, environment, version, timestamp, random)).take(4)
}

/// What the format check says of a key, for a service configured with
/// `prefix` and `environment`.
///
/// A key is six fields divided by `_`. Any fault in the first five fields
/// is `InvalidKeyFormat`, whichever field it is in; a sixth field that does
/// not decode, or whose first four bytes are not the checksum, is
/// `InvalidChecksum`.
pub open spec fn key_format_verdict(
    prefix: Seq<char>,
    environment: Seq<char>,
    key: Seq<char>,
) -> Result<(), ApiError> {
    let fields = split(key, field_separator());
    if fields.len() != 6 {
        Err(ApiError::InvalidKeyFormat)
    } else if fields[0] != prefix || fields[1] != environment {
        Err(ApiError::InvalidKeyFormat)
    } else if !(fields[2].len() > 0 && fields[2][0] == 'v') {
        Err(ApiError::InvalidKeyFormat)
    } else if parse_u32_text(fields[3]).is_none() {
        Err(ApiError::InvalidKeyFormat)
    } else {
        match base32_bytes(fields[4]) {
            None => Err(ApiError::InvalidKeyFormat),
            Some(random) => match base32_bytes(fields[5]) {
                None => Err(ApiError::InvalidChecksum),
                Some(given) => if given.len() >= 4 && given.take(4) == checksum(
                    fields[0],
                    fields[1],
                    fields[2],
                    fields[3],
                    random,
                ) {
                    Ok(())
                } else {
                    Err(ApiError::InvalidChecksum)
                },
            },
        }
    }
}

/// True of a text in which the field separator does not occur.
pub open spec fn has_no_separator(s: Seq<char>) -> bool {
    !s.contains(field_separator())
}

/// Six fields written one after the other with a separator between each two.
pub open spec fn join_fields(
    a: Seq<char>,
    b: Seq<char>,
    c: Seq<char>,
    d: Seq<char>,
    e: Seq<char>,
    f: Seq<char>,
) -> Seq<char> {
    let sep = seq![field_separator()];
    a + sep + b + sep + c + sep + d + sep + e + sep + f
}

/// The version field of a key: the letter `v` and the version in decimal.
pub open spec fn version_field(version: i32) -> Seq<char> {
    seq!['v'] + decimal_text(version as int)
}

/// The key that is issued for the given timestamp and random bytes:
/// prefix, environment, version, timestamp in decimal, the random bytes in
/// base 32 and the checksum in base 32.
pub open spec fn key_text(
    prefix: Seq<char>,
    environment: Seq<char>,
    version: i32,
    timestamp: u32,
    random: Seq<u8>,
) -> Seq<char> {
    let v = version_field(version);
    let t = decimal_digits(timestamp as nat);
    join_fields(
        prefix,
        environment,
        v,
        t,
        base32_text(random),
        base32_text(checksum(prefix, environment, v, t, random)),
    )
}

/// The hash under which a key is stored and looked up: the SHA-256 digest
/// of the whole key, in lower-case hexadecimal.
pub open spec fn key_hash_text(key: Seq<char>) -> Seq<char> {
    hex_lower(sha256_digest(encode_utf8(key)))
}

/// The field of a key that stands `back` places from its end: the last
/// field for 1, the one before it for 2.
pub open spec fn field_from_end(key: Seq<char>, back: int) -> Seq<char> {
    let fields = split(key, field_separator());
    fields[fields.len() - back]
}

/// True of base-32 text of a given length.
pub open spec fn is_base32_field(text: Seq<char>, length: nat) -> bool {
    text.len() == length && forall|i: int| 0 <= i < text.len() ==> is_base32_char(#[trigger] text[i])
}

/// The shape of an issued key, whatever its prefix and environment hold:
/// its last field is a checksum of seven base-32 characters, and the field
/// before it is 32 base-32 characters of random bytes.
pub open spec fn has_issued_shape(key: Seq<char>) -> bool {
    &&& split(key, field_separator()).len() >= 6
    &&& is_base32_field(field_from_end(key, 2), 32)
    &&& is_base32_field(field_from_end(key, 1), 7)
}

/// A key tells the timestamp and the random bytes it was issued for: they
/// are what its third-last and its second-last field read as.
pub open spec fn key_tells(key: Seq<char>, timestamp: u32, random: Seq<u8>) -> bool {
    &&& split(key, field_separator()).len() >= 6
    &&& parse_u32_text(field_from_end(key, 3)) == Some(timestamp)
    &&& base32_bytes(field_from_end(key, 2)) == Some(random)
}

/// What becomes of a key once its record was looked up: it has to exist
/// and to be active.
pub open spec fn stored_key_verdict(found: Option<ApiKey>) -> Result<ApiKey, ApiError> {
    match found {
        None => Err(ApiError::KeyNotFound),
        Some(record) => if record.is_active {
            Ok(record)
        } else {
            Err(ApiError::KeyInactive)
        },
    }
}

/// Six fields without a separator inside are what their joined text splits
/// into.
pub proof fn lemma_joined_fields_split(
    a: Seq<char>,
    b: Seq<char>,
    c: Seq<char>,
    d: Seq<char>,
    e: Seq<char>,
    f: Seq<char>,
)
    requires
        has_no_separator(a),
        has_no_separator(b),
        has_no_separator(c),
        has_no_separator(d),
        has_no_separator(e),
        has_no_separator(f),
    ensures
        split(join_fields(a, b, c, d, e, f), field_separator()) == seq![a, b, c, d, e, f],
{
    let sep = field_separator();
    let s = seq![sep];
    lemma_split_without_separator(a, sep);
    lemma_split_without_separator(b, sep);
    lemma_split_without_separator(c, sep);
    lemma_split_without_separator(d, sep);
    lemma_split_without_separator(e, sep);
    lemma_split_without_separator(f, sep);
    lemma_split_joined(a, b, sep);
    lemma_split_joined(a + s + b, c, sep);
    lemma_split_joined(a + s + b + s + c, d, sep);
    lemma_split_joined(a + s + b + s + c + s + d, e, sep);
    lemma_split_joined(a + s + b + s + c + s + d + s + e, f, sep);
}

/// Four fields without a separator inside are the last four fields of any
/// text that ends with them joined.
pub proof fn lemma_last_fields_split(
    head: Seq<char>,
    c: Seq<char>,
    d: Seq<char>,
    e: Seq<char>,
    f: Seq<char>,
)
    requires
        has_no_separator(c),
        has_no_separator(d),
        has_no_separator(e),
        has_no_separator(f),
    ensures
        split(
            head + seq![field_separator()] + c + seq![field_separator()] + d + seq![
                field_separator(),
            ] + e + seq![field_separator()] + f,
            field_separator(),
        ) == split(head, field_separator()) + seq![c, d, e, f],
        split(head, field_separator()).len() >= 1,
{
    let sep = field_separator();
    let s = seq![sep];
    lemma_split_without_separator(c, sep);
    lemma_split_without_separator(d, sep);
    lemma_split_without_separator(e, sep);
    lemma_split_without_separator(f, sep);
    lemma_split_joined(head, c, sep);
    lemma_split_joined(head + s + c, d, sep);
    lemma_split_joined(head + s + c + s + d, e, sep);
    lemma_split_joined(head + s + c + s + d + s + e, f, sep);
    lemma_split_count(head, sep);
}

/// Keys that tell different timestamps or different random bytes are
/// different keys: what a key tells is read from the key alone.
pub proof fn law_keys_differ_with_their_material(
    first: Seq<char>,
    second: Seq<char>,
    timestamp: u32,
    random: Seq<u8>,
    other_timestamp: u32,
    other_random: Seq<u8>,
)
    requires
        key_tells(first, timestamp, random),
        key_tells(second, other_timestamp, other_random),
        timestamp != other_timestamp || random != other_random,
    ensures
        first != second,
{
}

/// A key whose six fields are what they have to be passes the format check:
/// no separator inside a field, the configured prefix and environment, a
/// version that begins with `v`, a timestamp that reads as a number, random
/// bytes in base 32 and, in base 32, bytes that begin with their checksum.
pub proof fn lemma_well_made_key_is_accepted(
    prefix: Seq<char>,
    environment: Seq<char>,
    version: Seq<char>,
    timestamp: Seq<char>,
    random_field: Seq<char>,
    checksum_field: Seq<char>,
    random: Seq<u8>,
    given: Seq<u8>,
)
    requires
        has_no_separator(prefix),
        has_no_separator(environment),
        has_no_separator(version),
        has_no_separator(timestamp),
        has_no_separator(random_field),
        has_no_separator(checksum_field),
        version.len() > 0 && version[0] == 'v',
        parse_u32_text(timestamp).is_some(),
        base32_bytes(random_field) == Some(random),
        base32_bytes(checksum_field) == Some(given),
        given.len() >= 4,
        given.take(4) == checksum(prefix, environment, version, timestamp, random),
    ensures
        key_format_verdict(
            prefix,
            environment,
            join_fields(prefix, environment, version, timestamp, random_field, checksum_field),
        ) == Ok::<(), ApiError>(()),
{
    lemma_joined_fields_split(
        prefix,
        environment,
        version,
        timestamp,
        random_field,
        checksum_field,
    );
}

/// True of a key that is whole: six fields, the first two those of the
/// service, the last two in base 32, and the bytes of the last beginning
/// with the checksum of the others.
pub open spec fn is_intact(prefix: Seq<char>, environment: Seq<char>, key: Seq<char>) -> bool {
    let fields = split(key, field_separator());
    &&& fields.len() == 6
    &&& fields[0] == prefix
    &&& fields[1] == environment
    &&& base32_bytes(fields[4]) is Some
    &&& base32_bytes(fields[5]) is Some
    &&& base32_bytes(fields[5])->0.len() >= 4
    &&& base32_bytes(fields[5])->0.take(4) == checksum(
        fields[0],
        fields[1],
        fields[2],
        fields[3],
        base32_bytes(fields[4])->0,
    )
}

/// Only an intact key is accepted. The format check ends in acceptance or in
/// one of two errors, and it ends in acceptance only for a key of six
/// fields whose last field stands for bytes that begin with the checksum
/// of the other five. So a key whose random or checksum field was changed
/// is refused, unless the changed fields still fit each other in this way.
pub proof fn law_only_intact_keys_are_accepted(
    prefix: Seq<char>,
    environment: Seq<char>,
    key: Seq<char>,
)
    ensures
        key_format_verdict(prefix, environment, key) == Ok::<(), ApiError>(())
            || key_format_verdict(prefix, environment, key) == Err::<(), ApiError>(
            ApiError::InvalidKeyFormat,
        ) || key_format_verdict(prefix, environment, key) == Err::<(), ApiError>(
            ApiError::InvalidChecksum,
        ),
        key_format_verdict(prefix, environment, key) is Ok ==> is_intact(prefix, environment, key),
{
}

/// The checksum field binds: of two keys that differ in nothing but their
/// last field, both are accepted only if the two last fields stand for
/// bytes that begin with the same four.
pub proof fn law_checksum_field_is_binding(
    prefix: Seq<char>,
    environment: Seq<char>,
    version: Seq<char>,
    timestamp: Seq<char>,
    random_field: Seq<char>,
    checksum_field: Seq<char>,
    changed: Seq<char>,
)
    requires
        has_no_separator(prefix),
        has_no_separator(environment),
        has_no_separator(version),
        has_no_separator(timestamp),
        has_no_separator(random_field),
        has_no_separator(checksum_field),
        has_no_separator(changed),
        key_format_verdict(
            prefix,
            environment,
            join_fields(prefix, environment, version, timestamp, random_field, checksum_field),
        ) is Ok,
        key_format_verdict(
            prefix,
            environment,
            join_fields(prefix, environment, version, timestamp, random_field, changed),
        ) is Ok,
    ensures
        base32_bytes(checksum_field) is Some,
        base32_bytes(changed) is Some,
        base32_bytes(changed)->0.take(4) == base32_bytes(checksum_field)->0.take(4),
{
    lemma_joined_fields_split(
        prefix,
        environment,
        version,
        timestamp,
        random_field,
        checksum_field,
    );
    lemma_joined_fields_split(prefix, environment, version, timestamp, random_field, changed);
}

/// The checksum covers the random field: of two keys that differ in
/// nothing but their random field, both are accepted only if the bytes
/// that the two fields stand for have the same checksum.
pub proof fn law_random_field_is_covered(
    prefix: Seq<char>,
    environment: Seq<char>,
    version: Seq<char>,
    timestamp: Seq<char>,
    random_field: Seq<char>,
    checksum_field: Seq<char>,
    changed: Seq<char>,
)
    requires
        has_no_separator(prefix),
        has_no_separator(environment),
        has_no_separator(version),
        has_no_separator(timestamp),
        has_no_separator(random_field),
        has_no_separator(checksum_field),
        has_no_separator(changed),
        key_format_verdict(
            prefix,
            environment,
            join_fields(prefix, environment, version, timestamp, random_field, checksum_field),
        ) is Ok,
        key_format_verdict(
            prefix,
            environment,
            join_fields(prefix, environment, version, timestamp, changed, checksum_field),
        ) is Ok,
    ensures
        base32_bytes(random_field) is Some,
        base32_bytes(changed) is Some,
        checksum(prefix, environment, version, timestamp, base32_bytes(changed)->0) == checksum(
            prefix,
            environment,
            version,
            timestamp,
            base32_bytes(random_field)->0,
        ),
{
    lemma_joined_fields_split(
        prefix,
        environment,
        version,
        timestamp,
        random_field,
        checksum_field,
    );
    lemma_joined_fields_split(prefix, environment, version, timestamp, changed, checksum_field);
}

proof fn lemma_digits_have_no_separator(s: Seq<char>)
    requires
        all_digits(s),
    ensures
        has_no_separator(s),
{
    assert forall|i: int| 0 <= i < s.len() implies s[i] != field_separator() by {
        assert(is_digit(s[i]));
    }
}

proof fn lemma_base32_has_no_separator(s: Seq<char>)
    requires
        forall|i: int| 0 <= i < s.len() ==> is_base32_char(#[trigger] s[i]),
    ensures
        has_no_separator(s),
{
    assert forall|i: int| 0 <= i < s.len() implies s[i] != field_separator() by {
        assert(is_base32_char(s[i]));
    }
}

proof fn lemma_version_field(version: i32)
    ensures
        has_no_separator(version_field(version)),
        version_field(version).len() > 0,
        version_field(version)[0] == 'v',
{
    // the field is a `v`, a minus sign if the version is negative, and digits
    let magnitude = if version < 0 {
        (-version) as nat
    } else {
        version as nat
    };
    let sign: int = if version < 0 {
        1
    } else {
        0
    };
    let digits = decimal_digits(magnitude);
    let field = version_field(version);
    lemma_decimal_digits(magnitude);
    assert forall|i: int| 0 <= i < field.len() implies field[i] != field_separator() by {
        if i > sign {
            assert(field[i] == digits[i - 1 - sign]);
            assert(is_digit(digits[i - 1 - sign]));
        }
    }
}

fn append_bytes(out: &mut Vec<u8>, data: &[u8])
    ensures
        final(out)@ == old(out)@ + data@,
{
    let mut i: usize = 0;
    while i < data.len()
        invariant
            i <= data.len(),
            out@ == old(out)@ + data@.take(i as int),
        decreases data.len() - i,
    {
        out.push(data[i]);
        i = i + 1;
    }
}

/// The digest that the checksum of a key is the beginning of.
fn checksum_digest(
    prefix: &str,
    environment: &str,
    version: &str,
    timestamp: &str,
    random: &[u8],
) -> (digest: Vec<u8>)
    ensures
        digest@ == sha256_digest(
            checksum_input(prefix@, environment@, version@, timestamp@, random@),
        ),
        digest@.len() == 32,
{
    let mut input: Vec<u8> = Vec::new();
    append_bytes(&mut input, prefix.as_bytes());
    append_bytes(&mut input, environment.as_bytes());
    append_bytes(&mut input, version.as_bytes());
    append_bytes(&mut input, timestamp.as_bytes());
    append_bytes(&mut input, random);
    sha256(input.as_slice())
}

fn starts_with_v(text: &str) -> (r: bool)
    ensures
        r == (text@.len() > 0 && text@[0] == 'v'),
{
    text.unicode_len() > 0 && text.get_char(0) == 'v'
}

fn first_four_match(given: &Vec<u8>, digest: &Vec<u8>) -> (r: bool)
    requires
        digest@.len() >= 4,
    ensures
        r == (given@.len() >= 4 && given@.take(4) == digest@.take(4)),
{
    if given.len() < 4 {
        return false;
    }
    let mut i: usize = 0;
    while i < 4
        invariant
            i <= 4 <= given@.len(),
            4 <= digest@.len(),
            forall|k: int| 0 <= k < i ==> given@[k] == digest@[k],
        decreases 4 - i,
    {
        if given[i] != digest[i] {
            assert(given@.take(4)[i as int] != digest@.take(4)[i as int]);
            return false;
        }
        i = i + 1;
    }
    assert(given@.take(4) =~= digest@.take(4));
    true
}

/// Issues API keys for one prefix and environment, and checks them.
#[derive(Clone)]
pub struct ApiKeyService {
    pub prefix: String,
    pub environment: String,
    pub version: i32,
    pub secret_key: String,
}

impl ApiKeyService {
    /// A service for keys of version 1.
    pub fn new(prefix: String, environment: String, secret_key: String) -> (service: Self)
        ensures
            service.prefix == prefix,
            service.environment == environment,
            service.version == 1,
            service.secret_key == secret_key,
    {
        ApiKeyService { prefix, environment, version: 1, secret_key }
    }

    /// Issues a key with twenty fresh random bytes and the time of the wall
    /// clock, cut to 32 bits. Returns the key and the hash to store for it.
    ///
    /// Whatever the clock and the generator give, the key is the one that
    /// `key_text` describes for them and tells them again; it has the shape
    /// of an issued key; its hash is 64 characters long; and it passes this
    /// service's format check unless the prefix or the environment holds a
    /// `_`.
    pub fn generate_api_key(&self) -> (r: Result<(String, String), ApiError>)
        ensures
            r is Ok,
            r matches Ok(pair) ==> exists|timestamp: u32, random: Seq<u8>|
                random.len() == 20 && key_tells(pair.0@, timestamp, random) && pair.0@
                    == #[trigger] key_text(
                    self.prefix@,
                    self.environment@,
                    self.version,
                    timestamp,
                    random,
                ),
            r matches Ok(pair) ==> has_issued_shape(pair.0@),
            r matches Ok(pair) ==> pair.1@ == key_hash_text(pair.0@),
            r matches Ok(pair) ==> pair.1@.len() == 64,
            r matches Ok(pair) ==> (has_no_separator(self.prefix@) && has_no_separator(
                self.environment@,
            ) ==> key_format_verdict(self.prefix@, self.environment@, pair.0@) == Ok::<
                (),
                ApiError,
            >(())),
    {
        let random = random_nonce();
        let now = unix_now();
        let timestamp: u32 = #[verifier::truncate] (now as u32);
        Ok(self.generate_api_key_with(timestamp, &random))
    }

    /// Issues the key for a given timestamp and given random bytes. The
    /// key tells both again, and it has the shape of an issued key whatever
    /// the prefix and the environment hold.
    pub fn generate_api_key_with(&self, timestamp: u32, random: &[u8; 20]) -> (pair: (
        String,
        String,
    ))
        ensures
            key_tells(pair.0@, timestamp, random@),
            has_issued_shape(pair.0@),
            pair.1@.len() == 64,
            pair.0@ == key_text(
                self.prefix@,
                self.environment@,
                self.version,
                timestamp,
                random@,
            ),
            pair.1@ == key_hash_text(pair.0@),
            has_no_separator(self.prefix@) && has_no_separator(self.environment@)
                ==> key_format_verdict(self.prefix@, self.environment@, pair.0@) == Ok::<
                (),
                ApiError,
            >(()),
    {
        let mut version = String::from_str("v");
        version.append(decimal_string(self.version as i64).as_str());
        let timestamp_text = decimal_string(timestamp as i64);
        proof {
            reveal_strlit("v");
            reveal_strlit("_");
            assert(version@ =~= version_field(self.version));
        }
        let digest = checksum_digest(
            self.prefix.as_str(),
            self.environment.as_str(),
            version.as_str(),
            timestamp_text.as_str(),
            random.as_slice(),
        );
        let check = slice_subrange(digest.as_slice(), 0, 4);
        let random_field = base32_encode(random.as_slice());
        let checksum_field = base32_encode(check);
        let mut key = String::from_str(self.prefix.as_str());
        key.append("_");
        key.append(self.environment.as_str());
        key.append("_");
        key.append(version.as_str());
        key.append("_");
        key.append(timestamp_text.as_str());
        key.append("_");
        key.append(random_field.as_str());
        key.append("_");
        key.append(checksum_field.as_str());
        proof {
            assert(key@ =~= join_fields(
                self.prefix@,
                self.environment@,
                version@,
                timestamp_text@,
                random_field@,
                checksum_field@,
            ));
            lemma_version_field(self.version);
            lemma_decimal_digits(timestamp as nat);
            lemma_digits_have_no_separator(timestamp_text@);
            lemma_parse_decimal(timestamp);
            lemma_base32_has_no_separator(random_field@);
            lemma_base32_has_no_separator(checksum_field@);
            let head = self.prefix@ + seq![field_separator()] + self.environment@;
            lemma_split_joined(self.prefix@, self.environment@, field_separator());
            lemma_split_is_not_empty(self.prefix@, field_separator());
            lemma_split_is_not_empty(self.environment@, field_separator());
            lemma_last_fields_split(
                head,
                version@,
                timestamp_text@,
                random_field@,
                checksum_field@,
            );
            let fields = split(key@, field_separator());
            let before = split(head, field_separator()).len() as int;
            assert(fields[before + 1] == timestamp_text@);
            assert(fields[before + 2] == random_field@);
            assert(fields[before + 3] == checksum_field@);
            if has_no_separator(self.prefix@) && has_no_separator(self.environment@) {
                assert(check@.take(4) =~= check@);
                lemma_well_made_key_is_accepted(
                    self.prefix@,
                    self.environment@,
                    version@,
                    timestamp_text@,
                    random_field@,
                    checksum_field@,
                    random@,
                    check@,
                );
            }
        }
        let hash = hex_string(sha256(key.as_str().as_bytes()).as_slice());
        (key, hash)
    }

    /// Checks the shape of a key and its checksum. Nothing is looked up;
    /// the timestamp field has to be a number but is not held against the
    /// clock.
    pub fn validate_api_key_format(&self, key: &str) -> (r: Result<(), ApiError>)
        ensures
            r == key_format_verdict(self.prefix@, self.environment@, key@),
    {
        proof {
            lemma_split_count(key@, field_separator());
        }
        if count_char(key, '_') != 5 {
            return Err(ApiError::InvalidKeyFormat);
        }
        let fields = split_text(key, '_');
        let prefix = fields[0];
        let environment = fields[1];
        let version = fields[2];
        let timestamp = fields[3];
        if !same_text(prefix, self.prefix.as_str()) || !same_text(
            environment,
            self.environment.as_str(),
        ) {
            return Err(ApiError::InvalidKeyFormat);
        }
        if !starts_with_v(version) {
            return Err(ApiError::InvalidKeyFormat);
        }
        if parse_u32(timestamp).is_none() {
            return Err(ApiError::InvalidKeyFormat);
        }
        let random = match base32_decode(fields[4]) {
            Some(bytes) => bytes,
            None => {
                return Err(ApiError::InvalidKeyFormat);
            },
        };
        let expected = checksum_digest(
            prefix,
            environment,
            version,
            timestamp,
            random.as_slice(),
        );
        let given = match base32_decode(fields[5]) {
            Some(bytes) => bytes,
            None => {
                return Err(ApiError::InvalidChecksum);
            },
        };
        if first_four_match(&given, &expected) {
            Ok(())
        } else {
            Err(ApiError::InvalidChecksum)
        }
    }

    /// Checks a key and binds it to its stored record.
    ///
    /// The format check comes first and its error is final. Only a key that
    /// passes is hashed and looked up: `lookup` is called once, with the
    /// hash of the key, and what it finds decides.
    pub fn validate_api_key<F: Fn(&str) -> Option<ApiKey>>(&self, key: &str, lookup: F) -> (r:
        Result<ApiKey, ApiError>)
        requires
            forall|hash: &str| hash@ == key_hash_text(key@) ==> lookup.requires((hash,)),
        ensures
            match key_format_verdict(self.prefix@, self.environment@, key@) {
                Err(e) => r == Err::<ApiKey, ApiError>(e),
                Ok(_) => exists|hash: &str, found: Option<ApiKey>|
                    hash@ == key_hash_text(key@) && #[trigger] lookup.ensures((hash,), found) && r
                        == stored_key_verdict(found),
            },
    {
        match self.validate_api_key_format(key) {
            Err(e) => {
                return Err(e);
            },
            Ok(_) => {},
        }
        let hash = api_key_hash(key);
        let found = lookup(hash.as_str());
        check_stored_key(found)
    }
}

/// The hash under which a key is stored.
pub fn api_key_hash(key: &str) -> (hash: String)
    ensures
        hash@ == key_hash_text(key@),
        hash@.len() == 64,
{
    hex_string(sha256(key.as_bytes()).as_slice())
}

/// Decides on a key whose format is in order, from what the store holds
/// for its hash. The record has to be there and to be active; whether it
/// has expired is not looked at, and its usage count is not touched.
pub fn check_stored_key(found: Option<ApiKey>) -> (r: Result<ApiKey, ApiError>)
    ensures
        r == stored_key_verdict(found),
{
    match found {
        None => Err(ApiError::KeyNotFound),
        Some(record) => {
            if record.is_active {
                Ok(record)
            } else {
                Err(ApiError::KeyInactive)
            }
        },
    }
}

} // verus!
