//! Capability keys: bearer credentials that authenticate a submitter of
//! reports to one account and are bound to one endpoint.
//!
//! A key value is the text `archodex_report_api_key_`, the key's id in
//! decimal, an underscore and the base64 text of a payload. The payload
//! names the endpoint and the account's salt in the clear and holds the
//! account id sealed by AES-128-GCM. The key id, the endpoint and the salt
//! are the associated data of the seal, so that the sealed account id does
//! not authenticate under another key id, endpoint or account.

use vstd::prelude::*;
use vstd::slice::slice_subrange;
use vstd::string::*;
use vstd::utf8::{encode_utf8, valid_utf8};
use crate::crypto::{
    aes128_gcm_open, aes128_gcm_seal, base64_decode, base64_encode, base64_standard_decode,
    base64_standard_encode, generate_nonce, open, random_in, seal,
};
use crate::decimal::{
    decimal_chars, decimal_digits, decimal_string, parse_u32, parse_u32_spec,
};
use crate::proto::{
    decode_contents, decode_key, encode_aad, encode_contents, encode_key, AadView,
    ReportApiKeyEncryptedAad, ReportApiKeyEncryptedContents, ReportApiKeyView,
};
use crate::text::{bytes_eq, copy_bytes, copy_str};
use crate::timestamp::Timestamp;
use crate::user::User;

verus! {

/// The least key id.
pub const KEY_ID_MIN: u32 = 100_000;

/// The greatest key id.
pub const KEY_ID_MAX: u32 = 999_999;

/// The least account id that a key may name.
pub const ACCOUNT_ID_MIN: u32 = 1_000_000_000;

/// The number of bytes of an account's salt.
pub const SALT_LEN: usize = 16;

/// The version of the payload's layout.
pub const KEY_VERSION: u32 = 1;

/// The ASCII code of the underscore.
pub const UNDERSCORE: u8 = 95;

/// Why a key value is refused, or why none could be made.
#[derive(Clone, Copy, Debug, PartialEq, Eq, Structural)]
pub enum KeyError {
    /// The value does not begin with `archodex_report_api_key_`.
    MissingPrefix,
    /// No underscore follows the key id.
    InvalidFormat,
    /// The key id is not a number.
    KeyIdNotANumber,
    /// The key id is not a six-digit number.
    KeyIdOutOfRange,
    /// The payload is not base64 text.
    InvalidBase64,
    /// The payload is empty.
    EmptyPayload,
    /// The payload cannot be decoded.
    MalformedPayload,
    /// The payload has a layout of another version.
    UnsupportedVersion,
    /// The key is bound to another endpoint.
    IncorrectEndpoint,
    /// The salt is not sixteen bytes long.
    InvalidSaltLength,
    /// The nonce is not twelve bytes long.
    InvalidNonceLength,
    /// The sealed contents do not authenticate under this deployment's key
    /// and the key id, endpoint and salt that the value states.
    DecryptionFailed,
    /// The opened contents cannot be decoded.
    MalformedContents,
    /// The account id is below the least valid one.
    AccountIdOutOfRange,
    /// The account id for a new key is not a 32-bit number.
    InvalidAccountId,
    /// The contents of a new key could not be sealed.
    EncryptionFailed,
    /// The payload of a new key is too long to be written as text.
    PayloadTooLong,
}

impl KeyError {
    /// The kind of failure that the error is: a malformed key value is a
    /// bad request; a key value that is bound elsewhere or does not
    /// authenticate is unauthorized; a value that cannot be made is an
    /// internal failure.
    pub open spec fn status_spec(self) -> crate::error::StatusCode {
        match self {
            KeyError::IncorrectEndpoint => crate::error::StatusCode::Unauthorized,
            KeyError::DecryptionFailed => crate::error::StatusCode::Unauthorized,
            KeyError::AccountIdOutOfRange => crate::error::StatusCode::Unauthorized,
            KeyError::EncryptionFailed => crate::error::StatusCode::InternalServerError,
            KeyError::PayloadTooLong => crate::error::StatusCode::InternalServerError,
            _ => crate::error::StatusCode::BadRequest,
        }
    }

    /// The kind of failure that the error is.
    pub fn status_code(&self) -> (r: crate::error::StatusCode)
        ensures
            r == self.status_spec(),
    {
        match self {
            KeyError::IncorrectEndpoint => crate::error::StatusCode::Unauthorized,
            KeyError::DecryptionFailed => crate::error::StatusCode::Unauthorized,
            KeyError::AccountIdOutOfRange => crate::error::StatusCode::Unauthorized,
            KeyError::EncryptionFailed => crate::error::StatusCode::InternalServerError,
            KeyError::PayloadTooLong => crate::error::StatusCode::InternalServerError,
            _ => crate::error::StatusCode::BadRequest,
        }
    }
}

/// The characters with which every key value begins.
pub open spec fn prefix_chars() -> Seq<char> {
    "archodex_report_api_key_"@
}

/// The bytes with which every key value begins.
#[verifier::opaque]
pub open spec fn prefix_bytes() -> Seq<u8> {
    encode_utf8(prefix_chars())
}

/// The position of the first underscore in `s`, if it holds one.
pub open spec fn first_underscore(s: Seq<u8>) -> Option<int> {
    if exists|i: int| 0 <= i < s.len() && s[i] == UNDERSCORE {
        Some(
            choose|i: int|
                0 <= i < s.len() && s[i] == UNDERSCORE && forall|j: int|
                    0 <= j < i ==> s[j] != UNDERSCORE,
        )
    } else {
        None
    }
}

/// The two parts of a key value: the text of the key id and the text of the
/// payload.
pub ghost struct SplitValue {
    pub key_id_text: Seq<u8>,
    pub payload_text: Seq<u8>,
}

/// The parts of a key value: after the prefix, the key id runs up to the
/// first underscore and the payload is all that follows it.
#[verifier::opaque]
pub open spec fn split_value_spec(value: Seq<u8>) -> Result<SplitValue, KeyError> {
    let prefix = prefix_bytes();
    if !(value.len() >= prefix.len() && value.subrange(0, prefix.len() as int) == prefix) {
        Err(KeyError::MissingPrefix)
    } else {
        let rest = value.subrange(prefix.len() as int, value.len() as int);
        match first_underscore(rest) {
            None => Err(KeyError::InvalidFormat),
            Some(i) => Ok(
                SplitValue {
                    key_id_text: rest.subrange(0, i),
                    payload_text: rest.subrange(i + 1, rest.len() as int),
                },
            ),
        }
    }
}

/// The key id that a text states: a number from 100000 to 999999.
pub open spec fn key_id_spec(text: Seq<u8>) -> Result<u32, KeyError> {
    match parse_u32_spec(text) {
        None => Err(KeyError::KeyIdNotANumber),
        Some(id) => if KEY_ID_MIN <= id <= KEY_ID_MAX {
            Ok(id)
        } else {
            Err(KeyError::KeyIdOutOfRange)
        },
    }
}

/// The payload of a key value, given what decoding its base64 text gave. The
/// payload must have the known version, name this deployment's endpoint and
/// hold a salt of sixteen bytes and a nonce of twelve.
pub open spec fn payload_spec(decoded: Option<Seq<u8>>, endpoint: Seq<u8>) -> Result<
    ReportApiKeyView,
    KeyError,
> {
    match decoded {
        None => Err(KeyError::InvalidBase64),
        Some(bytes) => if bytes.len() == 0 {
            Err(KeyError::EmptyPayload)
        } else {
            match decode_key(bytes) {
                None => Err(KeyError::MalformedPayload),
                Some(m) => if m.report_api_key_version != KEY_VERSION {
                    Err(KeyError::UnsupportedVersion)
                } else if m.endpoint != endpoint {
                    Err(KeyError::IncorrectEndpoint)
                } else if m.account_salt.len() != SALT_LEN {
                    Err(KeyError::InvalidSaltLength)
                } else if m.nonce.len() != crate::crypto::NONCE_LEN {
                    Err(KeyError::InvalidNonceLength)
                } else {
                    Ok(m)
                },
            }
        },
    }
}

/// The associated data under which the contents of a key are sealed: the
/// key id, the endpoint and the account's salt.
pub open spec fn aad_spec(key_id: u32, endpoint: Seq<u8>, account_salt: Seq<u8>) -> Seq<u8> {
    encode_aad(AadView { key_id, endpoint, account_salt })
}

/// The associated data determines the key id, the endpoint and the salt:
/// sealed contents that are moved to another key id, endpoint or salt are
/// opened under other associated data than they were sealed under.
pub proof fn lemma_associated_data_binds(
    key_id: u32,
    endpoint: Seq<u8>,
    account_salt: Seq<u8>,
    other_key_id: u32,
    other_endpoint: Seq<u8>,
    other_account_salt: Seq<u8>,
)
    requires
        valid_utf8(endpoint),
        valid_utf8(other_endpoint),
        endpoint.len() < 0x1_0000_0000_0000_0000,
        other_endpoint.len() < 0x1_0000_0000_0000_0000,
        account_salt.len() < 0x1_0000_0000_0000_0000,
        other_account_salt.len() < 0x1_0000_0000_0000_0000,
        aad_spec(key_id, endpoint, account_salt) == aad_spec(
            other_key_id,
            other_endpoint,
            other_account_salt,
        ),
    ensures
        key_id == other_key_id,
        endpoint == other_endpoint,
        account_salt == other_account_salt,
{
    let a = ReportApiKeyView {
        report_api_key_version: key_id,
        endpoint,
        account_salt,
        nonce: Seq::empty(),
        encrypted_contents: Seq::empty(),
    };
    let b = ReportApiKeyView {
        report_api_key_version: other_key_id,
        endpoint: other_endpoint,
        account_salt: other_account_salt,
        nonce: Seq::empty(),
        encrypted_contents: Seq::empty(),
    };
    crate::proto::lemma_decode_encode_key(a);
    crate::proto::lemma_decode_encode_key(b);
    assert(encode_key(a) =~= aad_spec(key_id, endpoint, account_salt));
    assert(encode_key(b) =~= aad_spec(other_key_id, other_endpoint, other_account_salt));
}

/// The account id of a key value, given what opening its sealed contents
/// gave.
pub open spec fn contents_spec(opened: Option<Seq<u8>>) -> Result<u32, KeyError> {
    match opened {
        None => Err(KeyError::DecryptionFailed),
        Some(bytes) => match decode_contents(bytes) {
            None => Err(KeyError::MalformedContents),
            Some(account_id) => if account_id < ACCOUNT_ID_MIN {
                Err(KeyError::AccountIdOutOfRange)
            } else {
                Ok(account_id)
            },
        },
    }
}

/// The outcome for a payload that passed its checks: its sealed contents are
/// opened under the deployment's key and the associated data that the value
/// states, and checked.
pub open spec fn validate_payload_spec(key_id: u32, m: ReportApiKeyView, key: Seq<u8>) -> Result<
    (u32, u32),
    KeyError,
> {
    match contents_spec(
        aes128_gcm_open(
            key,
            m.nonce,
            aad_spec(key_id, m.endpoint, m.account_salt),
            m.encrypted_contents,
        ),
    ) {
        Err(e) => Err(e),
        Ok(account_id) => Ok((account_id, key_id)),
    }
}

/// The outcome for the two parts of a key value.
pub open spec fn validate_parts_spec(parts: SplitValue, endpoint: Seq<u8>, key: Seq<u8>) -> Result<
    (u32, u32),
    KeyError,
> {
    match key_id_spec(parts.key_id_text) {
        Err(e) => Err(e),
        Ok(key_id) => match payload_spec(base64_standard_decode(parts.payload_text), endpoint) {
            Err(e) => Err(e),
            Ok(m) => validate_payload_spec(key_id, m, key),
        },
    }
}

/// The account id and the key id that a key value authenticates, for the
/// deployment with the given endpoint and private key: the value is split,
/// its key id read, its payload decoded and checked, and its sealed contents
/// opened and checked, in this order; the first check that fails decides
/// the error.
pub open spec fn validate_value_spec(value: Seq<u8>, endpoint: Seq<u8>, key: Seq<u8>) -> Result<
    (u32, u32),
    KeyError,
> {
    match split_value_spec(value) {
        Err(e) => Err(e),
        Ok(parts) => validate_parts_spec(parts, endpoint, key),
    }
}

/// The positions of the parts of a key value.
#[derive(Clone, Copy, Debug, PartialEq, Eq)]
pub struct ValueParts {
    /// Where the text of the key id begins.
    pub key_id_start: usize,
    /// Where the underscore after the key id stands.
    pub underscore: usize,
}

/// Finds the parts of a key value.
pub fn split_value(value: &[u8]) -> (r: Result<ValueParts, KeyError>)
    ensures
        match r {
            Ok(parts) => {
                &&& parts.key_id_start <= parts.underscore
                &&& parts.underscore < value@.len()
                &&& split_value_spec(value@) == Ok::<SplitValue, KeyError>(
                    SplitValue {
                        key_id_text: value@.subrange(
                            parts.key_id_start as int,
                            parts.underscore as int,
                        ),
                        payload_text: value@.subrange(parts.underscore + 1, value@.len() as int),
                    },
                )
            },
            Err(e) => split_value_spec(value@) == Err::<SplitValue, KeyError>(e),
        },
{
    reveal(prefix_bytes);
    reveal(split_value_spec);
    let prefix = "archodex_report_api_key_".as_bytes();
    let n = prefix.len();
    if value.len() < n || !bytes_eq(slice_subrange(value, 0, n), prefix) {
        return Err(KeyError::MissingPrefix);
    }
    let ghost rest = value@.subrange(n as int, value@.len() as int);
    let mut i: usize = n;
    while i < value.len()
        invariant
            n <= i <= value@.len(),
            n == prefix_bytes().len(),
            value@.subrange(0, n as int) == prefix_bytes(),
            rest == value@.subrange(n as int, value@.len() as int),
            forall|j: int| 0 <= j < i - n ==> rest[j] != UNDERSCORE,
        decreases value@.len() - i,
    {
        if value[i] == UNDERSCORE {
            reveal(split_value_spec);
            assert(rest[i - n] == UNDERSCORE);
            assert(rest.subrange(0, i - n) =~= value@.subrange(n as int, i as int));
            assert(rest.subrange(i - n + 1, rest.len() as int) =~= value@.subrange(
                i + 1,
                value@.len() as int,
            ));
            return Ok(ValueParts { key_id_start: n, underscore: i });
        }
        i += 1;
    }
    reveal(split_value_spec);
    Err(KeyError::InvalidFormat)
}

/// Reads the key id from its text.
pub fn parse_key_id(text: &[u8]) -> (r: Result<u32, KeyError>)
    ensures
        r == key_id_spec(text@),
{
    match parse_u32(text) {
        None => Err(KeyError::KeyIdNotANumber),
        Some(id) => if KEY_ID_MIN <= id && id <= KEY_ID_MAX {
            Ok(id)
        } else {
            Err(KeyError::KeyIdOutOfRange)
        },
    }
}

/// Checks the payload of a key value, given what decoding its base64 text
/// gave.
pub fn checked_payload(decoded: Option<Vec<u8>>, endpoint: &[u8]) -> (r: Result<
    crate::proto::ReportApiKey,
    KeyError,
>)
    ensures
        match r {
            Ok(m) => payload_spec(crate::text::opt_bytes_view(decoded), endpoint@) == Ok::<
                ReportApiKeyView,
                KeyError,
            >(m@),
            Err(e) => payload_spec(crate::text::opt_bytes_view(decoded), endpoint@) == Err::<
                ReportApiKeyView,
                KeyError,
            >(e),
        },
{
    let bytes = match decoded {
        None => {
            return Err(KeyError::InvalidBase64);
        },
        Some(bytes) => bytes,
    };
    if bytes.len() == 0 {
        return Err(KeyError::EmptyPayload);
    }
    let m = match crate::proto::ReportApiKey::decode(bytes.as_slice()) {
        Err(_) => {
            return Err(KeyError::MalformedPayload);
        },
        Ok(m) => m,
    };
    if m.report_api_key_version != KEY_VERSION {
        return Err(KeyError::UnsupportedVersion);
    }
    if !bytes_eq(m.endpoint.as_slice(), endpoint) {
        return Err(KeyError::IncorrectEndpoint);
    }
    if m.account_salt.len() != SALT_LEN {
        return Err(KeyError::InvalidSaltLength);
    }
    if m.nonce.len() != crate::crypto::NONCE_LEN {
        return Err(KeyError::InvalidNonceLength);
    }
    Ok(m)
}

/// Checks the contents of a key value, given what opening the seal gave.
pub fn checked_contents(opened: Option<Vec<u8>>) -> (r: Result<u32, KeyError>)
    ensures
        r == contents_spec(crate::text::opt_bytes_view(opened)),
{
    let bytes = match opened {
        None => {
            return Err(KeyError::DecryptionFailed);
        },
        Some(bytes) => bytes,
    };
    match ReportApiKeyEncryptedContents::decode(bytes.as_slice()) {
        Err(_) => Err(KeyError::MalformedContents),
        Ok(contents) => if contents.account_id < ACCOUNT_ID_MIN {
            Err(KeyError::AccountIdOutOfRange)
        } else {
            Ok(contents.account_id)
        },
    }
}

/// The associated data for a key id and the endpoint and salt of a payload.
pub fn associated_data(key_id: u32, endpoint: &[u8], account_salt: &[u8]) -> (r: Vec<u8>)
    ensures
        r@ == aad_spec(key_id, endpoint@, account_salt@),
{
    let aad = ReportApiKeyEncryptedAad {
        key_id,
        endpoint: copy_bytes(endpoint),
        account_salt: copy_bytes(account_salt),
    };
    aad.encode_to_vec()
}

/// A capability key as the store holds it. The key's value is not stored: it
/// is made once, when the key is created.
#[derive(Debug, PartialEq, Eq)]
pub struct ReportApiKey {
    pub id: u32,
    pub description: Option<String>,
    pub created_at: Option<Timestamp>,
    pub created_by: User,
    pub revoked_at: Option<Timestamp>,
    pub revoked_by: Option<User>,
}

/// What clients are told of a capability key.
#[derive(Debug, PartialEq, Eq)]
pub struct ReportApiKeyPublic {
    pub id: u32,
    pub description: Option<String>,
    pub created_at: Option<Timestamp>,
}

impl ReportApiKeyPublic {
    /// What clients are told of the key.
    pub fn from(record: ReportApiKey) -> (r: ReportApiKeyPublic)
        ensures
            r.id == record.id,
            r.description == record.description,
            r.created_at == record.created_at,
    {
        ReportApiKeyPublic {
            id: record.id,
            description: record.description,
            created_at: record.created_at,
        }
    }
}

/// The id of the capability key that a route names.
pub open spec fn route_key_id_spec(text: Seq<u8>) -> Option<u32> {
    parse_u32_spec(text)
}

/// Reads the id of a capability key from the text of a route. Text that is
/// no 32-bit number is a bad request.
pub fn route_key_id(text: &str) -> (r: Result<u32, crate::error::PublicError>)
    ensures
        match r {
            Ok(id) => route_key_id_spec(text.spec_bytes()) == Some(id),
            Err(e) => route_key_id_spec(text.spec_bytes()) is None && e.status_code
                == crate::error::StatusCode::BadRequest && e.message@
                == "Invalid route key ID"@,
        },
{
    match parse_u32(text.as_bytes()) {
        Some(id) => Ok(id),
        None => Err(crate::error::PublicError::bad_request("Invalid route key ID")),
    }
}

/// What the store says of the validity of a capability key.
#[derive(Clone, Copy, Debug, PartialEq, Eq, Structural)]
pub struct ReportApiKeyIsValidQueryResponse {
    pub valid: bool,
}

impl ReportApiKeyIsValidQueryResponse {
    pub fn is_valid(&self) -> (r: bool)
        ensures
            r == self.valid,
    {
        self.valid
    }
}

/// The account id and the key id of a validated key value, the account id
/// in decimal.
pub open spec fn validated_text(r: Result<(u32, u32), KeyError>) -> Result<
    (Seq<char>, u32),
    KeyError,
> {
    match r {
        Ok((account_id, key_id)) => Ok((decimal_chars(account_id as nat), key_id)),
        Err(e) => Err(e),
    }
}

/// The characters of the key value with the given key id and payload text.
pub open spec fn key_value_chars(key_id: u32, payload_text: Seq<char>) -> Seq<char> {
    prefix_chars() + decimal_chars(key_id as nat) + "_"@ + payload_text
}

/// The payload of a new key.
pub open spec fn new_payload(
    endpoint: Seq<u8>,
    account_salt: Seq<u8>,
    nonce: Seq<u8>,
    sealed: Seq<u8>,
) -> ReportApiKeyView {
    ReportApiKeyView {
        report_api_key_version: KEY_VERSION,
        endpoint,
        account_salt,
        nonce,
        encrypted_contents: sealed,
    }
}

/// The key value that results for the given nonce: the contents are sealed
/// under the nonce, the payload is encoded and written as base64 text.
pub open spec fn generated_value(
    key_id: u32,
    account_id: u32,
    account_salt: Seq<u8>,
    endpoint: Seq<u8>,
    key: Seq<u8>,
    nonce: Seq<u8>,
) -> Seq<char> {
    key_value_chars(
        key_id,
        base64_standard_encode(
            encode_key(
                new_payload(
                    endpoint,
                    account_salt,
                    nonce,
                    aes128_gcm_seal(
                        key,
                        nonce,
                        aad_spec(key_id, endpoint, account_salt),
                        encode_contents(account_id),
                    ),
                ),
            ),
        ),
    )
}

/// The UTF-8 encoding of a text made of two parts is made of the encodings
/// of the parts.
pub proof fn lemma_encode_utf8_concat(a: Seq<char>, b: Seq<char>)
    ensures
        encode_utf8(a + b) == encode_utf8(a) + encode_utf8(b),
    decreases a.len(),
{
    if a.len() == 0 {
        assert(a + b =~= b);
        assert(encode_utf8(a) =~= Seq::<u8>::empty());
        assert(encode_utf8(a) + encode_utf8(b) =~= encode_utf8(b));
    } else {
        lemma_encode_utf8_concat(a.drop_first(), b);
        assert((a + b).drop_first() =~= a.drop_first() + b);
        assert((a + b)[0] == a[0]);
        assert(encode_utf8(a + b) =~= encode_utf8(a) + encode_utf8(b));
    }
}

/// The UTF-8 encoding of a decimal numeral is its ASCII digits.
pub proof fn lemma_decimal_chars_bytes(n: nat)
    ensures
        encode_utf8(decimal_chars(n)) == decimal_digits(n),
{
    let chars = decimal_chars(n);
    let digits = decimal_digits(n);
    crate::decimal::lemma_decimal_digits(n);
    assert forall|i: int| 0 <= i < chars.len() implies '\0' <= #[trigger] chars[i] <= '\u{7f}' by {
        assert(crate::decimal::is_digit(digits[i]));
    }
    vstd::utf8::is_ascii_chars_encode_utf8(chars);
    assert forall|i: int| 0 <= i < digits.len() implies encode_utf8(chars)[i] == digits[i] by {
        assert(crate::decimal::is_digit(digits[i]));
        assert(chars[i] as u8 == encode_utf8(chars)[i]);
    }
    assert(encode_utf8(chars) =~= digits);
}

/// The UTF-8 encoding of an underscore is the one byte 95.
pub proof fn lemma_underscore_bytes()
    ensures
        encode_utf8("_"@) == seq![UNDERSCORE],
{
    reveal_strlit("_");
    let chars = "_"@;
    assert(chars.len() == 1);
    assert(chars[0] == '_');
    assert forall|i: int| 0 <= i < chars.len() implies '\0' <= #[trigger] chars[i] <= '\u{7f}' by {
    }
    vstd::utf8::is_ascii_chars_encode_utf8(chars);
    assert(chars[0] as u8 == encode_utf8(chars)[0]);
    assert(encode_utf8(chars) =~= seq![UNDERSCORE]);
}

/// The bytes of a key value: the prefix, the digits of the key id, an
/// underscore and the payload text.
pub proof fn lemma_key_value_bytes(key_id: u32, payload_text: Seq<char>)
    ensures
        encode_utf8(key_value_chars(key_id, payload_text)) == prefix_bytes() + decimal_digits(
            key_id as nat,
        ) + seq![UNDERSCORE] + encode_utf8(payload_text),
{
    reveal(prefix_bytes);
    let a = prefix_chars();
    let b = decimal_chars(key_id as nat);
    let c = "_"@;
    lemma_encode_utf8_concat(a + b + c, payload_text);
    lemma_encode_utf8_concat(a + b, c);
    lemma_encode_utf8_concat(a, b);
    lemma_decimal_chars_bytes(key_id as nat);
    lemma_underscore_bytes();
}

/// A key value that is put together from a key id and a payload text is
/// split into these two again.
pub proof fn lemma_split_key_value(key_id: u32, payload_text: Seq<char>)
    ensures
        split_value_spec(encode_utf8(key_value_chars(key_id, payload_text))) == Ok::<
            SplitValue,
            KeyError,
        >(
            SplitValue {
                key_id_text: decimal_digits(key_id as nat),
                payload_text: encode_utf8(payload_text),
            },
        ),
{
    reveal(split_value_spec);
    let value = encode_utf8(key_value_chars(key_id, payload_text));
    let prefix = prefix_bytes();
    let digits = decimal_digits(key_id as nat);
    let text = encode_utf8(payload_text);
    lemma_key_value_bytes(key_id, payload_text);
    crate::decimal::lemma_decimal_digits(key_id as nat);
    assert(value.subrange(0, prefix.len() as int) =~= prefix);
    let rest = value.subrange(prefix.len() as int, value.len() as int);
    assert(rest =~= digits + seq![UNDERSCORE] + text);
    let at = digits.len() as int;
    assert(rest[at] == UNDERSCORE);
    assert forall|j: int| 0 <= j < at implies rest[j] != UNDERSCORE by {
        assert(rest[j] == digits[j]);
        assert(crate::decimal::is_digit(digits[j]));
    }
    let found = first_underscore(rest)->0;
    assert(found == at) by {
        if found < at {
            assert(rest[found] != UNDERSCORE);
        }
    }
    assert(rest.subrange(0, at) =~= digits);
    assert(rest.subrange(at + 1, rest.len() as int) =~= text);
}

/// A key value validates with the account id and key id it was made for:
/// whatever the nonce, provided that the cipher opens what it sealed and
/// that the payload text decodes to the payload.
pub proof fn lemma_generated_value_validates(
    key_id: u32,
    account_id: u32,
    account_salt: Seq<u8>,
    endpoint: Seq<u8>,
    key: Seq<u8>,
    nonce: Seq<u8>,
    sealed: Seq<u8>,
    payload_text: Seq<char>,
)
    requires
        KEY_ID_MIN <= key_id <= KEY_ID_MAX,
        account_id >= ACCOUNT_ID_MIN,
        account_salt.len() == SALT_LEN,
        nonce.len() == crate::crypto::NONCE_LEN,
        valid_utf8(endpoint),
        endpoint.len() < 0x1_0000_0000_0000_0000,
        sealed.len() < 0x1_0000_0000_0000_0000,
        aes128_gcm_open(key, nonce, aad_spec(key_id, endpoint, account_salt), sealed) == Some(
            encode_contents(account_id),
        ),
        base64_standard_decode(encode_utf8(payload_text)) == Some(
            encode_key(new_payload(endpoint, account_salt, nonce, sealed)),
        ),
    ensures
        validate_value_spec(encode_utf8(key_value_chars(key_id, payload_text)), endpoint, key)
            == Ok::<(u32, u32), KeyError>((account_id, key_id)),
{
    let m = new_payload(endpoint, account_salt, nonce, sealed);
    let value = encode_utf8(key_value_chars(key_id, payload_text));
    lemma_split_key_value(key_id, payload_text);
    crate::decimal::lemma_parse_decimal(key_id);
    crate::proto::lemma_decode_encode_key(m);
    crate::proto::lemma_decode_encode_contents(account_id);
    assert(encode_key(m).len() > 0) by {
        assert(crate::proto::varint_field(1, 1).len() > 0);
    }
    let parts = split_value_spec(value)->Ok_0;
    assert(key_id_spec(parts.key_id_text) == Ok::<u32, KeyError>(key_id));
    assert(payload_spec(base64_standard_decode(parts.payload_text), endpoint) == Ok::<
        ReportApiKeyView,
        KeyError,
    >(m));
    assert(validate_payload_spec(key_id, m, key) == Ok::<(u32, u32), KeyError>(
        (account_id, key_id),
    ));
}

/// What makes a key value valid: it states a six-digit key id, its payload
/// names this deployment's endpoint and holds a salt of sixteen bytes, its
/// sealed contents authenticate under this deployment's key and under the
/// key id, endpoint and salt that the value states, and the account id is a
/// valid one. A value that misses any of these is refused.
pub proof fn lemma_valid_value(value: Seq<u8>, endpoint: Seq<u8>, key: Seq<u8>)
    requires
        validate_value_spec(value, endpoint, key) is Ok,
    ensures
        ({
            let parts = split_value_spec(value)->Ok_0;
            let key_id = parse_u32_spec(parts.key_id_text)->0;
            let m = decode_key(base64_standard_decode(parts.payload_text)->0)->0;
            let opened = aes128_gcm_open(
                key,
                m.nonce,
                aad_spec(key_id, endpoint, m.account_salt),
                m.encrypted_contents,
            );
            &&& split_value_spec(value) is Ok
            &&& parse_u32_spec(parts.key_id_text) is Some
            &&& KEY_ID_MIN <= key_id <= KEY_ID_MAX
            &&& base64_standard_decode(parts.payload_text) is Some
            &&& decode_key(base64_standard_decode(parts.payload_text)->0) is Some
            &&& m.report_api_key_version == KEY_VERSION
            &&& m.endpoint == endpoint
            &&& m.account_salt.len() == SALT_LEN
            &&& opened is Some
            &&& decode_contents(opened->0) is Some
            &&& decode_contents(opened->0)->0 >= ACCOUNT_ID_MIN
            &&& validate_value_spec(value, endpoint, key) == Ok::<(u32, u32), KeyError>(
                (decode_contents(opened->0)->0, key_id),
            )
        }),
{
    let parts = split_value_spec(value)->Ok_0;
    assert(validate_parts_spec(parts, endpoint, key) is Ok);
    let key_id = key_id_spec(parts.key_id_text)->Ok_0;
    let payload = payload_spec(base64_standard_decode(parts.payload_text), endpoint);
    assert(payload is Ok);
    assert(validate_payload_spec(key_id, payload->Ok_0, key) is Ok);
}

/// Puts a key value together from the key id and the payload text.
pub fn key_value_text(key_id: u32, payload_text: &str) -> (r: String)
    ensures
        r@ == key_value_chars(key_id, payload_text@),
{
    let mut value = copy_str("archodex_report_api_key_");
    crate::decimal::push_decimal_str(&mut value, key_id as u64);
    value.append("_");
    value.append(payload_text);
    assert(value@ =~= key_value_chars(key_id, payload_text@));
    value
}

/// The encoded payload of a new key, given the nonce and what sealing the
/// contents gave.
pub fn key_payload(endpoint: &[u8], account_salt: Vec<u8>, nonce: Vec<u8>, sealed: Vec<u8>) -> (r:
    Vec<u8>)
    ensures
        r@ == encode_key(new_payload(endpoint@, account_salt@, nonce@, sealed@)),
{
    let payload = crate::proto::ReportApiKey {
        report_api_key_version: KEY_VERSION,
        endpoint: copy_bytes(endpoint),
        account_salt,
        nonce,
        encrypted_contents: sealed,
    };
    payload.encode_to_vec()
}

/// The length of the payload of a new key for an account: it depends on the
/// lengths of the endpoint and the salt and on the account id.
pub open spec fn new_payload_len(endpoint_len: nat, salt_len: nat, account_id: u32) -> nat {
    crate::proto::key_len(
        KEY_VERSION,
        endpoint_len,
        salt_len,
        crate::crypto::NONCE_LEN as nat,
        encode_contents(account_id).len() + crate::crypto::TAG_LEN as nat,
    )
}

/// The greatest length of a payload that is written as text.
pub const PAYLOAD_MAX: usize = 0x3fff_ffff;

impl ReportApiKey {
    /// Makes the value of this key for an account: the account id is sealed
    /// under a fresh random nonce and bound to the key id, the endpoint and
    /// the account's salt.
    ///
    /// A value is made exactly if the account id is a 32-bit number and the
    /// endpoint and the salt are not too long to be sealed and written as
    /// text. The value that results validates again, under the same endpoint
    /// and private key, with this account id and key id, provided that the
    /// key id has six digits, the salt sixteen bytes and the account id is a
    /// valid one.
    pub fn generate_value(
        &self,
        account_id: &str,
        account_salt: Vec<u8>,
        endpoint: &str,
        private_key: &[u8; 16],
    ) -> (r: Result<String, KeyError>)
        ensures
            match r {
                Ok(value) => {
                    let account = parse_u32_spec(account_id.spec_bytes());
                    &&& account is Some
                    &&& aad_spec(self.id, endpoint.spec_bytes(), account_salt@).len()
                        <= crate::crypto::SEAL_MAX
                    &&& new_payload_len(
                        endpoint.spec_bytes().len(),
                        account_salt@.len(),
                        account->0,
                    ) <= PAYLOAD_MAX
                    &&& exists|nonce: Seq<u8>|
                        nonce.len() == crate::crypto::NONCE_LEN && value@ == #[trigger] generated_value(
                            self.id,
                            account->0,
                            account_salt@,
                            endpoint.spec_bytes(),
                            private_key@,
                            nonce,
                        )
                    &&& KEY_ID_MIN <= self.id <= KEY_ID_MAX && account_salt@.len() == SALT_LEN
                        && account->0 >= ACCOUNT_ID_MIN ==> validate_value_spec(
                        encode_utf8(value@),
                        endpoint.spec_bytes(),
                        private_key@,
                    ) == Ok::<(u32, u32), KeyError>((account->0, self.id))
                },
                Err(KeyError::InvalidAccountId) => parse_u32_spec(account_id.spec_bytes()) is None,
                Err(KeyError::EncryptionFailed) => parse_u32_spec(account_id.spec_bytes()) is Some
                    && aad_spec(self.id, endpoint.spec_bytes(), account_salt@).len()
                    > crate::crypto::SEAL_MAX,
                Err(KeyError::PayloadTooLong) => parse_u32_spec(account_id.spec_bytes()) is Some
                    && aad_spec(self.id, endpoint.spec_bytes(), account_salt@).len()
                    <= crate::crypto::SEAL_MAX && new_payload_len(
                    endpoint.spec_bytes().len(),
                    account_salt@.len(),
                    parse_u32_spec(account_id.spec_bytes())->0,
                ) > PAYLOAD_MAX,
                Err(_) => false,
            },
    {
        let account = match parse_u32(account_id.as_bytes()) {
            Some(account) => account,
            None => {
                return Err(KeyError::InvalidAccountId);
            },
        };
        let endpoint_bytes = endpoint.as_bytes();
        let endpoint_len = endpoint_bytes.len();
        let salt_len = account_salt.len();
        let nonce = generate_nonce();
        let contents = ReportApiKeyEncryptedContents { account_id: account }.encode_to_vec();
        let aad = associated_data(self.id, endpoint_bytes, account_salt.as_slice());
        proof {
            crate::proto::lemma_field_len(1, account as nat, Seq::empty());
            crate::proto::lemma_field_len(1, self.id as nat, endpoint_bytes@);
            crate::proto::lemma_field_len(3, 0, account_salt@);
            crate::proto::lemma_field_len(2, KEY_VERSION as nat, endpoint_bytes@);
            crate::proto::lemma_field_len(4, 0, nonce@);
            vstd::utf8::encode_utf8_valid_utf8(endpoint@);
        }
        let sealed = match seal(private_key, nonce.as_slice(), aad.as_slice(), contents.as_slice()) {
            Some(sealed) => sealed,
            None => {
                return Err(KeyError::EncryptionFailed);
            },
        };
        let sealed_len = sealed.len();
        proof {
            crate::proto::lemma_field_len(5, 0, sealed@);
        }
        let ghost salt = account_salt@;
        proof {
            crate::proto::lemma_key_len(new_payload(endpoint_bytes@, salt, nonce@, sealed@));
        }
        let payload = key_payload(endpoint_bytes, account_salt, nonce, sealed);
        if payload.len() > PAYLOAD_MAX {
            return Err(KeyError::PayloadTooLong);
        }
        let text = base64_encode(payload.as_slice());
        let value = key_value_text(self.id, text.as_str());
        proof {
            assert(value@ == generated_value(
                self.id,
                account,
                salt,
                endpoint_bytes@,
                private_key@,
                nonce@,
            ));
            if KEY_ID_MIN <= self.id <= KEY_ID_MAX && salt.len() == SALT_LEN && account
                >= ACCOUNT_ID_MIN {
                lemma_generated_value_validates(
                    self.id,
                    account,
                    salt,
                    endpoint_bytes@,
                    private_key@,
                    nonce@,
                    sealed@,
                    text@,
                );
            }
        }
        Ok(value)
    }

    /// A new key with a random six-digit id.
    pub fn new(description: Option<String>, created_by: User) -> (r: ReportApiKey)
        ensures
            KEY_ID_MIN <= r.id <= KEY_ID_MAX,
            r.description == description,
            r.created_by == created_by,
            r.created_at is None,
            r.revoked_at is None,
            r.revoked_by is None,
    {
        ReportApiKey {
            id: random_in(KEY_ID_MIN as u64, KEY_ID_MAX as u64) as u32,
            description,
            created_at: None,
            created_by,
            revoked_at: None,
            revoked_by: None,
        }
    }

    pub fn id(&self) -> (r: u32)
        ensures
            r == self.id,
    {
        self.id
    }

    /// Validates a key value for the deployment with the given endpoint and
    /// private key, and returns the account id, in decimal, and the key id
    /// that the value authenticates.
    ///
    /// This establishes that the value is cryptographically valid and bound
    /// to the endpoint. Whether the key was revoked is for the caller to
    /// check against the store.
    pub fn validate_value(report_api_key_value: &str, endpoint: &str, private_key: &[u8; 16]) -> (r:
        Result<(String, u32), KeyError>)
        ensures
            match r {
                Ok((account_id, key_id)) => validated_text(
                    validate_value_spec(
                        report_api_key_value.spec_bytes(),
                        endpoint.spec_bytes(),
                        private_key@,
                    ),
                ) == Ok::<(Seq<char>, u32), KeyError>((account_id@, key_id)),
                Err(e) => validate_value_spec(
                    report_api_key_value.spec_bytes(),
                    endpoint.spec_bytes(),
                    private_key@,
                ) == Err::<(u32, u32), KeyError>(e),
            },
    {
        let value = report_api_key_value.as_bytes();
        let ghost spec = validate_value_spec(value@, endpoint.spec_bytes(), private_key@);
        let parts = match split_value(value) {
            Ok(parts) => parts,
            Err(e) => {
                return Err(e);
            },
        };
        let ghost split = split_value_spec(value@)->Ok_0;
        assert(spec == validate_parts_spec(split, endpoint.spec_bytes(), private_key@));
        let key_id = match parse_key_id(slice_subrange(value, parts.key_id_start, parts.underscore)) {
            Ok(key_id) => key_id,
            Err(e) => {
                return Err(e);
            },
        };
        let end = value.len();
        let decoded = base64_decode(slice_subrange(value, parts.underscore + 1, end));
        let payload = match checked_payload(decoded, endpoint.as_bytes()) {
            Ok(payload) => payload,
            Err(e) => {
                return Err(e);
            },
        };
        assert(spec == validate_payload_spec(key_id, payload@, private_key@));
        let aad = associated_data(
            key_id,
            payload.endpoint.as_slice(),
            payload.account_salt.as_slice(),
        );
        let opened = open(
            private_key,
            payload.nonce.as_slice(),
            aad.as_slice(),
            payload.encrypted_contents.as_slice(),
        );
        match checked_contents(opened) {
            Ok(account_id) => Ok((decimal_string(account_id as u64), key_id)),
            Err(e) => Err(e),
        }
    }
}

} // verus!
