use aes_gcm::aead::{Aead, KeyInit, Payload};
use aes_gcm::{Aes128Gcm, Key, Nonce};
use archodex_backend::report_api_key::{
    associated_data, checked_contents, checked_payload, key_payload, key_value_text, parse_key_id,
    split_value, KeyError, ReportApiKey, ValueParts,
};
use archodex_backend::user::User;
use base64::prelude::{Engine, BASE64_STANDARD};

const ENDPOINT: &str = "https://api.example.com";
const KEY: [u8; 16] = [7, 1, 2, 3, 4, 5, 6, 7, 8, 9, 10, 11, 12, 13, 14, 15];
const SALT: [u8; 16] = [9; 16];

fn key_with_id(id: u32) -> ReportApiKey {
    ReportApiKey {
        id,
        description: None,
        created_at: None,
        created_by: User::new(1),
        revoked_at: None,
        revoked_by: None,
    }
}

fn varint(mut n: u64) -> Vec<u8> {
    let mut out = Vec::new();
    while n >= 128 {
        out.push((n % 128) as u8 | 0x80);
        n /= 128;
    }
    out.push(n as u8);
    out
}

fn bytes_field(tag: u8, bytes: &[u8]) -> Vec<u8> {
    let mut out = vec![tag << 3 | 2];
    out.extend(varint(bytes.len() as u64));
    out.extend_from_slice(bytes);
    out
}

/// A key value put together by hand, field by field.
fn handmade_value(key_id: u32, stated_key_id: &str, endpoint: &str, salt: &[u8], account_id: u32, key: &[u8; 16]) -> String {
    let nonce = [3u8; 12];
    let mut contents = vec![0x08];
    contents.extend(varint(account_id as u64));
    let mut aad = vec![0x08];
    aad.extend(varint(key_id as u64));
    aad.extend(bytes_field(2, endpoint.as_bytes()));
    aad.extend(bytes_field(3, salt));
    let cipher = Aes128Gcm::new(Key::<Aes128Gcm>::from_slice(key));
    let sealed = cipher
        .encrypt(
            Nonce::from_slice(&nonce),
            Payload {
                msg: &contents,
                aad: &aad,
            },
        )
        .unwrap();
    let mut payload = vec![0x08, 0x01];
    payload.extend(bytes_field(2, endpoint.as_bytes()));
    payload.extend(bytes_field(3, salt));
    payload.extend(bytes_field(4, &nonce));
    payload.extend(bytes_field(5, &sealed));
    format!(
        "archodex_report_api_key_{}_{}",
        stated_key_id,
        BASE64_STANDARD.encode(payload)
    )
}

fn payload_of(value: &str) -> Vec<u8> {
    let text = value
        .strip_prefix("archodex_report_api_key_")
        .unwrap()
        .split_once('_')
        .unwrap()
        .1;
    BASE64_STANDARD.decode(text).unwrap()
}

fn with_payload(value: &str, payload: &[u8]) -> String {
    let rest = value.strip_prefix("archodex_report_api_key_").unwrap();
    let id = rest.split_once('_').unwrap().0;
    format!(
        "archodex_report_api_key_{}_{}",
        id,
        BASE64_STANDARD.encode(payload)
    )
}

#[test]
fn generated_value_validates_with_its_account_and_key_id() {
    let key = key_with_id(123456);
    let value = key
        .generate_value("1234567890", SALT.to_vec(), ENDPOINT, &KEY)
        .unwrap();
    assert!(value.starts_with("archodex_report_api_key_123456_"));
    assert_eq!(
        ReportApiKey::validate_value(&value, ENDPOINT, &KEY),
        Ok(("1234567890".to_string(), 123456))
    );
}

#[test]
fn generated_value_round_trips_at_the_edges_of_the_ranges() {
    for (id, account) in [
        (100000u32, "1000000000"),
        (999999, "4294967295"),
        (500000, "+1000000001"),
    ] {
        let value = key_with_id(id)
            .generate_value(account, SALT.to_vec(), ENDPOINT, &KEY)
            .unwrap();
        let expected = account.trim_start_matches('+').to_string();
        assert_eq!(
            ReportApiKey::validate_value(&value, ENDPOINT, &KEY),
            Ok((expected, id))
        );
    }
}

#[test]
fn two_values_of_one_key_differ_and_both_validate() {
    let key = key_with_id(222222);
    let a = key
        .generate_value("2000000000", SALT.to_vec(), ENDPOINT, &KEY)
        .unwrap();
    let b = key
        .generate_value("2000000000", SALT.to_vec(), ENDPOINT, &KEY)
        .unwrap();
    assert_ne!(a, b);
    for value in [a, b] {
        assert_eq!(
            ReportApiKey::validate_value(&value, ENDPOINT, &KEY),
            Ok(("2000000000".to_string(), 222222))
        );
    }
}

#[test]
fn handmade_value_validates() {
    let value = handmade_value(654321, "654321", ENDPOINT, &SALT, 3_000_000_000, &KEY);
    assert_eq!(
        ReportApiKey::validate_value(&value, ENDPOINT, &KEY),
        Ok(("3000000000".to_string(), 654321))
    );
}

#[test]
fn generated_payload_has_the_documented_layout() {
    let value = key_with_id(123456)
        .generate_value("1234567890", SALT.to_vec(), ENDPOINT, &KEY)
        .unwrap();
    let payload = payload_of(&value);
    let mut expected_head = vec![0x08, 0x01];
    expected_head.extend(bytes_field(2, ENDPOINT.as_bytes()));
    expected_head.extend(bytes_field(3, &SALT));
    expected_head.extend([0x22, 12]);
    assert_eq!(&payload[..expected_head.len()], &expected_head[..]);
    let rest = &payload[expected_head.len() + 12..];
    assert_eq!(rest[0], 0x2a);
    assert_eq!(rest[1] as usize, rest.len() - 2);
    assert_eq!(rest.len() - 2, 6 + 16);
}

#[test]
fn validation_fails_for_another_endpoint() {
    let value = key_with_id(123456)
        .generate_value("1234567890", SALT.to_vec(), ENDPOINT, &KEY)
        .unwrap();
    assert_eq!(
        ReportApiKey::validate_value(&value, "https://api.example.org", &KEY),
        Err(KeyError::IncorrectEndpoint)
    );
    assert_eq!(
        ReportApiKey::validate_value(&value, "", &KEY),
        Err(KeyError::IncorrectEndpoint)
    );
}

#[test]
fn validation_fails_for_another_private_key() {
    let value = key_with_id(123456)
        .generate_value("1234567890", SALT.to_vec(), ENDPOINT, &KEY)
        .unwrap();
    let mut other = KEY;
    other[0] ^= 1;
    assert_eq!(
        ReportApiKey::validate_value(&value, ENDPOINT, &other),
        Err(KeyError::DecryptionFailed)
    );
}

#[test]
fn validation_fails_for_a_salt_that_is_not_sixteen_bytes() {
    for len in [0usize, 15, 17, 32] {
        let salt = vec![1u8; len];
        let value = key_with_id(123456)
            .generate_value("1234567890", salt, ENDPOINT, &KEY)
            .unwrap();
        assert_eq!(
            ReportApiKey::validate_value(&value, ENDPOINT, &KEY),
            Err(KeyError::InvalidSaltLength)
        );
    }
}

#[test]
fn validation_fails_for_key_ids_out_of_range() {
    for id in [0u32, 1, 99_999, 1_000_000, u32::MAX] {
        let value = key_with_id(id)
            .generate_value("1234567890", SALT.to_vec(), ENDPOINT, &KEY)
            .unwrap();
        assert_eq!(
            ReportApiKey::validate_value(&value, ENDPOINT, &KEY),
            Err(KeyError::KeyIdOutOfRange)
        );
    }
}

#[test]
fn validation_fails_for_a_changed_key_id() {
    let value = handmade_value(654321, "654322", ENDPOINT, &SALT, 3_000_000_000, &KEY);
    assert_eq!(
        ReportApiKey::validate_value(&value, ENDPOINT, &KEY),
        Err(KeyError::DecryptionFailed)
    );
    let value = key_with_id(123456)
        .generate_value("1234567890", SALT.to_vec(), ENDPOINT, &KEY)
        .unwrap();
    let changed = value.replacen("_123456_", "_123457_", 1);
    assert_eq!(
        ReportApiKey::validate_value(&changed, ENDPOINT, &KEY),
        Err(KeyError::DecryptionFailed)
    );
    let padded = value.replacen("_123456_", "_0123456_", 1);
    assert_eq!(
        ReportApiKey::validate_value(&padded, ENDPOINT, &KEY),
        Ok(("1234567890".to_string(), 123456))
    );
}

#[test]
fn validation_fails_for_every_single_byte_flip_in_the_payload() {
    let value = key_with_id(123456)
        .generate_value("1234567890", SALT.to_vec(), ENDPOINT, &KEY)
        .unwrap();
    let payload = payload_of(&value);
    for i in 0..payload.len() {
        for bit in [0x01u8, 0x02, 0x04, 0x08, 0x10, 0x20, 0x40, 0x80] {
            let mut tampered = payload.clone();
            tampered[i] ^= bit;
            let result = ReportApiKey::validate_value(&with_payload(&value, &tampered), ENDPOINT, &KEY);
            assert!(result.is_err(), "flip of byte {i} was accepted");
        }
    }
}

#[test]
fn validation_fails_for_a_tampered_ciphertext_with_decryption_error() {
    let value = key_with_id(123456)
        .generate_value("1234567890", SALT.to_vec(), ENDPOINT, &KEY)
        .unwrap();
    let mut payload = payload_of(&value);
    let last = payload.len() - 1;
    payload[last] ^= 0x10;
    assert_eq!(
        ReportApiKey::validate_value(&with_payload(&value, &payload), ENDPOINT, &KEY),
        Err(KeyError::DecryptionFailed)
    );
    let mut payload = payload_of(&value);
    let first_sealed = payload.len() - 22;
    payload[first_sealed] ^= 0x10;
    assert_eq!(
        ReportApiKey::validate_value(&with_payload(&value, &payload), ENDPOINT, &KEY),
        Err(KeyError::DecryptionFailed)
    );
}

#[test]
fn validation_fails_for_an_account_id_below_the_minimum() {
    let value = key_with_id(123456)
        .generate_value("999999999", SALT.to_vec(), ENDPOINT, &KEY)
        .unwrap();
    assert_eq!(
        ReportApiKey::validate_value(&value, ENDPOINT, &KEY),
        Err(KeyError::AccountIdOutOfRange)
    );
    let value = key_with_id(123456)
        .generate_value("0", SALT.to_vec(), ENDPOINT, &KEY)
        .unwrap();
    assert_eq!(
        ReportApiKey::validate_value(&value, ENDPOINT, &KEY),
        Err(KeyError::AccountIdOutOfRange)
    );
}

#[test]
fn validation_fails_for_malformed_text() {
    let cases = [
        ("", KeyError::MissingPrefix),
        ("archodex_report_api_key", KeyError::MissingPrefix),
        ("Archodex_report_api_key_123456_AAAA", KeyError::MissingPrefix),
        ("archodex_report_api_key_", KeyError::InvalidFormat),
        ("archodex_report_api_key_123456", KeyError::InvalidFormat),
        ("archodex_report_api_key__AAAA", KeyError::KeyIdNotANumber),
        ("archodex_report_api_key_12a456_AAAA", KeyError::KeyIdNotANumber),
        ("archodex_report_api_key_-123456_AAAA", KeyError::KeyIdNotANumber),
        ("archodex_report_api_key_ 123456_AAAA", KeyError::KeyIdNotANumber),
        ("archodex_report_api_key_99999999999_AAAA", KeyError::KeyIdNotANumber),
        ("archodex_report_api_key_12345_AAAA", KeyError::KeyIdOutOfRange),
        ("archodex_report_api_key_1234567_AAAA", KeyError::KeyIdOutOfRange),
        ("archodex_report_api_key_123456_", KeyError::EmptyPayload),
        ("archodex_report_api_key_123456_!!!!", KeyError::InvalidBase64),
        ("archodex_report_api_key_123456_AAA", KeyError::InvalidBase64),
        ("archodex_report_api_key_123456_AA_A", KeyError::InvalidBase64),
        ("archodex_report_api_key_123456_\u{e9}", KeyError::InvalidBase64),
        ("archodex_report_api_key_123456_/w==", KeyError::MalformedPayload),
    ];
    for (value, expected) in cases {
        assert_eq!(
            ReportApiKey::validate_value(value, ENDPOINT, &KEY),
            Err(expected),
            "value {value:?}"
        );
    }
}

#[test]
fn validation_fails_for_another_version() {
    let good = payload_of(&handmade_value(654321, "654321", ENDPOINT, &SALT, 3_000_000_000, &KEY));
    for version in [vec![], vec![0x08, 0x00], vec![0x08, 0x02]] {
        let mut payload = version;
        payload.extend(&good[2..]);
        if payload.is_empty() {
            continue;
        }
        let value = format!(
            "archodex_report_api_key_654321_{}",
            BASE64_STANDARD.encode(payload)
        );
        assert_eq!(
            ReportApiKey::validate_value(&value, ENDPOINT, &KEY),
            Err(KeyError::UnsupportedVersion)
        );
    }
}

#[test]
fn validation_fails_for_a_payload_that_is_cut_short() {
    let value = key_with_id(123456)
        .generate_value("1234567890", SALT.to_vec(), ENDPOINT, &KEY)
        .unwrap();
    let payload = payload_of(&value);
    let cut = &payload[..payload.len() - 1];
    assert_eq!(
        ReportApiKey::validate_value(&with_payload(&value, cut), ENDPOINT, &KEY),
        Err(KeyError::MalformedPayload)
    );
}

#[test]
fn validation_fails_for_a_nonce_of_another_length() {
    let mut payload = vec![0x08, 0x01];
    payload.extend(bytes_field(2, ENDPOINT.as_bytes()));
    payload.extend(bytes_field(3, &SALT));
    payload.extend(bytes_field(4, &[1, 2, 3]));
    payload.extend(bytes_field(5, &[0; 20]));
    let value = format!(
        "archodex_report_api_key_123456_{}",
        BASE64_STANDARD.encode(payload)
    );
    assert_eq!(
        ReportApiKey::validate_value(&value, ENDPOINT, &KEY),
        Err(KeyError::InvalidNonceLength)
    );
}

#[test]
fn validation_reads_the_last_of_a_repeated_field_and_skips_unknown_fields() {
    let good = payload_of(&handmade_value(654321, "654321", ENDPOINT, &SALT, 3_000_000_000, &KEY));
    let mut payload = bytes_field(2, b"https://other.example");
    payload.extend([0x30, 0x05]);
    payload.extend(bytes_field(9, b"ignored"));
    payload.extend(&good);
    let value = format!(
        "archodex_report_api_key_654321_{}",
        BASE64_STANDARD.encode(payload)
    );
    assert_eq!(
        ReportApiKey::validate_value(&value, ENDPOINT, &KEY),
        Ok(("3000000000".to_string(), 654321))
    );
}

#[test]
fn generation_fails_for_an_account_id_that_is_no_32_bit_number() {
    for account in ["", "abc", "-1", "4294967296", "12 ", "1e9"] {
        assert_eq!(
            key_with_id(123456).generate_value(account, SALT.to_vec(), ENDPOINT, &KEY),
            Err(KeyError::InvalidAccountId),
            "account {account:?}"
        );
    }
}

#[test]
fn new_key_has_a_six_digit_id_and_is_not_revoked() {
    for _ in 0..200 {
        let key = ReportApiKey::new(Some("ci".to_string()), User::new(42));
        assert!((100000..=999999).contains(&key.id()));
        assert_eq!(key.id(), key.id);
        assert_eq!(key.description, Some("ci".to_string()));
        assert_eq!(key.created_by, User::new(42));
        assert_eq!(key.created_at, None);
        assert_eq!(key.revoked_at, None);
        assert_eq!(key.revoked_by, None);
    }
}

#[test]
fn new_keys_do_not_all_get_the_same_id() {
    let ids: std::collections::HashSet<u32> = (0..200)
        .map(|_| ReportApiKey::new(None, User::new(1)).id())
        .collect();
    assert!(ids.len() > 1);
}

#[test]
fn value_parts_are_found() {
    let value = b"archodex_report_api_key_123456_AB_CD";
    assert_eq!(
        split_value(value),
        Ok(ValueParts {
            key_id_start: 24,
            underscore: 30
        })
    );
    assert_eq!(split_value(b"archodex_report_api_key_"), Err(KeyError::InvalidFormat));
    assert_eq!(split_value(b"x"), Err(KeyError::MissingPrefix));
    assert_eq!(parse_key_id(b"100000"), Ok(100000));
    assert_eq!(parse_key_id(b"999999"), Ok(999999));
    assert_eq!(parse_key_id(b"+100000"), Ok(100000));
    assert_eq!(parse_key_id(b"099999"), Err(KeyError::KeyIdOutOfRange));
    assert_eq!(parse_key_id(b""), Err(KeyError::KeyIdNotANumber));
    assert_eq!(parse_key_id(b"+"), Err(KeyError::KeyIdNotANumber));
}

#[test]
fn key_value_text_has_the_documented_format() {
    assert_eq!(
        key_value_text(123456, "QUJD"),
        "archodex_report_api_key_123456_QUJD"
    );
    assert_eq!(key_value_text(7, ""), "archodex_report_api_key_7_");
}

#[test]
fn payload_and_contents_checks_name_their_errors() {
    assert_eq!(
        checked_payload(None, ENDPOINT.as_bytes()),
        Err(KeyError::InvalidBase64)
    );
    assert_eq!(
        checked_payload(Some(vec![]), ENDPOINT.as_bytes()),
        Err(KeyError::EmptyPayload)
    );
    assert_eq!(
        checked_payload(Some(vec![0xff]), ENDPOINT.as_bytes()),
        Err(KeyError::MalformedPayload)
    );
    let payload = key_payload(ENDPOINT.as_bytes(), SALT.to_vec(), vec![0; 12], vec![1, 2, 3]);
    let decoded = checked_payload(Some(payload.clone()), ENDPOINT.as_bytes()).unwrap();
    assert_eq!(decoded.report_api_key_version, 1);
    assert_eq!(decoded.endpoint, ENDPOINT.as_bytes());
    assert_eq!(decoded.account_salt, SALT.to_vec());
    assert_eq!(decoded.nonce, vec![0; 12]);
    assert_eq!(decoded.encrypted_contents, vec![1, 2, 3]);
    assert_eq!(
        checked_payload(Some(payload), b"elsewhere"),
        Err(KeyError::IncorrectEndpoint)
    );

    assert_eq!(checked_contents(None), Err(KeyError::DecryptionFailed));
    assert_eq!(
        checked_contents(Some(vec![0x08])),
        Err(KeyError::MalformedContents)
    );
    assert_eq!(
        checked_contents(Some(vec![])),
        Err(KeyError::AccountIdOutOfRange)
    );
    assert_eq!(
        checked_contents(Some(vec![0x08, 0x80, 0x94, 0xeb, 0xdc, 0x03])),
        Ok(1_000_000_000)
    );
    assert_eq!(
        checked_contents(Some(vec![0x08, 0xff, 0x93, 0xeb, 0xdc, 0x03])),
        Err(KeyError::AccountIdOutOfRange)
    );
}

#[test]
fn associated_data_binds_key_id_endpoint_and_salt() {
    let aad = associated_data(300, b"ep", &[1, 2]);
    assert_eq!(aad, vec![0x08, 0xac, 0x02, 0x12, 2, b'e', b'p', 0x1a, 2, 1, 2]);
    assert_ne!(aad, associated_data(301, b"ep", &[1, 2]));
    assert_ne!(aad, associated_data(300, b"eq", &[1, 2]));
    assert_ne!(aad, associated_data(300, b"ep", &[1, 3]));
}
