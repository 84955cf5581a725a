use archodex_backend::decimal::{decimal_string, parse_u32, push_decimal};
use archodex_backend::proto::{
    read_field_at, read_varint_at, write_bytes_field, write_varint, write_varint_field,
    DecodeError, Field, FieldData, ReportApiKey, ReportApiKeyEncryptedAad,
    ReportApiKeyEncryptedContents,
};
use archodex_backend::text::{bytes_eq, copy_bytes, str_eq};

#[test]
fn decimal_numerals_are_written_without_sign_or_leading_zeros() {
    assert_eq!(decimal_string(0), "0");
    assert_eq!(decimal_string(7), "7");
    assert_eq!(decimal_string(10), "10");
    assert_eq!(decimal_string(123456), "123456");
    assert_eq!(decimal_string(4294967295), "4294967295");
    assert_eq!(decimal_string(u64::MAX), "18446744073709551615");
    let mut out = vec![b'x'];
    push_decimal(&mut out, 9070);
    assert_eq!(out, b"x9070");
}

#[test]
fn decimal_numerals_are_read_as_the_standard_library_reads_them() {
    let cases: [&str; 18] = [
        "", "+", "-", "0", "+0", "-0", "00", "007", "42", "+42", "4294967295", "4294967296",
        "99999999999999999999", "12a", " 1", "1 ", "++1", "٣",
    ];
    for text in cases {
        assert_eq!(parse_u32(text.as_bytes()), text.parse::<u32>().ok(), "text {text:?}");
    }
    assert_eq!(parse_u32(b"000000000000000000000000000000042"), Some(42));
}

#[test]
fn decimal_round_trip() {
    for n in [0u32, 1, 9, 10, 99, 100, 100000, 999999, 1_000_000_000, u32::MAX] {
        assert_eq!(parse_u32(decimal_string(n as u64).as_bytes()), Some(n));
    }
}

#[test]
fn varints_have_the_base_128_layout() {
    let cases: [(u64, &[u8]); 7] = [
        (0, &[0x00]),
        (1, &[0x01]),
        (127, &[0x7f]),
        (128, &[0x80, 0x01]),
        (300, &[0xac, 0x02]),
        (1_000_000_000, &[0x80, 0x94, 0xeb, 0xdc, 0x03]),
        (
            u64::MAX,
            &[0xff, 0xff, 0xff, 0xff, 0xff, 0xff, 0xff, 0xff, 0xff, 0x01],
        ),
    ];
    for (n, bytes) in cases {
        let mut out = Vec::new();
        write_varint(&mut out, n);
        assert_eq!(out, bytes);
        assert_eq!(read_varint_at(bytes, 0, 10), Some((n, bytes.len())));
    }
}

#[test]
fn varint_reading_stops_at_the_number_and_refuses_what_is_cut_or_too_long() {
    assert_eq!(read_varint_at(&[0xac, 0x02, 0x55], 0, 10), Some((300, 2)));
    assert_eq!(read_varint_at(&[0x55, 0xac, 0x02], 1, 10), Some((300, 3)));
    assert_eq!(read_varint_at(&[], 0, 10), None);
    assert_eq!(read_varint_at(&[0x80], 0, 10), None);
    assert_eq!(read_varint_at(&[0x80, 0x80], 0, 10), None);
    assert_eq!(read_varint_at(&[0x05], 1, 10), None);
    assert_eq!(read_varint_at(&[0x80, 0x00], 0, 10), Some((0, 2)));
    let eleven = [0xff, 0xff, 0xff, 0xff, 0xff, 0xff, 0xff, 0xff, 0xff, 0x81, 0x00];
    assert_eq!(read_varint_at(&eleven, 0, 10), None);
    let overflow = [0xff, 0xff, 0xff, 0xff, 0xff, 0xff, 0xff, 0xff, 0xff, 0x02];
    assert_eq!(read_varint_at(&overflow, 0, 10), None);
    assert_eq!(read_varint_at(&[0x80, 0x01], 0, 1), None);
    assert_eq!(read_varint_at(&[0x01], 0, 0), None);
}

#[test]
fn fields_are_written_with_their_keys_and_defaults_are_left_out() {
    let mut out = Vec::new();
    write_varint_field(&mut out, 1, 150);
    assert_eq!(out, [0x08, 0x96, 0x01]);
    write_varint_field(&mut out, 2, 0);
    assert_eq!(out, [0x08, 0x96, 0x01]);
    write_bytes_field(&mut out, 2, b"hi");
    assert_eq!(out, [0x08, 0x96, 0x01, 0x12, 0x02, b'h', b'i']);
    write_bytes_field(&mut out, 3, b"");
    assert_eq!(out.len(), 7);
    write_bytes_field(&mut out, 15, &[0xaa]);
    assert_eq!(&out[7..], [0x7a, 0x01, 0xaa]);

    let mut wide = Vec::new();
    write_varint_field(&mut wide, 16, 1);
    assert_eq!(wide, [0x80, 0x01, 0x01]);
    write_bytes_field(&mut wide, 0x1fff_ffff, &[7]);
    assert_eq!(&wide[3..], [0xfa, 0xff, 0xff, 0xff, 0x0f, 0x01, 0x07]);
    assert_eq!(
        read_field_at(&wide, 3),
        Some(Field {
            tag: 0x1fff_ffff,
            data: FieldData::Bytes { start: 9, end: 10 },
            end: 10
        })
    );
}

#[test]
fn fields_of_each_kind_are_read() {
    let b = [0x08, 0x96, 0x01, 0x12, 0x02, b'h', b'i', 0x19, 1, 2, 3, 4, 5, 6, 7, 8, 0x25, 1, 2, 3, 4];
    assert_eq!(
        read_field_at(&b, 0),
        Some(Field {
            tag: 1,
            data: FieldData::Varint(150),
            end: 3
        })
    );
    assert_eq!(
        read_field_at(&b, 3),
        Some(Field {
            tag: 2,
            data: FieldData::Bytes { start: 5, end: 7 },
            end: 7
        })
    );
    assert_eq!(
        read_field_at(&b, 7),
        Some(Field {
            tag: 3,
            data: FieldData::Fixed64,
            end: 16
        })
    );
    assert_eq!(
        read_field_at(&b, 16),
        Some(Field {
            tag: 4,
            data: FieldData::Fixed32,
            end: 21
        })
    );
    assert_eq!(read_field_at(&b, 21), None);
}

#[test]
fn malformed_fields_are_refused() {
    assert_eq!(read_field_at(&[0x00, 0x01], 0), None);
    assert_eq!(read_field_at(&[0x0b], 0), None);
    assert_eq!(read_field_at(&[0x0c], 0), None);
    assert_eq!(read_field_at(&[0x0e, 0x00], 0), None);
    assert_eq!(read_field_at(&[0x0f, 0x00], 0), None);
    assert_eq!(read_field_at(&[0x08], 0), None);
    assert_eq!(read_field_at(&[0x12, 0x03, 1, 2], 0), None);
    assert_eq!(read_field_at(&[0x19, 1, 2, 3, 4, 5, 6, 7], 0), None);
    assert_eq!(read_field_at(&[0x25, 1, 2, 3], 0), None);
    assert_eq!(
        read_field_at(&[0x80, 0x80, 0x80, 0x80, 0x10, 0x00], 0),
        None
    );
    assert_eq!(
        read_field_at(&[0xf8, 0xff, 0xff, 0xff, 0x0f, 0x07], 0),
        Some(Field {
            tag: 0x1fff_ffff,
            data: FieldData::Varint(7),
            end: 6
        })
    );
}

fn sample() -> ReportApiKey {
    ReportApiKey {
        report_api_key_version: 1,
        endpoint: b"https://e".to_vec(),
        account_salt: vec![1; 16],
        nonce: vec![2; 12],
        encrypted_contents: vec![3; 22],
    }
}

#[test]
fn payload_round_trips() {
    let m = sample();
    let bytes = m.encode_to_vec();
    assert_eq!(bytes.len(), 2 + 11 + 18 + 14 + 24);
    assert_eq!(ReportApiKey::decode(&bytes), Ok(m));

    let empty = ReportApiKey {
        report_api_key_version: 0,
        endpoint: vec![],
        account_salt: vec![],
        nonce: vec![],
        encrypted_contents: vec![],
    };
    assert_eq!(empty.encode_to_vec(), Vec::<u8>::new());
    assert_eq!(ReportApiKey::decode(&[]), Ok(empty));

    let big = ReportApiKey {
        report_api_key_version: u32::MAX,
        endpoint: "é".repeat(200).into_bytes(),
        account_salt: vec![0; 300],
        nonce: vec![],
        encrypted_contents: vec![0xff; 1],
    };
    assert_eq!(ReportApiKey::decode(&big.encode_to_vec()), Ok(big));
}

#[test]
fn payload_decoding_follows_the_wire_rules() {
    let m = sample();
    let bytes = m.encode_to_vec();

    let mut reordered = bytes[2..].to_vec();
    reordered.extend(&bytes[..2]);
    assert_eq!(ReportApiKey::decode(&reordered), Ok(sample()));

    let mut repeated = vec![0x08, 0x05];
    repeated.extend(&bytes);
    assert_eq!(ReportApiKey::decode(&repeated), Ok(sample()));

    let mut with_unknown = bytes.clone();
    with_unknown.extend([0x30, 0x2a, 0x3a, 0x01, 0x00, 0x45, 0, 0, 0, 0]);
    assert_eq!(ReportApiKey::decode(&with_unknown), Ok(sample()));

    let truncating = [0x08, 0xff, 0xff, 0xff, 0xff, 0x1f];
    assert_eq!(
        ReportApiKey::decode(&truncating).unwrap().report_api_key_version,
        u32::MAX
    );

    assert_eq!(ReportApiKey::decode(&[0x0a, 0x00]), Err(DecodeError));
    assert_eq!(ReportApiKey::decode(&[0x10, 0x01]), Err(DecodeError));
    assert_eq!(ReportApiKey::decode(&[0x18, 0x01]), Err(DecodeError));
    assert_eq!(ReportApiKey::decode(&[0x12, 0x01, 0xff]), Err(DecodeError));
    assert_eq!(ReportApiKey::decode(&[0x12, 0x02, 0xc3, 0xa9]).unwrap().endpoint, "é".as_bytes());
    assert_eq!(ReportApiKey::decode(&[0x1a, 0x01, 0xff]).unwrap().account_salt, [0xff]);
    assert_eq!(ReportApiKey::decode(&bytes[..bytes.len() - 1]), Err(DecodeError));
}

#[test]
fn contents_and_associated_data_are_encoded() {
    let c = ReportApiKeyEncryptedContents {
        account_id: 1_000_000_000,
    };
    assert_eq!(c.encode_to_vec(), [0x08, 0x80, 0x94, 0xeb, 0xdc, 0x03]);
    assert_eq!(ReportApiKeyEncryptedContents::decode(&c.encode_to_vec()), Ok(c));
    assert_eq!(
        ReportApiKeyEncryptedContents::decode(&[]),
        Ok(ReportApiKeyEncryptedContents { account_id: 0 })
    );
    assert_eq!(
        ReportApiKeyEncryptedContents::decode(&[0x12, 0x01, 0x00, 0x08, 0x07]),
        Ok(ReportApiKeyEncryptedContents { account_id: 7 })
    );
    assert_eq!(
        ReportApiKeyEncryptedContents::decode(&[0x0a, 0x00]),
        Err(DecodeError)
    );
    let aad = ReportApiKeyEncryptedAad {
        key_id: 100000,
        endpoint: b"e".to_vec(),
        account_salt: vec![5, 6],
    };
    assert_eq!(
        aad.encode_to_vec(),
        [0x08, 0xa0, 0x8d, 0x06, 0x12, 0x01, b'e', 0x1a, 0x02, 5, 6]
    );
}

#[test]
fn text_helpers_compare_and_copy() {
    assert!(str_eq("", ""));
    assert!(str_eq("héllo", "héllo"));
    assert!(!str_eq("hello", "hellO"));
    assert!(!str_eq("hello", "hell"));
    assert!(bytes_eq(&[1, 2, 3], &[1, 2, 3]));
    assert!(!bytes_eq(&[1, 2, 3], &[1, 2]));
    assert!(!bytes_eq(&[1, 2, 3], &[1, 2, 4]));
    assert_eq!(copy_bytes(&[4, 5]), vec![4, 5]);
}
