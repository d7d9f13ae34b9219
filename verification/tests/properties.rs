use base64::Engine;
use license_codec::bridge::ConvertError;
use license_codec::codec::DecodeError;
use license_codec::data::{LicenseData, LicenseKey, LicenseKind, LicensePayloadData,
    LicensedProductData};
use license_codec::domain::License;
use license_codec::validate::{validate_product, Field, ValidationError};

fn record(name: &str, email: &str, products: Vec<LicensedProductData>, signature: &str)
    -> LicenseData {
    LicenseData {
        payload: LicensePayloadData {
            name: name.to_string(),
            email: email.to_string(),
            kind: LicenseKind::Personal,
            created_on: Some(0),
            products,
        },
        signature: signature.to_string(),
    }
}

fn one_product() -> Vec<LicensedProductData> {
    vec![LicensedProductData { id: "foo".to_string(), min_version: 1, max_version: 1 }]
}

#[test]
fn round_trip_various_records() {
    let records = vec![
        record("Joe", "joe@example.org", one_product(), "00010a"),
        // No creation timestamp, as a record decoded from the legacy generation has.
        LicenseData {
            payload: LicensePayloadData {
                name: "Jöé".to_string(),
                email: "jöé@example.org".to_string(),
                kind: LicenseKind::Business,
                created_on: None,
                products: vec![
                    LicensedProductData { id: "a".to_string(), min_version: 0, max_version: 7 },
                    LicensedProductData {
                        id: "a-very-long-product-identifier-that-needs-a-longer-string-header-form-to-be-persisted-correctly".to_string(),
                        min_version: 300,
                        max_version: 70000,
                    },
                ],
            },
            signature: "AAEK".to_string(),
        },
        // Large values take the wide integer forms.
        LicenseData {
            payload: LicensePayloadData {
                name: "N".to_string(),
                email: "n@d.e".to_string(),
                kind: LicenseKind::Personal,
                created_on: Some(u64::MAX),
                products: vec![LicensedProductData {
                    id: "p".to_string(),
                    min_version: u32::MAX,
                    max_version: u32::MAX,
                }],
            },
            signature: "sig".to_string(),
        },
    ];
    for r in records {
        let key = r.to_key();
        let back = LicenseData::try_from_key(&key).unwrap();
        assert_eq!(back, r);
    }
}

#[test]
fn current_generation_is_url_safe_and_unpadded() {
    let r = record("Joe", "joe@example.org", one_product(), "00010a");
    let key = r.to_key();
    let text = key.as_ref();
    assert!(!text.is_empty());
    for c in text.chars() {
        assert!(
            c.is_ascii_alphanumeric() || c == '-' || c == '_',
            "token holds a character outside the unpadded URL-safe alphabet: {c}"
        );
    }
    let back = LicenseData::try_from_key(&key).unwrap();
    assert_eq!(back, r);
}

#[test]
fn bridging_reproduces_the_domain_object() {
    let data = record("Joe", "joe@example.org", one_product(), "AAEK");
    let license = License::try_from_data(data).unwrap();
    let round = License::try_from_data(LicenseData::from_license(license.clone())).unwrap();
    assert_eq!(round.payload().name(), license.payload().name());
    assert_eq!(round.payload().email(), license.payload().email());
    assert_eq!(round.payload().kind(), license.payload().kind());
    assert_eq!(round.payload().created_on(), license.payload().created_on());
    assert_eq!(round.payload().products(), license.payload().products());
    assert_eq!(round.signature(), license.signature());
}

#[test]
fn validation_rejects_empty_name() {
    let data = record("", "joe@example.org", one_product(), "AAEK");
    let err = License::try_from_data(data).unwrap_err();
    assert_eq!(err, ConvertError::Validation(ValidationError::EmptyField(Field::Name)));
}

#[test]
fn validation_rejects_invalid_email() {
    for email in ["joe", "joe@", "@example.org", "joe@org", "joe@x.", "a@@b.c"] {
        let data = record("Joe", email, one_product(), "AAEK");
        let err = License::try_from_data(data).unwrap_err();
        assert_eq!(
            err,
            ConvertError::Validation(ValidationError::InvalidFormat(Field::Email)),
            "email {email:?} should be rejected"
        );
    }
    let ok = record("Joe", "a@b.c", one_product(), "AAEK");
    assert!(License::try_from_data(ok).is_ok());
}

#[test]
fn validation_rejects_empty_product_list() {
    let data = record("Joe", "joe@example.org", vec![], "AAEK");
    let err = License::try_from_data(data).unwrap_err();
    assert_eq!(err, ConvertError::Validation(ValidationError::EmptyCollection(Field::Products)));
}

#[test]
fn validation_rejects_empty_product_id() {
    let products = vec![LicensedProductData { id: "".to_string(), min_version: 1, max_version: 1 }];
    let data = record("Joe", "joe@example.org", products, "AAEK");
    let err = License::try_from_data(data).unwrap_err();
    assert_eq!(err, ConvertError::Validation(ValidationError::EmptyField(Field::ProductId)));
}

#[test]
fn validation_rejects_inverted_version_range() {
    let products = vec![LicensedProductData { id: "foo".to_string(), min_version: 2, max_version: 1 }];
    let data = record("Joe", "joe@example.org", products, "AAEK");
    let err = License::try_from_data(data).unwrap_err();
    assert_eq!(err, ConvertError::Validation(ValidationError::InvalidRange(Field::ProductVersions)));
}

#[test]
fn validation_rejects_empty_signature() {
    let data = record("Joe", "joe@example.org", one_product(), "");
    let err = License::try_from_data(data).unwrap_err();
    assert_eq!(err, ConvertError::Validation(ValidationError::EmptyField(Field::Signature)));
}

#[test]
fn validate_product_reports_first_broken_rule() {
    let good = LicensedProductData { id: "foo".to_string(), min_version: 1, max_version: 2 };
    assert_eq!(validate_product(&good), Ok(()));
    let empty_id = LicensedProductData { id: "".to_string(), min_version: 2, max_version: 1 };
    assert_eq!(validate_product(&empty_id), Err(ValidationError::EmptyField(Field::ProductId)));
    let inverted = LicensedProductData { id: "x".to_string(), min_version: 2, max_version: 1 };
    assert_eq!(
        validate_product(&inverted),
        Err(ValidationError::InvalidRange(Field::ProductVersions))
    );
}

#[test]
fn decode_rejects_malformed_tokens() {
    // Characters outside the transport alphabet.
    let bad = LicenseKey::new("!!!not base64!!!".to_string());
    assert_eq!(LicenseData::try_from_key(&bad).unwrap_err(), DecodeError::MalformedToken);
    // Padding is not part of the current generation's transport form.
    let padded = LicenseKey::new("gYE=".to_string());
    assert_eq!(LicenseData::try_from_key(&padded).unwrap_err(), DecodeError::MalformedToken);
    // A dangling single symbol cannot come from whole bytes.
    let r = record("Joe", "joe@example.org", one_product(), "AAEK");
    let mut text = r.to_key().as_ref().to_string();
    text.push('A');
    let truncated_alphabet = LicenseKey::new(text);
    assert_eq!(
        LicenseData::try_from_key(&truncated_alphabet).unwrap_err(),
        DecodeError::MalformedToken
    );
}

#[test]
fn decode_rejects_malformed_payloads() {
    let engine = base64::engine::general_purpose::URL_SAFE_NO_PAD;
    // Structurally incomplete bytes: a full token's bytes, cut short.
    let r = record("Joe", "joe@example.org", one_product(), "AAEK");
    let whole = engine.decode(r.to_key().as_ref()).unwrap();
    let truncated = engine.encode(&whole[..whole.len() - 3]);
    assert_eq!(
        LicenseData::try_from_key(&LicenseKey::new(truncated)).unwrap_err(),
        DecodeError::MalformedPayload
    );
    // Well-formed transport text around bytes that are no license record.
    let garbage = engine.encode([0x01u8, 0x02, 0x03]);
    assert_eq!(
        LicenseData::try_from_key(&LicenseKey::new(garbage)).unwrap_err(),
        DecodeError::MalformedPayload
    );
    // An empty token carries no record.
    assert_eq!(
        LicenseData::try_from_key(&LicenseKey::new(String::new())).unwrap_err(),
        DecodeError::MalformedPayload
    );
}

#[test]
fn legacy_token_decodes_via_the_legacy_path() {
    let json = "{\"payload\":{\"name\":\"Joe\",\"email\":\"joe@example.org\",\"kind\":\"Personal\",\"products\":[{\"id\":\"foo\",\"min_version\":1,\"max_version\":1}]},\"signature\":\"00010a\"}";
    let token = base64::engine::general_purpose::STANDARD.encode(json);
    let key = LicenseKey::new(token);
    let data = LicenseData::try_from_key_legacy(&key).unwrap();
    assert_eq!(data.payload.name, "Joe");
    assert_eq!(data.payload.email, "joe@example.org");
    assert_eq!(data.payload.kind, LicenseKind::Personal);
    assert_eq!(data.payload.created_on, None);
    assert_eq!(data.payload.products, one_product());
    assert_eq!(data.signature, "00010a");
}

#[test]
fn legacy_decoder_accepts_whitespace_escapes_and_any_field_order() {
    let json = "{ \"signature\" : \"00010a\",\n  \"payload\" : { \"kind\" : \"Personal\", \"name\" : \"J\\u006fe\", \"email\" : \"joe@example.org\",\n    \"products\" : [ { \"max_version\" : 1, \"id\" : \"f\\\\oo\", \"min_version\" : 1 } ] } }";
    let token = base64::engine::general_purpose::STANDARD.encode(json);
    let data = LicenseData::try_from_key_legacy(&LicenseKey::new(token)).unwrap();
    assert_eq!(data.payload.name, "Joe");
    assert_eq!(data.payload.products[0].id, "f\\oo");
}

#[test]
fn legacy_decode_rejects_malformed_input() {
    // Not standard base64 (the URL-safe alphabet differs).
    let bad = LicenseKey::new("_-_-".to_string());
    assert_eq!(LicenseData::try_from_key_legacy(&bad).unwrap_err(), DecodeError::MalformedToken);
    // Valid transport text around broken structured text.
    let engine = base64::engine::general_purpose::STANDARD;
    let broken = engine.encode("{\"payload\":{}}");
    assert_eq!(
        LicenseData::try_from_key_legacy(&LicenseKey::new(broken)).unwrap_err(),
        DecodeError::MalformedPayload
    );
    // A string field that is not UTF-8.
    let mut bytes = b"{\"payload\":{\"name\":\"J".to_vec();
    bytes.push(0xff);
    bytes.extend_from_slice(b"\",\"email\":\"joe@example.org\",\"kind\":\"Personal\",\"products\":[{\"id\":\"foo\",\"min_version\":1,\"max_version\":1}]},\"signature\":\"00010a\"}");
    let non_utf8 = engine.encode(&bytes);
    assert_eq!(
        LicenseData::try_from_key_legacy(&LicenseKey::new(non_utf8)).unwrap_err(),
        DecodeError::MalformedPayload
    );
}

#[test]
fn legacy_record_gets_a_substitute_timestamp() {
    let json = "{\"payload\":{\"name\":\"Joe\",\"email\":\"joe@example.org\",\"kind\":\"Personal\",\"products\":[{\"id\":\"foo\",\"min_version\":1,\"max_version\":1}]},\"signature\":\"AAEK\"}";
    let token = base64::engine::general_purpose::STANDARD.encode(json);
    let data = LicenseData::try_from_key_legacy(&LicenseKey::new(token)).unwrap();
    assert_eq!(data.payload.created_on, None);
    // The bridge substitutes the wall clock for the missing timestamp.
    let license = License::try_from_data(data).unwrap();
    assert_eq!(license.payload().name(), "Joe");
    assert_eq!(license.signature(), &[0x00u8, 0x01, 0x0a]);
}

#[test]
fn end_to_end_example() {
    let engine = base64::engine::general_purpose::URL_SAFE_NO_PAD;
    let signature_bytes = [0x00u8, 0x01, 0x0a];
    let data = record("Joe", "joe@example.org", one_product(), &engine.encode(signature_bytes));
    let key = data.to_key();
    let decoded = LicenseData::try_from_key(&key).unwrap();
    let license = License::try_from_data(decoded).unwrap();
    let products = license.payload().products();
    assert_eq!(products[0].version_range(), 1..=1);
    assert_eq!(license.signature(), &[0x00u8, 0x01, 0x0a]);
}
