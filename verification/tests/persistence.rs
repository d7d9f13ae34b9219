use license_codec::bridge::ConvertError;
use license_codec::data::{LicenseData, LicenseKey, LicenseKind, LicensePayloadData,
    LicensedProductData};
use license_codec::domain::License;

fn example_products() -> Vec<LicensedProductData> {
    vec![LicensedProductData { id: "foo".to_string(), min_version: 1, max_version: 1 }]
}

#[test]
fn to_key() {
    // Given
    let license_data = LicenseData {
        payload: LicensePayloadData {
            name: "Joe".to_string(),
            email: "joe@example.org".to_string(),
            kind: LicenseKind::Personal,
            created_on: Some(0),
            products: example_products(),
        },
        signature: "00010a".to_string(),
    };
    // When
    let key = license_data.to_key();
    // Then
    assert_eq!(key.as_ref(), "gqdwYXlsb2FkhaRuYW1lo0pvZaVlbWFpbK9qb2VAZXhhbXBsZS5vcmeka2luZKhQZXJzb25hbKpjcmVhdGVkX29uAKhwcm9kdWN0c5GDomlko2Zvb6ttaW5fdmVyc2lvbgGrbWF4X3ZlcnNpb24BqXNpZ25hdHVyZaYwMDAxMGE");
}

#[test]
fn from_key() {
    // Given
    let key = LicenseKey::new("gqdwYXlsb2FkhaRuYW1lo0pvZaVlbWFpbK9qb2VAZXhhbXBsZS5vcmeka2luZKhQZXJzb25hbKpjcmVhdGVkX29uAKhwcm9kdWN0c5GDomlko2Zvb6ttaW5fdmVyc2lvbgGrbWF4X3ZlcnNpb24BqXNpZ25hdHVyZaYwMDAxMGE".to_string());
    // When
    let license_data = LicenseData::try_from_key(&key).unwrap();
    // Then
    let expected_license_data = LicenseData {
        payload: LicensePayloadData {
            name: "Joe".to_string(),
            email: "joe@example.org".to_string(),
            kind: LicenseKind::Personal,
            created_on: Some(0),
            products: example_products(),
        },
        signature: "00010a".to_string(),
    };
    assert_eq!(license_data, expected_license_data);
}

#[test]
fn successful_deserialization() {
    // Given
    let license_data = LicenseData {
        payload: LicensePayloadData {
            name: "Joe".to_string(),
            email: "joe@example.org".to_string(),
            kind: LicenseKind::Personal,
            created_on: Some(0),
            products: example_products(),
        },
        signature: "aGVsbG8".to_string(),
    };
    // When
    let license = License::try_from_data(license_data).unwrap();
    // Then
    assert_eq!(license.payload().name(), "Joe");
    assert_eq!(license.payload().email(), "joe@example.org");
    assert_eq!(license.payload().kind(), LicenseKind::Personal);
    let products = license.payload().products();
    let product = products.first().expect("no product");
    assert_eq!(product.id(), "foo");
    assert_eq!(product.version_range(), 1..=1);
    assert_eq!(license.signature(), b"hello");
}

#[test]
fn failed_deserialization() {
    // Given
    let license_data = LicenseData {
        payload: LicensePayloadData {
            name: "Joe".to_string(),
            email: "joe".to_string(),
            kind: LicenseKind::Personal,
            created_on: Some(0),
            products: vec![],
        },
        signature: "".to_string(),
    };
    // When
    let license = License::try_from_data(license_data);
    // Then
    license.expect_err("should error due to invalid data");
}

#[test]
fn successful_serialization() {
    // Given
    let original_license_data = LicenseData {
        payload: LicensePayloadData {
            name: "Joe".to_string(),
            email: "joe@example.org".to_string(),
            kind: LicenseKind::Personal,
            created_on: Some(0),
            products: example_products(),
        },
        signature: "aGVsbG8".to_string(),
    };
    let license = License::try_from_data(original_license_data.clone()).unwrap();
    // When
    let serialized_license_data = LicenseData::from_license(license);
    // Then
    assert_eq!(original_license_data, serialized_license_data);
}

#[test]
fn conversion_error_names_missing_signature() {
    let license_data = LicenseData {
        payload: LicensePayloadData {
            name: "Joe".to_string(),
            email: "joe@example.org".to_string(),
            kind: LicenseKind::Personal,
            created_on: Some(0),
            products: example_products(),
        },
        signature: "%%%".to_string(),
    };
    let err = License::try_from_data(license_data).unwrap_err();
    assert_eq!(err, ConvertError::MalformedSignature);
}
