//! The persisted data model: the textual token and the license record with
//! its payload and product entries.  Values of these types may be invalid;
//! the rules in [`crate::validate`] decide validity.

use vstd::prelude::*;

verus! {

/// An opaque license token: a single immutable text value, safe for storage
/// and transmission.  It carries no parsed semantics; only the codec reads
/// its content.
#[derive(Clone, PartialEq, Eq, Hash, Debug)]
pub struct LicenseKey {
    raw: String,
}

impl View for LicenseKey {
    type V = Seq<char>;

    closed spec fn view(&self) -> Seq<char> {
        self.raw@
    }
}

impl LicenseKey {
    /// Wraps an arbitrary text value as a token.
    pub fn new(raw_key: String) -> (key: Self)
        ensures
            key@ == raw_key@,
    {
        Self { raw: raw_key }
    }

    /// The token's text.
    pub fn as_ref(&self) -> (text: &str)
        ensures
            text@ == self@,
    {
        self.raw.as_str()
    }
}

/// Kind of license: a closed enumeration.
#[derive(Clone, Copy, PartialEq, Eq, Structural, Hash, Debug)]
pub enum LicenseKind {
    Personal,
    Business,
}

/// Complete license data, suitable for being persisted; may be invalid.
///
/// The byte encoding of this record is part of the durable on-disk contract:
/// it must remain decodable under every future version of this layer.
#[derive(Clone, PartialEq, Eq, Hash, Debug)]
pub struct LicenseData {
    pub payload: LicensePayloadData,
    /// Signature bytes stored as text; its form (hexadecimal or base64)
    /// depends on the generation that produced the record.  This layer never
    /// validates the bytes it decodes to.
    pub signature: String,
}

/// Data of a license payload, suitable for being persisted; may be invalid.
#[derive(Clone, PartialEq, Eq, Hash, Debug)]
pub struct LicensePayloadData {
    /// License owner name.
    pub name: String,
    /// License owner email address.
    pub email: String,
    /// Kind of license.
    pub kind: LicenseKind,
    /// Unix timestamp (seconds since 1970-01-01 00:00:00).  `None` when the
    /// record was decoded from a generation that did not persist it.
    pub created_on: Option<u64>,
    /// Products included in this license.
    pub products: Vec<LicensedProductData>,
}

/// Data of a licensed product, suitable for being persisted; may be invalid.
#[derive(Clone, PartialEq, Eq, Hash, Debug)]
pub struct LicensedProductData {
    /// Unique product ID (uniqueness is enforced by the issuer, not here).
    pub id: String,
    /// Minimum licensed version.
    pub min_version: u32,
    /// Maximum licensed version (must be greater or equal than `min_version`).
    pub max_version: u32,
}

/// Mathematical model of a product record.
pub ghost struct ProductView {
    pub id: Seq<char>,
    pub min_version: u32,
    pub max_version: u32,
}

/// Mathematical model of a payload record.
pub ghost struct PayloadView {
    pub name: Seq<char>,
    pub email: Seq<char>,
    pub kind: LicenseKind,
    pub created_on: Option<u64>,
    pub products: Seq<ProductView>,
}

/// Mathematical model of a license record.
pub ghost struct LicenseDataView {
    pub payload: PayloadView,
    pub signature: Seq<char>,
}

impl View for LicensedProductData {
    type V = ProductView;

    open spec fn view(&self) -> ProductView {
        ProductView { id: self.id@, min_version: self.min_version, max_version: self.max_version }
    }
}

impl View for LicensePayloadData {
    type V = PayloadView;

    open spec fn view(&self) -> PayloadView {
        PayloadView {
            name: self.name@,
            email: self.email@,
            kind: self.kind,
            created_on: self.created_on,
            products: self.products@.map_values(|p: LicensedProductData| p@),
        }
    }
}

impl View for LicenseData {
    type V = LicenseDataView;

    open spec fn view(&self) -> LicenseDataView {
        LicenseDataView { payload: self.payload@, signature: self.signature@ }
    }
}

} // verus!
