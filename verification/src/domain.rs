//! The trusted in-memory license object: the already-validated form handed
//! to signature verification and enforcement.  Its constructor accepts a
//! validated payload plus signature bytes and does not re-validate them;
//! callers promise validity, which the bridge proves.

use vstd::prelude::*;
use crate::data::{LicenseKind, PayloadView, ProductView};
use crate::validate::payload_check;

verus! {

/// A licensed product of the trusted license object.
#[derive(Clone, PartialEq, Eq, Hash, Debug)]
pub struct LicensedProduct {
    /// Unique product ID.
    pub id: String,
    /// Minimum licensed version.
    pub min_version: u32,
    /// Maximum licensed version (greater or equal than `min_version`).
    pub max_version: u32,
}

impl View for LicensedProduct {
    type V = ProductView;

    open spec fn view(&self) -> ProductView {
        ProductView { id: self.id@, min_version: self.min_version, max_version: self.max_version }
    }
}

impl LicensedProduct {
    /// The product's ID.
    pub fn id(&self) -> (r: &str)
        ensures
            r@ == self@.id,
    {
        self.id.as_str()
    }

    /// The licensed version range.
    pub fn version_range(&self) -> (r: core::ops::RangeInclusive<u32>)
        ensures
            r@.start == self@.min_version,
            r@.end == self@.max_version,
    {
        core::ops::RangeInclusive::new(self.min_version, self.max_version)
    }
}

/// Mathematical model of a trusted payload: as the persisted payload, but
/// the creation timestamp is always present.
pub ghost struct LicensePayloadView {
    pub name: Seq<char>,
    pub email: Seq<char>,
    pub kind: LicenseKind,
    pub created_on: u64,
    pub products: Seq<ProductView>,
}

impl LicensePayloadView {
    /// The persisted form of this payload.
    pub open spec fn as_payload_view(self) -> PayloadView {
        PayloadView {
            name: self.name,
            email: self.email,
            kind: self.kind,
            created_on: Some(self.created_on),
            products: self.products,
        }
    }

    /// The payload passes every validation rule.
    pub open spec fn valid(self) -> bool {
        payload_check(self.as_payload_view()) is Ok
    }
}

/// The payload of a trusted license object.
#[derive(Clone, PartialEq, Eq, Hash, Debug)]
pub struct LicensePayload {
    /// License owner name.
    pub name: String,
    /// License owner email address.
    pub email: String,
    /// Kind of license.
    pub kind: LicenseKind,
    /// Unix timestamp (seconds since 1970-01-01 00:00:00).
    pub created_on: u64,
    /// Products included in this license.
    pub products: Vec<LicensedProduct>,
}

impl View for LicensePayload {
    type V = LicensePayloadView;

    open spec fn view(&self) -> LicensePayloadView {
        LicensePayloadView {
            name: self.name@,
            email: self.email@,
            kind: self.kind,
            created_on: self.created_on,
            products: self.products@.map_values(|p: LicensedProduct| p@),
        }
    }
}

impl LicensePayload {
    /// The owner's name.
    pub fn name(&self) -> (r: &str)
        ensures
            r@ == self@.name,
    {
        self.name.as_str()
    }

    /// The owner's email address.
    pub fn email(&self) -> (r: &str)
        ensures
            r@ == self@.email,
    {
        self.email.as_str()
    }

    /// The license kind.
    pub fn kind(&self) -> (r: LicenseKind)
        ensures
            r == self@.kind,
    {
        self.kind
    }

    /// The creation timestamp.
    pub fn created_on(&self) -> (r: u64)
        ensures
            r == self@.created_on,
    {
        self.created_on
    }

    /// The licensed products.
    pub fn products(&self) -> (r: &Vec<LicensedProduct>)
        ensures
            r@.map_values(|p: LicensedProduct| p@) == self@.products,
    {
        &self.products
    }
}

/// Mathematical model of a trusted license object.
pub ghost struct LicenseView {
    pub payload: LicensePayloadView,
    pub signature: Seq<u8>,
}

/// The trusted license object: a validated payload and raw signature bytes.
/// Whether the signature is cryptographically valid is decided elsewhere.
#[derive(Clone, PartialEq, Eq, Hash, Debug)]
pub struct License {
    pub(crate) payload: LicensePayload,
    pub(crate) signature: Vec<u8>,
}

impl View for License {
    type V = LicenseView;

    closed spec fn view(&self) -> LicenseView {
        LicenseView { payload: self.payload@, signature: self.signature@ }
    }
}

impl License {
    /// A license object is well-formed when its payload passes validation
    /// and its signature is non-empty.  Every constructed license is.
    pub open spec fn wf(self) -> bool {
        self@.payload.valid() && self@.signature.len() > 0
    }

    /// Builds a license from an already-validated payload and signature
    /// bytes, without re-validating them: the caller promises validity.
    pub fn new(payload: LicensePayload, signature: Vec<u8>) -> (r: Self)
        requires
            payload@.valid(),
            signature@.len() > 0,
        ensures
            r@.payload == payload@,
            r@.signature == signature@,
            r.wf(),
    {
        Self { payload, signature }
    }

    /// The validated payload.
    pub fn payload(&self) -> (r: &LicensePayload)
        ensures
            r@ == self@.payload,
    {
        &self.payload
    }

    /// The raw signature bytes.
    pub fn signature(&self) -> (r: &[u8])
        ensures
            r@ == self@.signature,
    {
        self.signature.as_slice()
    }

    /// Takes the license apart into its payload and signature bytes.
    pub(crate) fn into_parts(self) -> (r: (LicensePayload, Vec<u8>))
        ensures
            r.0@ == self@.payload,
            r.1@ == self@.signature,
    {
        (self.payload, self.signature)
    }
}

} // verus!
