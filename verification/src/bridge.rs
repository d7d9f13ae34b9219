//! The domain bridge: fallible conversion between the untrusted persisted
//! record and the trusted license object, in both directions.
//!
//! Towards the domain, the full validation rules run first and the
//! signature text is transport-decoded to raw bytes.  When the record comes
//! from a generation that did not persist a creation timestamp, the bridge
//! substitutes the current wall-clock time — a deliberate compatibility
//! policy for legacy tokens, and the one environmental input of this layer.

use vstd::prelude::*;
use crate::data::{LicenseData, LicensePayloadData, LicensedProductData, ProductView};
use crate::domain::{License, LicensePayload, LicensedProduct};
use crate::transport::{b64url_decode, b64url_decoding, b64url_encode, b64url_encoding};
use crate::validate::{license_check, ValidationError};

verus! {

/// Why a record could not be turned into a trusted license object.
#[derive(Clone, Copy, PartialEq, Eq, Structural, Hash, Debug)]
pub enum ConvertError {
    /// A validation rule failed.
    Validation(ValidationError),
    /// The signature text cannot be transport-decoded.
    MalformedSignature,
}

/// Relies on `std::time::SystemTime::now` (read through
/// `Duration::as_secs`): the wall clock, as whole seconds since the Unix
/// epoch, or 0 should the clock stand before it.  Nothing is promised of
/// the value.
#[verifier::external_body]
fn now_secs() -> u64 {
    match std::time::SystemTime::now().duration_since(std::time::UNIX_EPOCH) {
        Ok(d) => d.as_secs(),
        Err(_) => 0,
    }
}

impl License {
    /// Validates a record and converts it into a trusted license object.
    /// Fails with the first broken validation rule, or with
    /// `MalformedSignature` when the signature text is not transport
    /// base64.  An absent creation timestamp is replaced by the clock; a
    /// persisted one is kept.
    pub fn try_from_data(data: LicenseData) -> (r: Result<License, ConvertError>)
        ensures
            match r {
                Ok(l) => {
                    &&& license_check(data@) is Ok
                    &&& b64url_decoding(data@.signature) == Some(l@.signature)
                    &&& l.wf()
                    &&& l@.payload.name == data@.payload.name
                    &&& l@.payload.email == data@.payload.email
                    &&& l@.payload.kind == data@.payload.kind
                    &&& l@.payload.products == data@.payload.products
                    &&& (data@.payload.created_on matches Some(t) ==> l@.payload.created_on == t)
                },
                Err(ConvertError::Validation(e)) => license_check(data@) == Err::<(), ValidationError>(e),
                Err(ConvertError::MalformedSignature) => license_check(data@) is Ok
                    && b64url_decoding(data@.signature) is None,
            },
    {
        if let Err(e) = data.validate() {
            return Err(ConvertError::Validation(e));
        }
        let signature = match b64url_decode(data.signature.as_str()) {
            Some(b) => b,
            None => {
                return Err(ConvertError::MalformedSignature);
            },
        };
        let created_on = match data.payload.created_on {
            Some(t) => t,
            None => now_secs(),
        };
        let ghost pv = data@.payload;
        let mut products: Vec<LicensedProduct> = Vec::new();
        let mut rest = data.payload.products;
        proof {
            assert(products@.map_values(|p: LicensedProduct| p@) + rest@.map_values(
                |d: LicensedProductData| d@,
            ) =~= pv.products);
        }
        while rest.len() > 0
            invariant
                products@.map_values(|p: LicensedProduct| p@) + rest@.map_values(
                    |d: LicensedProductData| d@,
                ) == pv.products,
            decreases rest.len(),
        {
            let ghost products0 = products@;
            let ghost rest0 = rest@;
            let q = rest.remove(0);
            products.push(
                LicensedProduct {
                    id: q.id,
                    min_version: q.min_version,
                    max_version: q.max_version,
                },
            );
            proof {
                assert(products@.map_values(|p: LicensedProduct| p@) + rest@.map_values(
                    |d: LicensedProductData| d@,
                ) =~= products0.map_values(|p: LicensedProduct| p@) + rest0.map_values(
                    |d: LicensedProductData| d@,
                ));
            }
        }
        proof {
            assert(rest@.map_values(|d: LicensedProductData| d@) =~= Seq::<ProductView>::empty());
            assert(products@.map_values(|p: LicensedProduct| p@) =~= pv.products);
        }
        let payload = LicensePayload {
            name: data.payload.name,
            email: data.payload.email,
            kind: data.payload.kind,
            created_on,
            products,
        };
        proof {
            assert(payload@.as_payload_view().name == pv.name);
            assert(crate::validate::payload_check(payload@.as_payload_view())
                == crate::validate::payload_check(pv));
        }
        Ok(License::new(payload, signature))
    }
}

impl LicenseData {
    /// Copies a trusted license object into a fresh record, encoding the
    /// signature bytes in the current generation's text form.  The result
    /// passes validation and its signature text decodes back to the same
    /// bytes.  The length bound keeps the transport text within memory.
    pub fn from_license(value: License) -> (r: LicenseData)
        requires
            value.wf(),
            4 * (value@.signature.len() / 3) + 4 <= usize::MAX,
        ensures
            r@.payload.name == value@.payload.name,
            r@.payload.email == value@.payload.email,
            r@.payload.kind == value@.payload.kind,
            r@.payload.created_on == Some(value@.payload.created_on),
            r@.payload.products == value@.payload.products,
            r@.signature == b64url_encoding(value@.signature),
            b64url_decoding(r@.signature) == Some(value@.signature),
            license_check(r@) is Ok,
    {
        let ghost lv = value@;
        let (payload, signature) = value.into_parts();
        let signature_text = b64url_encode(signature.as_slice());
        let mut products: Vec<LicensedProductData> = Vec::new();
        let mut rest = payload.products;
        proof {
            assert(products@.map_values(|d: LicensedProductData| d@) + rest@.map_values(
                |p: LicensedProduct| p@,
            ) =~= lv.payload.products);
        }
        while rest.len() > 0
            invariant
                products@.map_values(|d: LicensedProductData| d@) + rest@.map_values(
                    |p: LicensedProduct| p@,
                ) == lv.payload.products,
            decreases rest.len(),
        {
            let ghost products0 = products@;
            let ghost rest0 = rest@;
            let q = rest.remove(0);
            products.push(
                LicensedProductData {
                    id: q.id,
                    min_version: q.min_version,
                    max_version: q.max_version,
                },
            );
            proof {
                assert(products@.map_values(|d: LicensedProductData| d@) + rest@.map_values(
                    |p: LicensedProduct| p@,
                ) =~= products0.map_values(|d: LicensedProductData| d@) + rest0.map_values(
                    |p: LicensedProduct| p@,
                ));
            }
        }
        proof {
            assert(rest@.map_values(|p: LicensedProduct| p@) =~= Seq::<ProductView>::empty());
            assert(products@.map_values(|d: LicensedProductData| d@) =~= lv.payload.products);
        }
        let r = LicenseData {
            payload: LicensePayloadData {
                name: payload.name,
                email: payload.email,
                kind: payload.kind,
                created_on: Some(payload.created_on),
                products,
            },
            signature: signature_text,
        };
        proof {
            assert(crate::validate::payload_check(r@.payload) == crate::validate::payload_check(
                lv.payload.as_payload_view(),
            ));
        }
        r
    }
}

} // verus!
