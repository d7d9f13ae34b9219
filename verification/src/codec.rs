//! The codec between license records and textual tokens, for the current
//! generation: canonical v2 bytes wrapped in unpadded URL-safe base64.
//! Decoding of the legacy generation stands in [`crate::legacy`].

use vstd::prelude::*;
use crate::data::{LicenseData, LicenseDataView, LicenseKey};
use crate::msgpack::{v2_decode, v2_decoding, v2_encodable, v2_encode, v2_encoding};
use crate::transport::{b64url_decode, b64url_decoding, b64url_encode, b64url_encoding,
    is_b64url_char};

verus! {

/// Why a token failed to decode.
#[derive(Clone, Copy, PartialEq, Eq, Structural, Hash, Debug)]
pub enum DecodeError {
    /// The token text is not valid transport base64.
    MalformedToken,
    /// The transported bytes are not one structurally well-formed record.
    MalformedPayload,
}

/// What decoding yields for every token text: the record, or the first
/// failure of the two decode stages.
pub open spec fn from_key_spec(key: Seq<char>) -> Result<LicenseDataView, DecodeError> {
    match b64url_decoding(key) {
        None => Err(DecodeError::MalformedToken),
        Some(b) => match v2_decoding(b) {
            None => Err(DecodeError::MalformedPayload),
            Some(v) => Ok(v),
        },
    }
}

/// A record this layer can turn into a token: it fits the byte format's
/// headers and the transport text fits in memory.
pub open spec fn key_encodable(v: LicenseDataView) -> bool {
    &&& v2_encodable(v)
    &&& 4 * (v2_encoding(v).len() / 3) + 4 <= usize::MAX
}

impl LicenseData {
    /// Decodes a token: transport-decodes the text (`MalformedToken` when it
    /// is not unpadded URL-safe base64), then byte-decodes one record
    /// (`MalformedPayload` on structurally invalid bytes).  Validation rules
    /// are not run here; the decoded record may be semantically invalid.
    pub fn try_from_key(key: &LicenseKey) -> (r: Result<Self, DecodeError>)
        ensures
            match r {
                Ok(d) => from_key_spec(key@) == Ok::<LicenseDataView, DecodeError>(d@),
                Err(e) => from_key_spec(key@) == Err::<LicenseDataView, DecodeError>(e),
            },
    {
        let bytes = match b64url_decode(key.as_ref()) {
            Some(b) => b,
            None => {
                return Err(DecodeError::MalformedToken);
            },
        };
        match v2_decode(&bytes) {
            Some(d) => Ok(d),
            None => Err(DecodeError::MalformedPayload),
        }
    }

    /// Encodes this record as a token: canonical current-generation bytes,
    /// wrapped in unpadded URL-safe transport text.  The token decodes back
    /// to exactly this record.
    pub fn to_key(&self) -> (key: LicenseKey)
        requires
            key_encodable(self@),
        ensures
            key@ == b64url_encoding(v2_encoding(self@)),
            from_key_spec(key@) == Ok::<LicenseDataView, DecodeError>(self@),
            forall|k: int| 0 <= k < key@.len() ==> is_b64url_char(#[trigger] key@[k]),
    {
        let bytes = v2_encode(self);
        let text = b64url_encode(bytes.as_slice());
        proof {
            crate::msgpack::lemma_v2_round_trip(self@);
        }
        LicenseKey::new(text)
    }
}

} // verus!
