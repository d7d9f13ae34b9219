//! The legacy (v1) generation, for decoding only: a self-describing
//! structured-text byte encoding (JSON), carried in standard-alphabet
//! base64 with padding, the signature text in hexadecimal.  Tokens of this
//! generation must keep decoding forever; new tokens are never issued in it.
//!
//! The decoder accepts the named fields in any order, whitespace between
//! tokens, and the simple string escapes together with `\u00XX` for ASCII;
//! it rejects duplicate, unknown or missing fields.  The legacy payload has
//! no creation timestamp: a decoded record carries none, and the domain
//! bridge substitutes the clock.

use vstd::prelude::*;
use vstd::utf8::{decode_utf8, valid_utf8};
use crate::data::{LicenseData, LicenseDataView, LicenseKey, LicenseKind, LicensePayloadData,
    LicensedProductData, PayloadView, ProductView};
use crate::codec::DecodeError;
use crate::msgpack::{key_email, key_email_vec, key_id, key_id_vec, key_kind, key_kind_vec,
    key_max_version, key_max_version_vec, key_min_version, key_min_version_vec, key_name,
    key_name_vec, key_payload, key_payload_vec, key_products, key_products_vec, key_signature,
    key_signature_vec, kind_business_vec, kind_bytes, kind_personal_vec, oview_str};
use crate::transport::{b64std_decode, b64std_decoding, string_from_utf8};

verus! {

/// JSON whitespace.
pub open spec fn is_ws(b: u8) -> bool {
    b == 0x20 || b == 0x09 || b == 0x0a || b == 0x0d
}

/// Skips whitespace.
pub open spec fn jp_ws(s: Seq<u8>) -> Seq<u8>
    decreases s.len(),
{
    if s.len() > 0 && is_ws(s[0]) {
        jp_ws(s.skip(1))
    } else {
        s
    }
}

/// Value of a hexadecimal digit.
pub open spec fn hex_val(b: u8) -> Option<u8> {
    if 0x30 <= b && b <= 0x39 {
        Some((b - 0x30) as u8)
    } else if 0x61 <= b && b <= 0x66 {
        Some((b - 0x61 + 10) as u8)
    } else if 0x41 <= b && b <= 0x46 {
        Some((b - 0x41 + 10) as u8)
    } else {
        None
    }
}

/// Reads string content after the opening quote: raw bytes, the simple
/// escapes, and `\u00XX` up to ASCII; ends at the closing quote.
pub open spec fn jp_string_content(s: Seq<u8>, acc: Seq<u8>) -> Option<(Seq<u8>, Seq<u8>)>
    decreases s.len(),
{
    if s.len() == 0 {
        None
    } else if s[0] == 0x22 {
        Some((acc, s.skip(1)))
    } else if s[0] == 0x5c {
        if s.len() < 2 {
            None
        } else {
            let e = s[1];
            if e == 0x22 {
                jp_string_content(s.skip(2), acc.push(0x22))
            } else if e == 0x5c {
                jp_string_content(s.skip(2), acc.push(0x5c))
            } else if e == 0x2f {
                jp_string_content(s.skip(2), acc.push(0x2f))
            } else if e == 0x62 {
                jp_string_content(s.skip(2), acc.push(0x08))
            } else if e == 0x66 {
                jp_string_content(s.skip(2), acc.push(0x0c))
            } else if e == 0x6e {
                jp_string_content(s.skip(2), acc.push(0x0a))
            } else if e == 0x72 {
                jp_string_content(s.skip(2), acc.push(0x0d))
            } else if e == 0x74 {
                jp_string_content(s.skip(2), acc.push(0x09))
            } else if e == 0x75 {
                if s.len() < 6 {
                    None
                } else {
                    match (hex_val(s[2]), hex_val(s[3]), hex_val(s[4]), hex_val(s[5])) {
                        (Some(h1), Some(h2), Some(h3), Some(h4)) => {
                            let v = h1 * 4096 + h2 * 256 + h3 * 16 + h4;
                            if v <= 0x7f {
                                jp_string_content(s.skip(6), acc.push(v as u8))
                            } else {
                                None
                            }
                        },
                        _ => None,
                    }
                }
            } else {
                None
            }
        }
    } else {
        jp_string_content(s.skip(1), acc.push(s[0]))
    }
}

/// Reads a string value: quoted content that must be valid UTF-8.
pub open spec fn jp_string(s: Seq<u8>) -> Option<(Seq<char>, Seq<u8>)> {
    if s.len() > 0 && s[0] == 0x22 {
        match jp_string_content(s.skip(1), Seq::empty()) {
            Some((b, r)) => if valid_utf8(b) {
                Some((decode_utf8(b), r))
            } else {
                None
            },
            None => None,
        }
    } else {
        None
    }
}

/// Reads a quoted name (a field or kind name), as its unescaped bytes.
pub open spec fn jp_key(s: Seq<u8>) -> Option<(Seq<u8>, Seq<u8>)> {
    if s.len() > 0 && s[0] == 0x22 {
        jp_string_content(s.skip(1), Seq::empty())
    } else {
        None
    }
}

pub open spec fn is_digit(b: u8) -> bool {
    0x30 <= b && b <= 0x39
}

/// Accumulates decimal digits onto `acc`; fails past `u64::MAX`.
pub open spec fn jp_digits(s: Seq<u8>, acc: int) -> Option<(u64, Seq<u8>)>
    decreases s.len(),
{
    if s.len() > 0 && is_digit(s[0]) {
        let acc2 = acc * 10 + (s[0] - 0x30);
        if acc2 > u64::MAX {
            None
        } else {
            jp_digits(s.skip(1), acc2)
        }
    } else {
        Some((acc as u64, s))
    }
}

/// Reads an unsigned JSON number: digits, no leading zero.
pub open spec fn jp_number(s: Seq<u8>) -> Option<(u64, Seq<u8>)> {
    if s.len() == 0 || !is_digit(s[0]) {
        None
    } else if s[0] == 0x30 {
        if s.len() > 1 && is_digit(s[1]) {
            None
        } else {
            Some((0, s.skip(1)))
        }
    } else {
        jp_digits(s, 0)
    }
}

/// Reads a number that must fit a version field.
pub open spec fn jp_version(s: Seq<u8>) -> Option<(u32, Seq<u8>)> {
    match jp_number(s) {
        Some((x, r)) => if x <= u32::MAX {
            Some((x as u32, r))
        } else {
            None
        },
        None => None,
    }
}

/// After a parsed field, expects `,` and the next field or `}`; `n` bounds
/// the remaining fields.
pub open spec fn jp_product_fields(
    s: Seq<u8>,
    n: int,
    id: Option<Seq<char>>,
    mn: Option<u32>,
    mx: Option<u32>,
) -> Option<(ProductView, Seq<u8>)>
    decreases n, 0int,
{
    if n <= 0 {
        None
    } else {
        match jp_key(jp_ws(s)) {
            None => None,
            Some((k, r)) => {
                let r1 = jp_ws(r);
                if r1.len() == 0 || r1[0] != 0x3a {
                    None
                } else {
                    let r2 = jp_ws(r1.skip(1));
                    if k == key_id() {
                        if id is Some {
                            None
                        } else {
                            match jp_string(r2) {
                                None => None,
                                Some((v, r3)) => jp_product_sep(r3, n - 1, Some(v), mn, mx),
                            }
                        }
                    } else if k == key_min_version() {
                        if mn is Some {
                            None
                        } else {
                            match jp_version(r2) {
                                None => None,
                                Some((v, r3)) => jp_product_sep(r3, n - 1, id, Some(v), mx),
                            }
                        }
                    } else if k == key_max_version() {
                        if mx is Some {
                            None
                        } else {
                            match jp_version(r2) {
                                None => None,
                                Some((v, r3)) => jp_product_sep(r3, n - 1, id, mn, Some(v)),
                            }
                        }
                    } else {
                        None
                    }
                }
            },
        }
    }
}

/// After a product field: `,` continues, `}` closes when every field came.
pub open spec fn jp_product_sep(
    s: Seq<u8>,
    n: int,
    id: Option<Seq<char>>,
    mn: Option<u32>,
    mx: Option<u32>,
) -> Option<(ProductView, Seq<u8>)>
    decreases n, 1int,
{
    let r = jp_ws(s);
    if r.len() == 0 {
        None
    } else if r[0] == 0x2c {
        jp_product_fields(r.skip(1), n, id, mn, mx)
    } else if r[0] == 0x7d {
        match (id, mn, mx) {
            (Some(i), Some(a), Some(b)) => Some(
                (ProductView { id: i, min_version: a, max_version: b }, r.skip(1)),
            ),
            _ => None,
        }
    } else {
        None
    }
}

/// Reads one product object.
pub open spec fn jp_product(s: Seq<u8>, n: int) -> Option<(ProductView, Seq<u8>)> {
    let r = jp_ws(s);
    if r.len() > 0 && r[0] == 0x7b {
        jp_product_fields(r.skip(1), n, None, None, None)
    } else {
        None
    }
}

/// Reads the items of a product array after one product was read.
pub open spec fn jp_products_sep(s: Seq<u8>, n: int) -> Option<(Seq<ProductView>, Seq<u8>)>
    decreases n,
{
    if n <= 0 {
        None
    } else {
        let r = jp_ws(s);
        if r.len() == 0 {
            None
        } else if r[0] == 0x5d {
            Some((Seq::empty(), r.skip(1)))
        } else if r[0] == 0x2c {
            match jp_product(r.skip(1), n - 1) {
                None => None,
                Some((p, r2)) => match jp_products_sep(r2, n - 1) {
                    None => None,
                    Some((ps, r3)) => Some((seq![p] + ps, r3)),
                },
            }
        } else {
            None
        }
    }
}

/// Reads a product array.
pub open spec fn jp_products(s: Seq<u8>, n: int) -> Option<(Seq<ProductView>, Seq<u8>)> {
    let r = jp_ws(s);
    if r.len() > 0 && r[0] == 0x5b {
        let r1 = jp_ws(r.skip(1));
        if r1.len() > 0 && r1[0] == 0x5d {
            Some((Seq::empty(), r1.skip(1)))
        } else {
            match jp_product(r.skip(1), n) {
                None => None,
                Some((p, r2)) => match jp_products_sep(r2, n) {
                    None => None,
                    Some((ps, r3)) => Some((seq![p] + ps, r3)),
                },
            }
        }
    } else {
        None
    }
}

/// Reads the fields of the payload object.  The legacy payload has no
/// creation timestamp field.
pub open spec fn jp_payload_fields(
    s: Seq<u8>,
    n: int,
    name: Option<Seq<char>>,
    email: Option<Seq<char>>,
    kind: Option<LicenseKind>,
    products: Option<Seq<ProductView>>,
) -> Option<(PayloadView, Seq<u8>)>
    decreases n, 0int,
{
    if n <= 0 {
        None
    } else {
        match jp_key(jp_ws(s)) {
            None => None,
            Some((k, r)) => {
                let r1 = jp_ws(r);
                if r1.len() == 0 || r1[0] != 0x3a {
                    None
                } else {
                    let r2 = jp_ws(r1.skip(1));
                    if k == key_name() {
                        if name is Some {
                            None
                        } else {
                            match jp_string(r2) {
                                None => None,
                                Some((v, r3)) => jp_payload_sep(r3, n - 1, Some(v), email, kind,
                                    products),
                            }
                        }
                    } else if k == key_email() {
                        if email is Some {
                            None
                        } else {
                            match jp_string(r2) {
                                None => None,
                                Some((v, r3)) => jp_payload_sep(r3, n - 1, name, Some(v), kind,
                                    products),
                            }
                        }
                    } else if k == key_kind() {
                        if kind is Some {
                            None
                        } else {
                            match jp_key(r2) {
                                None => None,
                                Some((v, r3)) => if v == kind_bytes(LicenseKind::Personal) {
                                    jp_payload_sep(r3, n - 1, name, email,
                                        Some(LicenseKind::Personal), products)
                                } else if v == kind_bytes(LicenseKind::Business) {
                                    jp_payload_sep(r3, n - 1, name, email,
                                        Some(LicenseKind::Business), products)
                                } else {
                                    None
                                },
                            }
                        }
                    } else if k == key_products() {
                        if products is Some {
                            None
                        } else {
                            match jp_products(r2, n - 1) {
                                None => None,
                                Some((v, r3)) => jp_payload_sep(r3, n - 1, name, email, kind,
                                    Some(v)),
                            }
                        }
                    } else {
                        None
                    }
                }
            },
        }
    }
}

/// After a payload field: `,` continues, `}` closes when every field came.
pub open spec fn jp_payload_sep(
    s: Seq<u8>,
    n: int,
    name: Option<Seq<char>>,
    email: Option<Seq<char>>,
    kind: Option<LicenseKind>,
    products: Option<Seq<ProductView>>,
) -> Option<(PayloadView, Seq<u8>)>
    decreases n, 1int,
{
    let r = jp_ws(s);
    if r.len() == 0 {
        None
    } else if r[0] == 0x2c {
        jp_payload_fields(r.skip(1), n, name, email, kind, products)
    } else if r[0] == 0x7d {
        match (name, email, kind, products) {
            (Some(nm), Some(em), Some(kd), Some(ps)) => Some(
                (
                    PayloadView { name: nm, email: em, kind: kd, created_on: None, products: ps },
                    r.skip(1),
                ),
            ),
            _ => None,
        }
    } else {
        None
    }
}

/// Reads the payload object.
pub open spec fn jp_payload(s: Seq<u8>, n: int) -> Option<(PayloadView, Seq<u8>)> {
    let r = jp_ws(s);
    if r.len() > 0 && r[0] == 0x7b {
        jp_payload_fields(r.skip(1), n, None, None, None, None)
    } else {
        None
    }
}

/// Reads the fields of the top-level license object.
pub open spec fn jp_license_fields(
    s: Seq<u8>,
    n: int,
    payload: Option<PayloadView>,
    signature: Option<Seq<char>>,
) -> Option<(LicenseDataView, Seq<u8>)>
    decreases n, 0int,
{
    if n <= 0 {
        None
    } else {
        match jp_key(jp_ws(s)) {
            None => None,
            Some((k, r)) => {
                let r1 = jp_ws(r);
                if r1.len() == 0 || r1[0] != 0x3a {
                    None
                } else {
                    let r2 = jp_ws(r1.skip(1));
                    if k == key_payload() {
                        if payload is Some {
                            None
                        } else {
                            match jp_payload(r2, n - 1) {
                                None => None,
                                Some((v, r3)) => jp_license_sep(r3, n - 1, Some(v), signature),
                            }
                        }
                    } else if k == key_signature() {
                        if signature is Some {
                            None
                        } else {
                            match jp_string(r2) {
                                None => None,
                                Some((v, r3)) => jp_license_sep(r3, n - 1, payload, Some(v)),
                            }
                        }
                    } else {
                        None
                    }
                }
            },
        }
    }
}

/// After a license field: `,` continues, `}` closes when both fields came.
pub open spec fn jp_license_sep(
    s: Seq<u8>,
    n: int,
    payload: Option<PayloadView>,
    signature: Option<Seq<char>>,
) -> Option<(LicenseDataView, Seq<u8>)>
    decreases n, 1int,
{
    let r = jp_ws(s);
    if r.len() == 0 {
        None
    } else if r[0] == 0x2c {
        jp_license_fields(r.skip(1), n, payload, signature)
    } else if r[0] == 0x7d {
        match (payload, signature) {
            (Some(p), Some(sig)) => Some(
                (LicenseDataView { payload: p, signature: sig }, r.skip(1)),
            ),
            _ => None,
        }
    } else {
        None
    }
}

/// What the legacy byte decoder yields on any input: the record, if the
/// bytes are one well-formed legacy license object and nothing more.
pub open spec fn v1_decoding(b: Seq<u8>) -> Option<LicenseDataView> {
    let r = jp_ws(b);
    if r.len() > 0 && r[0] == 0x7b {
        match jp_license_fields(r.skip(1), b.len() as int, None, None) {
            None => None,
            Some((v, r2)) => if jp_ws(r2).len() == 0 {
                Some(v)
            } else {
                None
            },
        }
    } else {
        None
    }
}

/// What decoding a legacy token yields, for every token text.
pub open spec fn from_key_legacy_spec(key: Seq<char>) -> Result<LicenseDataView, DecodeError> {
    match b64std_decoding(key) {
        None => Err(DecodeError::MalformedToken),
        Some(b) => match v1_decoding(b) {
            None => Err(DecodeError::MalformedPayload),
            Some(v) => Ok(v),
        },
    }
}


// ---------------------------------------------------------------------------
// The executable legacy decoder.  Each function mirrors its spec twin,
// reading at index `i` what the twin reads from the remaining bytes.
// ---------------------------------------------------------------------------
fn vec_eq(a: &Vec<u8>, b: &Vec<u8>) -> (r: bool)
    ensures
        r == (a@ == b@),
{
    if a.len() != b.len() {
        proof {
            assert(a@.len() != b@.len());
        }
        return false;
    }
    let mut k: usize = 0;
    while k < a.len()
        invariant
            a@.len() == b@.len(),
            k <= a@.len(),
            forall|m: int| 0 <= m < k ==> a@[m] == b@[m],
        decreases a@.len() - k,
    {
        if a[k] != b[k] {
            return false;
        }
        k += 1;
    }
    proof {
        assert(a@ =~= b@);
    }
    true
}

fn e_ws(s: &Vec<u8>, i: usize) -> (j: usize)
    requires
        i <= s@.len(),
    ensures
        i <= j <= s@.len(),
        jp_ws(s@.skip(i as int)) == s@.skip(j as int),
{
    let mut j = i;
    while j < s.len()
        invariant
            i <= j <= s@.len(),
            jp_ws(s@.skip(i as int)) == jp_ws(s@.skip(j as int)),
        decreases s@.len() - j,
    {
        let c = s[j];
        proof {
            assert(s@.skip(j as int)[0] == s@[j as int]);
        }
        if c == 0x20 || c == 0x09 || c == 0x0a || c == 0x0d {
            proof {
                assert(s@.skip(j as int).skip(1) =~= s@.skip(j + 1));
            }
            j += 1;
        } else {
            return j;
        }
    }
    proof {
        assert(s@.skip(j as int).len() == 0);
    }
    j
}

fn e_hex(b: u8) -> (r: Option<u8>)
    ensures
        r == hex_val(b),
{
    if 0x30 <= b && b <= 0x39 {
        Some(b - 0x30)
    } else if 0x61 <= b && b <= 0x66 {
        Some(b - 0x61 + 10)
    } else if 0x41 <= b && b <= 0x46 {
        Some(b - 0x41 + 10)
    } else {
        None
    }
}

fn e_string_content(s: &Vec<u8>, i: usize) -> (r: Option<(Vec<u8>, usize)>)
    requires
        i <= s@.len(),
    ensures
        match r {
            Some((b, j)) => i <= j <= s@.len() && jp_string_content(
                s@.skip(i as int),
                Seq::empty(),
            ) == Some((b@, s@.skip(j as int))),
            None => jp_string_content(s@.skip(i as int), Seq::empty()) is None,
        },
{
    let mut acc: Vec<u8> = Vec::new();
    let mut j = i;
    proof {
        assert(acc@ =~= Seq::<u8>::empty());
    }
    while j < s.len()
        invariant
            i <= j <= s@.len(),
            jp_string_content(s@.skip(i as int), Seq::empty()) == jp_string_content(
                s@.skip(j as int),
                acc@,
            ),
        decreases s@.len() - j,
    {
        let c = s[j];
        proof {
            assert(s@.skip(j as int)[0] == s@[j as int]);
        }
        if c == 0x22 {
            proof {
                assert(s@.skip(j as int).skip(1) =~= s@.skip(j + 1));
            }
            return Some((acc, j + 1));
        }
        if c == 0x5c {
            if s.len() - j < 2 {
                proof {
                    assert(s@.skip(j as int).len() < 2);
                }
                return None;
            }
            let e = s[j + 1];
            proof {
                assert(s@.skip(j as int)[1] == s@[j + 1]);
                assert(s@.skip(j as int).skip(2) =~= s@.skip(j + 2));
            }
            if e == 0x22 {
                acc.push(0x22);
                j += 2;
            } else if e == 0x5c {
                acc.push(0x5c);
                j += 2;
            } else if e == 0x2f {
                acc.push(0x2f);
                j += 2;
            } else if e == 0x62 {
                acc.push(0x08);
                j += 2;
            } else if e == 0x66 {
                acc.push(0x0c);
                j += 2;
            } else if e == 0x6e {
                acc.push(0x0a);
                j += 2;
            } else if e == 0x72 {
                acc.push(0x0d);
                j += 2;
            } else if e == 0x74 {
                acc.push(0x09);
                j += 2;
            } else if e == 0x75 {
                if s.len() - j < 6 {
                    proof {
                        assert(s@.skip(j as int).len() < 6);
                    }
                    return None;
                }
                proof {
                    assert(s@.skip(j as int)[2] == s@[j + 2]);
                    assert(s@.skip(j as int)[3] == s@[j + 3]);
                    assert(s@.skip(j as int)[4] == s@[j + 4]);
                    assert(s@.skip(j as int)[5] == s@[j + 5]);
                    assert(s@.skip(j as int).skip(6) =~= s@.skip(j + 6));
                }
                let h1 = match e_hex(s[j + 2]) {
                    Some(h) => h,
                    None => {
                        return None;
                    },
                };
                let h2 = match e_hex(s[j + 3]) {
                    Some(h) => h,
                    None => {
                        return None;
                    },
                };
                let h3 = match e_hex(s[j + 4]) {
                    Some(h) => h,
                    None => {
                        return None;
                    },
                };
                let h4 = match e_hex(s[j + 5]) {
                    Some(h) => h,
                    None => {
                        return None;
                    },
                };
                let v: u32 = (h1 as u32) * 4096 + (h2 as u32) * 256 + (h3 as u32) * 16 + (
                h4 as u32);
                if v <= 0x7f {
                    acc.push(v as u8);
                    j += 6;
                } else {
                    return None;
                }
            } else {
                return None;
            }
        } else {
            proof {
                assert(s@.skip(j as int).skip(1) =~= s@.skip(j + 1));
            }
            acc.push(c);
            j += 1;
        }
    }
    proof {
        assert(s@.skip(j as int).len() == 0);
    }
    None
}

fn e_string(s: &Vec<u8>, i: usize) -> (r: Option<(String, usize)>)
    requires
        i <= s@.len(),
    ensures
        match r {
            Some((t, j)) => i <= j <= s@.len() && jp_string(s@.skip(i as int)) == Some(
                (t@, s@.skip(j as int)),
            ),
            None => jp_string(s@.skip(i as int)) is None,
        },
{
    if i >= s.len() {
        return None;
    }
    proof {
        assert(s@.skip(i as int)[0] == s@[i as int]);
    }
    if s[i] != 0x22 {
        return None;
    }
    proof {
        assert(s@.skip(i as int).skip(1) =~= s@.skip(i + 1));
    }
    match e_string_content(s, i + 1) {
        None => None,
        Some((b, j)) => match string_from_utf8(b) {
            Some(t) => Some((t, j)),
            None => None,
        },
    }
}

fn e_key(s: &Vec<u8>, i: usize) -> (r: Option<(Vec<u8>, usize)>)
    requires
        i <= s@.len(),
    ensures
        match r {
            Some((b, j)) => i <= j <= s@.len() && jp_key(s@.skip(i as int)) == Some(
                (b@, s@.skip(j as int)),
            ),
            None => jp_key(s@.skip(i as int)) is None,
        },
{
    if i >= s.len() {
        return None;
    }
    proof {
        assert(s@.skip(i as int)[0] == s@[i as int]);
    }
    if s[i] != 0x22 {
        return None;
    }
    proof {
        assert(s@.skip(i as int).skip(1) =~= s@.skip(i + 1));
    }
    e_string_content(s, i + 1)
}

fn e_number(s: &Vec<u8>, i: usize) -> (r: Option<(u64, usize)>)
    requires
        i <= s@.len(),
    ensures
        match r {
            Some((x, j)) => i <= j <= s@.len() && jp_number(s@.skip(i as int)) == Some(
                (x, s@.skip(j as int)),
            ),
            None => jp_number(s@.skip(i as int)) is None,
        },
{
    if i >= s.len() {
        return None;
    }
    proof {
        assert(s@.skip(i as int)[0] == s@[i as int]);
    }
    if !(0x30 <= s[i] && s[i] <= 0x39) {
        return None;
    }
    if s[i] == 0x30 {
        if i + 1 < s.len() {
            proof {
                assert(s@.skip(i as int)[1] == s@[i + 1]);
            }
            if 0x30 <= s[i + 1] && s[i + 1] <= 0x39 {
                return None;
            }
        }
        proof {
            assert(s@.skip(i as int).skip(1) =~= s@.skip(i + 1));
        }
        return Some((0, i + 1));
    }
    let mut acc: u64 = 0;
    let mut j = i;
    proof {
        assert(jp_number(s@.skip(i as int)) == jp_digits(s@.skip(i as int), 0));
    }
    while j < s.len()
        invariant
            i <= j <= s@.len(),
            jp_number(s@.skip(i as int)) == jp_digits(s@.skip(i as int), 0),
            jp_digits(s@.skip(i as int), 0) == jp_digits(s@.skip(j as int), acc as int),
        decreases s@.len() - j,
    {
        let c = s[j];
        proof {
            assert(s@.skip(j as int)[0] == s@[j as int]);
        }
        if !(0x30 <= c && c <= 0x39) {
            return Some((acc, j));
        }
        let d = (c - 0x30) as u64;
        let m = match acc.checked_mul(10) {
            Some(m) => m,
            None => {
                return None;
            },
        };
        let a2 = match m.checked_add(d) {
            Some(a) => a,
            None => {
                return None;
            },
        };
        proof {
            assert(s@.skip(j as int).skip(1) =~= s@.skip(j + 1));
        }
        acc = a2;
        j += 1;
    }
    Some((acc, j))
}

fn e_version(s: &Vec<u8>, i: usize) -> (r: Option<(u32, usize)>)
    requires
        i <= s@.len(),
    ensures
        match r {
            Some((x, j)) => i <= j <= s@.len() && jp_version(s@.skip(i as int)) == Some(
                (x, s@.skip(j as int)),
            ),
            None => jp_version(s@.skip(i as int)) is None,
        },
{
    match e_number(s, i) {
        None => None,
        Some((x, j)) => if x <= (u32::MAX as u64) {
            Some((x as u32, j))
        } else {
            None
        },
    }
}

fn e_product_fields(
    s: &Vec<u8>,
    i: usize,
    n: usize,
    id: Option<String>,
    mn: Option<u32>,
    mx: Option<u32>,
) -> (r: Option<(LicensedProductData, usize)>)
    requires
        i <= s@.len(),
    ensures
        match r {
            Some((p, j)) => i <= j <= s@.len() && jp_product_fields(
                s@.skip(i as int),
                n as int,
                oview_str(id),
                mn,
                mx,
            ) == Some((p@, s@.skip(j as int))),
            None => jp_product_fields(s@.skip(i as int), n as int, oview_str(id), mn, mx) is None,
        },
    decreases n, 0int,
{
    if n == 0 {
        return None;
    }
    let j1 = e_ws(s, i);
    match e_key(s, j1) {
        None => None,
        Some((kb, j2)) => {
            let j3 = e_ws(s, j2);
            if j3 >= s.len() {
                return None;
            }
            proof {
                assert(s@.skip(j3 as int)[0] == s@[j3 as int]);
            }
            if s[j3] != 0x3a {
                return None;
            }
            proof {
                assert(s@.skip(j3 as int).skip(1) =~= s@.skip(j3 + 1));
            }
            let j4 = e_ws(s, j3 + 1);
            let k1 = key_id_vec();
            if vec_eq(&kb, &k1) {
                if id.is_some() {
                    return None;
                }
                match e_string(s, j4) {
                    None => None,
                    Some((v, j5)) => e_product_sep(s, j5, n - 1, Some(v), mn, mx),
                }
            } else {
                let k2 = key_min_version_vec();
                if vec_eq(&kb, &k2) {
                    if mn.is_some() {
                        return None;
                    }
                    match e_version(s, j4) {
                        None => None,
                        Some((v, j5)) => e_product_sep(s, j5, n - 1, id, Some(v), mx),
                    }
                } else {
                    let k3 = key_max_version_vec();
                    if vec_eq(&kb, &k3) {
                        if mx.is_some() {
                            return None;
                        }
                        match e_version(s, j4) {
                            None => None,
                            Some((v, j5)) => e_product_sep(s, j5, n - 1, id, mn, Some(v)),
                        }
                    } else {
                        None
                    }
                }
            }
        },
    }
}

fn e_product_sep(
    s: &Vec<u8>,
    i: usize,
    n: usize,
    id: Option<String>,
    mn: Option<u32>,
    mx: Option<u32>,
) -> (r: Option<(LicensedProductData, usize)>)
    requires
        i <= s@.len(),
    ensures
        match r {
            Some((p, j)) => i <= j <= s@.len() && jp_product_sep(
                s@.skip(i as int),
                n as int,
                oview_str(id),
                mn,
                mx,
            ) == Some((p@, s@.skip(j as int))),
            None => jp_product_sep(s@.skip(i as int), n as int, oview_str(id), mn, mx) is None,
        },
    decreases n, 1int,
{
    let j1 = e_ws(s, i);
    if j1 >= s.len() {
        return None;
    }
    proof {
        assert(s@.skip(j1 as int)[0] == s@[j1 as int]);
        assert(s@.skip(j1 as int).skip(1) =~= s@.skip(j1 + 1));
    }
    if s[j1] == 0x2c {
        e_product_fields(s, j1 + 1, n, id, mn, mx)
    } else if s[j1] == 0x7d {
        match (id, mn, mx) {
            (Some(idv), Some(a), Some(b)) => Some(
                (LicensedProductData { id: idv, min_version: a, max_version: b }, j1 + 1),
            ),
            _ => None,
        }
    } else {
        None
    }
}

fn e_product(s: &Vec<u8>, i: usize, n: usize) -> (r: Option<(LicensedProductData, usize)>)
    requires
        i <= s@.len(),
    ensures
        match r {
            Some((p, j)) => i <= j <= s@.len() && jp_product(s@.skip(i as int), n as int) == Some(
                (p@, s@.skip(j as int)),
            ),
            None => jp_product(s@.skip(i as int), n as int) is None,
        },
{
    let j1 = e_ws(s, i);
    if j1 >= s.len() {
        return None;
    }
    proof {
        assert(s@.skip(j1 as int)[0] == s@[j1 as int]);
        assert(s@.skip(j1 as int).skip(1) =~= s@.skip(j1 + 1));
    }
    if s[j1] != 0x7b {
        return None;
    }
    e_product_fields(s, j1 + 1, n, None, None, None)
}

fn e_products_sep(s: &Vec<u8>, i: usize, n: usize) -> (r: Option<(
    Vec<LicensedProductData>,
    usize,
)>)
    requires
        i <= s@.len(),
    ensures
        match r {
            Some((ps, j)) => i <= j <= s@.len() && jp_products_sep(s@.skip(i as int), n as int)
                == Some((ps@.map_values(|q: LicensedProductData| q@), s@.skip(j as int))),
            None => jp_products_sep(s@.skip(i as int), n as int) is None,
        },
    decreases n,
{
    if n == 0 {
        return None;
    }
    let j1 = e_ws(s, i);
    if j1 >= s.len() {
        return None;
    }
    proof {
        assert(s@.skip(j1 as int)[0] == s@[j1 as int]);
        assert(s@.skip(j1 as int).skip(1) =~= s@.skip(j1 + 1));
    }
    if s[j1] == 0x5d {
        let ps: Vec<LicensedProductData> = Vec::new();
        proof {
            assert(ps@.map_values(|q: LicensedProductData| q@) =~= Seq::<ProductView>::empty());
        }
        Some((ps, j1 + 1))
    } else if s[j1] == 0x2c {
        match e_product(s, j1 + 1, n - 1) {
            None => None,
            Some((p, j2)) => {
                match e_products_sep(s, j2, n - 1) {
                    None => None,
                    Some((mut ps, j3)) => {
                        let ghost tailv = ps@;
                        ps.insert(0, p);
                        proof {
                            assert(ps@ =~= seq![p] + tailv);
                            assert(ps@.map_values(|q: LicensedProductData| q@) =~= seq![p@]
                                + tailv.map_values(|q: LicensedProductData| q@));
                        }
                        Some((ps, j3))
                    },
                }
            },
        }
    } else {
        None
    }
}

fn e_products(s: &Vec<u8>, i: usize, n: usize) -> (r: Option<(Vec<LicensedProductData>, usize)>)
    requires
        i <= s@.len(),
    ensures
        match r {
            Some((ps, j)) => i <= j <= s@.len() && jp_products(s@.skip(i as int), n as int) == Some(
                (ps@.map_values(|q: LicensedProductData| q@), s@.skip(j as int)),
            ),
            None => jp_products(s@.skip(i as int), n as int) is None,
        },
{
    let j1 = e_ws(s, i);
    if j1 >= s.len() {
        return None;
    }
    proof {
        assert(s@.skip(j1 as int)[0] == s@[j1 as int]);
        assert(s@.skip(j1 as int).skip(1) =~= s@.skip(j1 + 1));
    }
    if s[j1] != 0x5b {
        return None;
    }
    let j2 = e_ws(s, j1 + 1);
    if j2 < s.len() {
        proof {
            assert(s@.skip(j2 as int)[0] == s@[j2 as int]);
            assert(s@.skip(j2 as int).skip(1) =~= s@.skip(j2 + 1));
        }
        if s[j2] == 0x5d {
            let ps: Vec<LicensedProductData> = Vec::new();
            proof {
                assert(ps@.map_values(|q: LicensedProductData| q@) =~= Seq::<
                    ProductView,
                >::empty());
            }
            return Some((ps, j2 + 1));
        }
    } else {
        proof {
            assert(s@.skip(j2 as int).len() == 0);
        }
    }
    match e_product(s, j1 + 1, n) {
        None => None,
        Some((p, j3)) => {
            match e_products_sep(s, j3, n) {
                None => None,
                Some((mut ps, j4)) => {
                    let ghost tailv = ps@;
                    ps.insert(0, p);
                    proof {
                        assert(ps@ =~= seq![p] + tailv);
                        assert(ps@.map_values(|q: LicensedProductData| q@) =~= seq![p@]
                            + tailv.map_values(|q: LicensedProductData| q@));
                    }
                    Some((ps, j4))
                },
            }
        },
    }
}

fn e_payload_fields(
    s: &Vec<u8>,
    i: usize,
    n: usize,
    name: Option<String>,
    email: Option<String>,
    kind: Option<LicenseKind>,
    products: Option<Vec<LicensedProductData>>,
) -> (r: Option<(LicensePayloadData, usize)>)
    requires
        i <= s@.len(),
    ensures
        match r {
            Some((p, j)) => i <= j <= s@.len() && jp_payload_fields(
                s@.skip(i as int),
                n as int,
                oview_str(name),
                oview_str(email),
                kind,
                crate::msgpack::oview_products(products),
            ) == Some((p@, s@.skip(j as int))),
            None => jp_payload_fields(
                s@.skip(i as int),
                n as int,
                oview_str(name),
                oview_str(email),
                kind,
                crate::msgpack::oview_products(products),
            ) is None,
        },
    decreases n, 0int,
{
    if n == 0 {
        return None;
    }
    let j1 = e_ws(s, i);
    match e_key(s, j1) {
        None => None,
        Some((kb, j2)) => {
            let j3 = e_ws(s, j2);
            if j3 >= s.len() {
                return None;
            }
            proof {
                assert(s@.skip(j3 as int)[0] == s@[j3 as int]);
            }
            if s[j3] != 0x3a {
                return None;
            }
            proof {
                assert(s@.skip(j3 as int).skip(1) =~= s@.skip(j3 + 1));
            }
            let j4 = e_ws(s, j3 + 1);
            let k1 = key_name_vec();
            if vec_eq(&kb, &k1) {
                if name.is_some() {
                    return None;
                }
                match e_string(s, j4) {
                    None => None,
                    Some((v, j5)) => e_payload_sep(s, j5, n - 1, Some(v), email, kind, products),
                }
            } else {
                let k2 = key_email_vec();
                if vec_eq(&kb, &k2) {
                    if email.is_some() {
                        return None;
                    }
                    match e_string(s, j4) {
                        None => None,
                        Some((v, j5)) => e_payload_sep(s, j5, n - 1, name, Some(v), kind,
                            products),
                    }
                } else {
                    let k3 = key_kind_vec();
                    if vec_eq(&kb, &k3) {
                        if kind.is_some() {
                            return None;
                        }
                        match e_key(s, j4) {
                            None => None,
                            Some((v, j5)) => {
                                let pk = kind_personal_vec();
                                if vec_eq(&v, &pk) {
                                    e_payload_sep(s, j5, n - 1, name, email,
                                        Some(LicenseKind::Personal), products)
                                } else {
                                    let bk = kind_business_vec();
                                    if vec_eq(&v, &bk) {
                                        e_payload_sep(s, j5, n - 1, name, email,
                                            Some(LicenseKind::Business), products)
                                    } else {
                                        None
                                    }
                                }
                            },
                        }
                    } else {
                        let k4 = key_products_vec();
                        if vec_eq(&kb, &k4) {
                            if products.is_some() {
                                return None;
                            }
                            match e_products(s, j4, n - 1) {
                                None => None,
                                Some((v, j5)) => e_payload_sep(s, j5, n - 1, name, email, kind,
                                    Some(v)),
                            }
                        } else {
                            None
                        }
                    }
                }
            }
        },
    }
}

fn e_payload_sep(
    s: &Vec<u8>,
    i: usize,
    n: usize,
    name: Option<String>,
    email: Option<String>,
    kind: Option<LicenseKind>,
    products: Option<Vec<LicensedProductData>>,
) -> (r: Option<(LicensePayloadData, usize)>)
    requires
        i <= s@.len(),
    ensures
        match r {
            Some((p, j)) => i <= j <= s@.len() && jp_payload_sep(
                s@.skip(i as int),
                n as int,
                oview_str(name),
                oview_str(email),
                kind,
                crate::msgpack::oview_products(products),
            ) == Some((p@, s@.skip(j as int))),
            None => jp_payload_sep(
                s@.skip(i as int),
                n as int,
                oview_str(name),
                oview_str(email),
                kind,
                crate::msgpack::oview_products(products),
            ) is None,
        },
    decreases n, 1int,
{
    let j1 = e_ws(s, i);
    if j1 >= s.len() {
        return None;
    }
    proof {
        assert(s@.skip(j1 as int)[0] == s@[j1 as int]);
        assert(s@.skip(j1 as int).skip(1) =~= s@.skip(j1 + 1));
    }
    if s[j1] == 0x2c {
        e_payload_fields(s, j1 + 1, n, name, email, kind, products)
    } else if s[j1] == 0x7d {
        match (name, email, kind, products) {
            (Some(nm), Some(em), Some(kd), Some(ps)) => Some(
                (
                    LicensePayloadData {
                        name: nm,
                        email: em,
                        kind: kd,
                        created_on: None,
                        products: ps,
                    },
                    j1 + 1,
                ),
            ),
            _ => None,
        }
    } else {
        None
    }
}

fn e_payload(s: &Vec<u8>, i: usize, n: usize) -> (r: Option<(LicensePayloadData, usize)>)
    requires
        i <= s@.len(),
    ensures
        match r {
            Some((p, j)) => i <= j <= s@.len() && jp_payload(s@.skip(i as int), n as int) == Some(
                (p@, s@.skip(j as int)),
            ),
            None => jp_payload(s@.skip(i as int), n as int) is None,
        },
{
    let j1 = e_ws(s, i);
    if j1 >= s.len() {
        return None;
    }
    proof {
        assert(s@.skip(j1 as int)[0] == s@[j1 as int]);
        assert(s@.skip(j1 as int).skip(1) =~= s@.skip(j1 + 1));
    }
    if s[j1] != 0x7b {
        return None;
    }
    e_payload_fields(s, j1 + 1, n, None, None, None, None)
}

fn e_license_fields(
    s: &Vec<u8>,
    i: usize,
    n: usize,
    payload: Option<LicensePayloadData>,
    signature: Option<String>,
) -> (r: Option<(LicenseData, usize)>)
    requires
        i <= s@.len(),
    ensures
        match r {
            Some((d, j)) => i <= j <= s@.len() && jp_license_fields(
                s@.skip(i as int),
                n as int,
                crate::msgpack::oview_payload(payload),
                oview_str(signature),
            ) == Some((d@, s@.skip(j as int))),
            None => jp_license_fields(
                s@.skip(i as int),
                n as int,
                crate::msgpack::oview_payload(payload),
                oview_str(signature),
            ) is None,
        },
    decreases n, 0int,
{
    if n == 0 {
        return None;
    }
    let j1 = e_ws(s, i);
    match e_key(s, j1) {
        None => None,
        Some((kb, j2)) => {
            let j3 = e_ws(s, j2);
            if j3 >= s.len() {
                return None;
            }
            proof {
                assert(s@.skip(j3 as int)[0] == s@[j3 as int]);
            }
            if s[j3] != 0x3a {
                return None;
            }
            proof {
                assert(s@.skip(j3 as int).skip(1) =~= s@.skip(j3 + 1));
            }
            let j4 = e_ws(s, j3 + 1);
            let k1 = key_payload_vec();
            if vec_eq(&kb, &k1) {
                if payload.is_some() {
                    return None;
                }
                match e_payload(s, j4, n - 1) {
                    None => None,
                    Some((v, j5)) => e_license_sep(s, j5, n - 1, Some(v), signature),
                }
            } else {
                let k2 = key_signature_vec();
                if vec_eq(&kb, &k2) {
                    if signature.is_some() {
                        return None;
                    }
                    match e_string(s, j4) {
                        None => None,
                        Some((v, j5)) => e_license_sep(s, j5, n - 1, payload, Some(v)),
                    }
                } else {
                    None
                }
            }
        },
    }
}

fn e_license_sep(
    s: &Vec<u8>,
    i: usize,
    n: usize,
    payload: Option<LicensePayloadData>,
    signature: Option<String>,
) -> (r: Option<(LicenseData, usize)>)
    requires
        i <= s@.len(),
    ensures
        match r {
            Some((d, j)) => i <= j <= s@.len() && jp_license_sep(
                s@.skip(i as int),
                n as int,
                crate::msgpack::oview_payload(payload),
                oview_str(signature),
            ) == Some((d@, s@.skip(j as int))),
            None => jp_license_sep(
                s@.skip(i as int),
                n as int,
                crate::msgpack::oview_payload(payload),
                oview_str(signature),
            ) is None,
        },
    decreases n, 1int,
{
    let j1 = e_ws(s, i);
    if j1 >= s.len() {
        return None;
    }
    proof {
        assert(s@.skip(j1 as int)[0] == s@[j1 as int]);
        assert(s@.skip(j1 as int).skip(1) =~= s@.skip(j1 + 1));
    }
    if s[j1] == 0x2c {
        e_license_fields(s, j1 + 1, n, payload, signature)
    } else if s[j1] == 0x7d {
        match (payload, signature) {
            (Some(p), Some(sig)) => Some((LicenseData { payload: p, signature: sig }, j1 + 1)),
            _ => None,
        }
    } else {
        None
    }
}

/// Decodes legacy bytes into a record, or nothing on structurally invalid
/// bytes.
pub(crate) fn v1_decode(b: &Vec<u8>) -> (r: Option<LicenseData>)
    ensures
        match r {
            Some(d) => v1_decoding(b@) == Some(d@),
            None => v1_decoding(b@) is None,
        },
{
    proof {
        assert(b@.skip(0) =~= b@);
    }
    let j1 = e_ws(b, 0);
    if j1 >= b.len() {
        return None;
    }
    proof {
        assert(b@.skip(j1 as int)[0] == b@[j1 as int]);
        assert(b@.skip(j1 as int).skip(1) =~= b@.skip(j1 + 1));
    }
    if b[j1] != 0x7b {
        return None;
    }
    match e_license_fields(b, j1 + 1, b.len(), None, None) {
        None => None,
        Some((d, j2)) => {
            let j3 = e_ws(b, j2);
            if j3 == b.len() {
                proof {
                    assert(b@.skip(j3 as int).len() == 0);
                }
                Some(d)
            } else {
                proof {
                    assert(b@.skip(j3 as int).len() > 0);
                }
                None
            }
        },
    }
}

impl LicenseData {
    /// Decodes a token of the legacy generation: standard-alphabet base64
    /// with padding (`MalformedToken` otherwise), then the legacy structured
    /// text (`MalformedPayload` on structurally invalid bytes).  The decoded
    /// record carries no creation timestamp.
    pub fn try_from_key_legacy(key: &LicenseKey) -> (r: Result<Self, DecodeError>)
        ensures
            match r {
                Ok(d) => from_key_legacy_spec(key@) == Ok::<LicenseDataView, DecodeError>(d@),
                Err(e) => from_key_legacy_spec(key@) == Err::<LicenseDataView, DecodeError>(e),
            },
    {
        let bytes = match b64std_decode(key.as_ref()) {
            Some(b) => b,
            None => {
                return Err(DecodeError::MalformedToken);
            },
        };
        match v1_decode(&bytes) {
            Some(d) => Ok(d),
            None => Err(DecodeError::MalformedPayload),
        }
    }
}

} // verus!
