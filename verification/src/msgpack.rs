//! The current (v2) byte generation: a compact binary map encoding with
//! named fields, following the MessagePack layout that shipped with this
//! generation.
//!
//! Encoding is canonical: field order is fixed and integers and string
//! headers use their shortest form.  Decoding accepts the named fields in
//! any order and every integer and string header width, rejects duplicate,
//! unknown or missing fields, and requires the whole input to be consumed.
//! Both directions are specified by spec functions below; the decoder
//! inverts the encoder ([`lemma_v2_round_trip`]).

use vstd::prelude::*;
use vstd::utf8::{decode_utf8, encode_utf8, valid_utf8};
use crate::data::{LicenseData, LicenseDataView, LicenseKind, LicensePayloadData,
    LicensedProductData, PayloadView, ProductView};
use crate::transport::string_from_utf8;

verus! {

// ---------------------------------------------------------------------------
// Field names and kind names, as their ASCII bytes.
// ---------------------------------------------------------------------------
pub open spec fn key_payload() -> Seq<u8> {
    seq![0x70u8, 0x61u8, 0x79u8, 0x6cu8, 0x6fu8, 0x61u8, 0x64u8]
}

pub open spec fn key_signature() -> Seq<u8> {
    seq![0x73u8, 0x69u8, 0x67u8, 0x6eu8, 0x61u8, 0x74u8, 0x75u8, 0x72u8, 0x65u8]
}

pub open spec fn key_name() -> Seq<u8> {
    seq![0x6eu8, 0x61u8, 0x6du8, 0x65u8]
}

pub open spec fn key_email() -> Seq<u8> {
    seq![0x65u8, 0x6du8, 0x61u8, 0x69u8, 0x6cu8]
}

pub open spec fn key_kind() -> Seq<u8> {
    seq![0x6bu8, 0x69u8, 0x6eu8, 0x64u8]
}

pub open spec fn key_created_on() -> Seq<u8> {
    seq![0x63u8, 0x72u8, 0x65u8, 0x61u8, 0x74u8, 0x65u8, 0x64u8, 0x5fu8, 0x6fu8, 0x6eu8]
}

pub open spec fn key_products() -> Seq<u8> {
    seq![0x70u8, 0x72u8, 0x6fu8, 0x64u8, 0x75u8, 0x63u8, 0x74u8, 0x73u8]
}

pub open spec fn key_id() -> Seq<u8> {
    seq![0x69u8, 0x64u8]
}

pub open spec fn key_min_version() -> Seq<u8> {
    seq![0x6du8, 0x69u8, 0x6eu8, 0x5fu8, 0x76u8, 0x65u8, 0x72u8, 0x73u8, 0x69u8, 0x6fu8, 0x6eu8]
}

pub open spec fn key_max_version() -> Seq<u8> {
    seq![0x6du8, 0x61u8, 0x78u8, 0x5fu8, 0x76u8, 0x65u8, 0x72u8, 0x73u8, 0x69u8, 0x6fu8, 0x6eu8]
}

/// The name under which a license kind is persisted.
pub open spec fn kind_bytes(k: LicenseKind) -> Seq<u8> {
    match k {
        LicenseKind::Personal => seq![0x50u8, 0x65u8, 0x72u8, 0x73u8, 0x6fu8, 0x6eu8, 0x61u8, 0x6cu8],
        LicenseKind::Business => seq![0x42u8, 0x75u8, 0x73u8, 0x69u8, 0x6eu8, 0x65u8, 0x73u8, 0x73u8],
    }
}

// ---------------------------------------------------------------------------
// Canonical encoding.
// ---------------------------------------------------------------------------
/// The two big-endian bytes of `x` (shortened to its low 16 bits).
pub open spec fn be2(x: u64) -> Seq<u8> {
    seq![(x >> 8) as u8, x as u8]
}

/// The four big-endian bytes of `x` (shortened to its low 32 bits).
pub open spec fn be4(x: u64) -> Seq<u8> {
    seq![(x >> 24) as u8, (x >> 16) as u8, (x >> 8) as u8, x as u8]
}

/// The eight big-endian bytes of `x`.
pub open spec fn be8(x: u64) -> Seq<u8> {
    seq![
        (x >> 56) as u8,
        (x >> 48) as u8,
        (x >> 40) as u8,
        (x >> 32) as u8,
        (x >> 24) as u8,
        (x >> 16) as u8,
        (x >> 8) as u8,
        x as u8,
    ]
}

/// Shortest encoding of an unsigned integer: positive fixint, or a marker
/// `0xcc`/`0xcd`/`0xce`/`0xcf` followed by 1, 2, 4 or 8 big-endian bytes.
pub open spec fn enc_uint(x: u64) -> Seq<u8> {
    if x < 0x80 {
        seq![x as u8]
    } else if x < 0x100 {
        seq![0xccu8, x as u8]
    } else if x < 0x10000 {
        seq![0xcdu8] + be2(x)
    } else if x < 0x100000000 {
        seq![0xceu8] + be4(x)
    } else {
        seq![0xcfu8] + be8(x)
    }
}

/// Shortest string header for a content of `n` bytes: fixstr, or a marker
/// `0xd9`/`0xda`/`0xdb` followed by the length.
pub open spec fn enc_strhead(n: int) -> Seq<u8>
    recommends
        n < 0x100000000,
{
    if n < 32 {
        seq![(0xa0 + n) as u8]
    } else if n < 0x100 {
        seq![0xd9u8, n as u8]
    } else if n < 0x10000 {
        seq![0xdau8] + be2(n as u64)
    } else {
        seq![0xdbu8] + be4(n as u64)
    }
}

/// A string whose content bytes are given directly (field and kind names).
pub open spec fn enc_kstr(b: Seq<u8>) -> Seq<u8> {
    enc_strhead(b.len() as int) + b
}

/// A string value: header, then its UTF-8 bytes.
pub open spec fn enc_str(t: Seq<char>) -> Seq<u8> {
    enc_strhead(encode_utf8(t).len() as int) + encode_utf8(t)
}

/// Shortest map header for `n` entries.
pub open spec fn enc_maphead(n: int) -> Seq<u8>
    recommends
        n < 0x100000000,
{
    if n < 16 {
        seq![(0x80 + n) as u8]
    } else if n < 0x10000 {
        seq![0xdeu8] + be2(n as u64)
    } else {
        seq![0xdfu8] + be4(n as u64)
    }
}

/// Shortest array header for `n` items.
pub open spec fn enc_arrayhead(n: int) -> Seq<u8>
    recommends
        n < 0x100000000,
{
    if n < 16 {
        seq![(0x90 + n) as u8]
    } else if n < 0x10000 {
        seq![0xdcu8] + be2(n as u64)
    } else {
        seq![0xddu8] + be4(n as u64)
    }
}

/// Canonical bytes of one product record.
pub open spec fn enc_product(p: ProductView) -> Seq<u8> {
    enc_maphead(3) + enc_kstr(key_id()) + enc_str(p.id) + enc_kstr(key_min_version())
        + enc_uint(p.min_version as u64) + enc_kstr(key_max_version())
        + enc_uint(p.max_version as u64)
}

/// Canonical bytes of the product list's items, in order.
pub open spec fn enc_products_items(ps: Seq<ProductView>) -> Seq<u8>
    decreases ps.len(),
{
    if ps.len() == 0 {
        Seq::empty()
    } else {
        enc_product(ps[0]) + enc_products_items(ps.skip(1))
    }
}

/// Canonical bytes of the payload record.  The creation timestamp is an
/// additive field: it is written only when present, and the map then has
/// five entries instead of four.
pub open spec fn enc_payload(p: PayloadView) -> Seq<u8> {
    enc_maphead(if p.created_on is Some { 5int } else { 4int }) + enc_kstr(key_name())
        + enc_str(p.name) + enc_kstr(key_email()) + enc_str(p.email) + enc_kstr(key_kind())
        + enc_kstr(kind_bytes(p.kind)) + (match p.created_on {
        Some(t) => enc_kstr(key_created_on()) + enc_uint(t),
        None => Seq::empty(),
    }) + enc_kstr(key_products()) + enc_arrayhead(p.products.len() as int)
        + enc_products_items(p.products)
}

/// Canonical bytes of a whole license record: the v2 byte encoding.
pub open spec fn v2_encoding(v: LicenseDataView) -> Seq<u8> {
    enc_maphead(2) + enc_kstr(key_payload()) + enc_payload(v.payload) + enc_kstr(key_signature())
        + enc_str(v.signature)
}

// ---------------------------------------------------------------------------
// What fits the format at all (machine limits of the headers).
// ---------------------------------------------------------------------------
/// A text fits a string header: its UTF-8 form is below 2^32 bytes.
pub open spec fn str_encodable(t: Seq<char>) -> bool {
    encode_utf8(t).len() < 0x100000000
}

/// The record fits the format's headers.
pub open spec fn v2_encodable(v: LicenseDataView) -> bool {
    &&& str_encodable(v.payload.name)
    &&& str_encodable(v.payload.email)
    &&& (forall|k: int|
        0 <= k < v.payload.products.len() ==> str_encodable(#[trigger] v.payload.products[k].id))
    &&& v.payload.products.len() < 0x100000000
    &&& str_encodable(v.signature)
}

// ---------------------------------------------------------------------------
// Decoding.  Each parser takes the remaining input and yields the parsed
// value and the rest, or `None` on structurally invalid bytes.
// ---------------------------------------------------------------------------
/// Reads an unsigned integer in any of its header forms.
pub open spec fn sp_uint(s: Seq<u8>) -> Option<(u64, Seq<u8>)> {
    if s.len() < 1 {
        None
    } else {
        let t = s[0];
        if t < 0x80 {
            Some(((t as u64), s.skip(1)))
        } else if t == 0xcc {
            if s.len() >= 2 {
                Some(((s[1] as u64), s.skip(2)))
            } else {
                None
            }
        } else if t == 0xcd {
            if s.len() >= 3 {
                Some((((s[1] as u64) << 8) | (s[2] as u64), s.skip(3)))
            } else {
                None
            }
        } else if t == 0xce {
            if s.len() >= 5 {
                Some((
                    ((s[1] as u64) << 24) | ((s[2] as u64) << 16) | ((s[3] as u64) << 8) | (
                    s[4] as u64),
                    s.skip(5),
                ))
            } else {
                None
            }
        } else if t == 0xcf {
            if s.len() >= 9 {
                Some((
                    ((s[1] as u64) << 56) | ((s[2] as u64) << 48) | ((s[3] as u64) << 40) | ((
                    s[4] as u64) << 32) | ((s[5] as u64) << 24) | ((s[6] as u64) << 16) | ((
                    s[7] as u64) << 8) | (s[8] as u64),
                    s.skip(9),
                ))
            } else {
                None
            }
        } else {
            None
        }
    }
}

/// `n` content bytes after a header of `h` bytes.
pub open spec fn sp_take(s: Seq<u8>, h: int, n: int) -> Option<(Seq<u8>, Seq<u8>)> {
    if n >= 0 && s.len() >= h + n {
        Some((s.subrange(h, h + n), s.skip(h + n)))
    } else {
        None
    }
}

/// Reads a string's content bytes, any header width.
pub open spec fn sp_strbytes(s: Seq<u8>) -> Option<(Seq<u8>, Seq<u8>)> {
    if s.len() < 1 {
        None
    } else {
        let t = s[0];
        if 0xa0 <= t && t <= 0xbf {
            sp_take(s, 1, (t - 0xa0) as int)
        } else if t == 0xd9 {
            if s.len() >= 2 {
                sp_take(s, 2, s[1] as int)
            } else {
                None
            }
        } else if t == 0xda {
            if s.len() >= 3 {
                sp_take(s, 3, (((s[1] as u64) << 8) | (s[2] as u64)) as int)
            } else {
                None
            }
        } else if t == 0xdb {
            if s.len() >= 5 {
                sp_take(
                    s,
                    5,
                    (((s[1] as u64) << 24) | ((s[2] as u64) << 16) | ((s[3] as u64) << 8) | (
                    s[4] as u64)) as int,
                )
            } else {
                None
            }
        } else {
            None
        }
    }
}

/// Reads a string value: content bytes that must be valid UTF-8.
pub open spec fn sp_str(s: Seq<u8>) -> Option<(Seq<char>, Seq<u8>)> {
    match sp_strbytes(s) {
        None => None,
        Some((b, r)) => if valid_utf8(b) {
            Some((decode_utf8(b), r))
        } else {
            None
        },
    }
}

/// Reads a license kind, persisted as its name.
pub open spec fn sp_kind(s: Seq<u8>) -> Option<(LicenseKind, Seq<u8>)> {
    match sp_strbytes(s) {
        None => None,
        Some((b, r)) => if b == kind_bytes(LicenseKind::Personal) {
            Some((LicenseKind::Personal, r))
        } else if b == kind_bytes(LicenseKind::Business) {
            Some((LicenseKind::Business, r))
        } else {
            None
        },
    }
}

/// Reads a map header, any width.
pub open spec fn sp_maphead(s: Seq<u8>) -> Option<(int, Seq<u8>)> {
    if s.len() < 1 {
        None
    } else {
        let t = s[0];
        if 0x80 <= t && t <= 0x8f {
            Some(((t - 0x80) as int, s.skip(1)))
        } else if t == 0xde {
            if s.len() >= 3 {
                Some(((((s[1] as u64) << 8) | (s[2] as u64)) as int, s.skip(3)))
            } else {
                None
            }
        } else if t == 0xdf {
            if s.len() >= 5 {
                Some((
                    (((s[1] as u64) << 24) | ((s[2] as u64) << 16) | ((s[3] as u64) << 8) | (
                    s[4] as u64)) as int,
                    s.skip(5),
                ))
            } else {
                None
            }
        } else {
            None
        }
    }
}

/// Reads an array header, any width.
pub open spec fn sp_arrayhead(s: Seq<u8>) -> Option<(int, Seq<u8>)> {
    if s.len() < 1 {
        None
    } else {
        let t = s[0];
        if 0x90 <= t && t <= 0x9f {
            Some(((t - 0x90) as int, s.skip(1)))
        } else if t == 0xdc {
            if s.len() >= 3 {
                Some(((((s[1] as u64) << 8) | (s[2] as u64)) as int, s.skip(3)))
            } else {
                None
            }
        } else if t == 0xdd {
            if s.len() >= 5 {
                Some((
                    (((s[1] as u64) << 24) | ((s[2] as u64) << 16) | ((s[3] as u64) << 8) | (
                    s[4] as u64)) as int,
                    s.skip(5),
                ))
            } else {
                None
            }
        } else {
            None
        }
    }
}

/// Reads `n` remaining fields of a product map, in any order, no duplicate,
/// unknown or missing field.
pub open spec fn sp_product_fields(
    s: Seq<u8>,
    n: int,
    id: Option<Seq<char>>,
    mn: Option<u32>,
    mx: Option<u32>,
) -> Option<(ProductView, Seq<u8>)>
    decreases n,
{
    if n <= 0 {
        match (id, mn, mx) {
            (Some(i), Some(a), Some(b)) => Some(
                (ProductView { id: i, min_version: a, max_version: b }, s),
            ),
            _ => None,
        }
    } else {
        match sp_strbytes(s) {
            None => None,
            Some((k, r)) => if k == key_id() {
                if id is Some {
                    None
                } else {
                    match sp_str(r) {
                        None => None,
                        Some((v, r2)) => sp_product_fields(r2, n - 1, Some(v), mn, mx),
                    }
                }
            } else if k == key_min_version() {
                if mn is Some {
                    None
                } else {
                    match sp_uint(r) {
                        None => None,
                        Some((x, r2)) => if x <= u32::MAX {
                            sp_product_fields(r2, n - 1, id, Some(x as u32), mx)
                        } else {
                            None
                        },
                    }
                }
            } else if k == key_max_version() {
                if mx is Some {
                    None
                } else {
                    match sp_uint(r) {
                        None => None,
                        Some((x, r2)) => if x <= u32::MAX {
                            sp_product_fields(r2, n - 1, id, mn, Some(x as u32))
                        } else {
                            None
                        },
                    }
                }
            } else {
                None
            },
        }
    }
}

/// Reads one product record.
pub open spec fn sp_product(s: Seq<u8>) -> Option<(ProductView, Seq<u8>)> {
    match sp_maphead(s) {
        None => None,
        Some((n, r)) => sp_product_fields(r, n, None, None, None),
    }
}

/// Reads `n` product records.
pub open spec fn sp_products(s: Seq<u8>, n: int) -> Option<(Seq<ProductView>, Seq<u8>)>
    decreases n,
{
    if n <= 0 {
        Some((Seq::empty(), s))
    } else {
        match sp_product(s) {
            None => None,
            Some((p, r)) => match sp_products(r, n - 1) {
                None => None,
                Some((ps, r2)) => Some((seq![p] + ps, r2)),
            },
        }
    }
}

/// Reads `n` remaining fields of a payload map.  The creation timestamp is
/// the one optional field; all others are required.
pub open spec fn sp_payload_fields(
    s: Seq<u8>,
    n: int,
    name: Option<Seq<char>>,
    email: Option<Seq<char>>,
    kind: Option<LicenseKind>,
    created: Option<u64>,
    products: Option<Seq<ProductView>>,
) -> Option<(PayloadView, Seq<u8>)>
    decreases n,
{
    if n <= 0 {
        match (name, email, kind, products) {
            (Some(nm), Some(em), Some(kd), Some(ps)) => Some(
                (
                    PayloadView {
                        name: nm,
                        email: em,
                        kind: kd,
                        created_on: created,
                        products: ps,
                    },
                    s,
                ),
            ),
            _ => None,
        }
    } else {
        match sp_strbytes(s) {
            None => None,
            Some((k, r)) => if k == key_name() {
                if name is Some {
                    None
                } else {
                    match sp_str(r) {
                        None => None,
                        Some((v, r2)) => sp_payload_fields(
                            r2,
                            n - 1,
                            Some(v),
                            email,
                            kind,
                            created,
                            products,
                        ),
                    }
                }
            } else if k == key_email() {
                if email is Some {
                    None
                } else {
                    match sp_str(r) {
                        None => None,
                        Some((v, r2)) => sp_payload_fields(
                            r2,
                            n - 1,
                            name,
                            Some(v),
                            kind,
                            created,
                            products,
                        ),
                    }
                }
            } else if k == key_kind() {
                if kind is Some {
                    None
                } else {
                    match sp_kind(r) {
                        None => None,
                        Some((v, r2)) => sp_payload_fields(
                            r2,
                            n - 1,
                            name,
                            email,
                            Some(v),
                            created,
                            products,
                        ),
                    }
                }
            } else if k == key_created_on() {
                if created is Some {
                    None
                } else {
                    match sp_uint(r) {
                        None => None,
                        Some((x, r2)) => sp_payload_fields(
                            r2,
                            n - 1,
                            name,
                            email,
                            kind,
                            Some(x),
                            products,
                        ),
                    }
                }
            } else if k == key_products() {
                if products is Some {
                    None
                } else {
                    match sp_arrayhead(r) {
                        None => None,
                        Some((cnt, r2)) => match sp_products(r2, cnt) {
                            None => None,
                            Some((ps, r3)) => sp_payload_fields(
                                r3,
                                n - 1,
                                name,
                                email,
                                kind,
                                created,
                                Some(ps),
                            ),
                        },
                    }
                }
            } else {
                None
            },
        }
    }
}

/// Reads a payload record.
pub open spec fn sp_payload(s: Seq<u8>) -> Option<(PayloadView, Seq<u8>)> {
    match sp_maphead(s) {
        None => None,
        Some((n, r)) => sp_payload_fields(r, n, None, None, None, None, None),
    }
}

/// Reads `n` remaining fields of a license map.
pub open spec fn sp_license_fields(
    s: Seq<u8>,
    n: int,
    payload: Option<PayloadView>,
    signature: Option<Seq<char>>,
) -> Option<(LicenseDataView, Seq<u8>)>
    decreases n,
{
    if n <= 0 {
        match (payload, signature) {
            (Some(p), Some(sig)) => Some((LicenseDataView { payload: p, signature: sig }, s)),
            _ => None,
        }
    } else {
        match sp_strbytes(s) {
            None => None,
            Some((k, r)) => if k == key_payload() {
                if payload is Some {
                    None
                } else {
                    match sp_payload(r) {
                        None => None,
                        Some((v, r2)) => sp_license_fields(r2, n - 1, Some(v), signature),
                    }
                }
            } else if k == key_signature() {
                if signature is Some {
                    None
                } else {
                    match sp_str(r) {
                        None => None,
                        Some((v, r2)) => sp_license_fields(r2, n - 1, payload, Some(v)),
                    }
                }
            } else {
                None
            },
        }
    }
}

/// Reads a license record.
pub open spec fn sp_license(s: Seq<u8>) -> Option<(LicenseDataView, Seq<u8>)> {
    match sp_maphead(s) {
        None => None,
        Some((n, r)) => sp_license_fields(r, n, None, None),
    }
}

/// What the v2 byte decoder yields on any input: the record, if the bytes
/// are one well-formed license record and nothing more.
pub open spec fn v2_decoding(b: Seq<u8>) -> Option<LicenseDataView> {
    match sp_license(b) {
        None => None,
        Some((v, r)) => if r.len() == 0 {
            Some(v)
        } else {
            None
        },
    }
}

// ---------------------------------------------------------------------------
// The decoder inverts the encoder.
// ---------------------------------------------------------------------------
proof fn lemma_be2_round(x: u64)
    ensures
        x < 0x10000 ==> ((((x >> 8) as u8) as u64) << 8) | ((x as u8) as u64) == x,
{
    assert(x < 0x10000 ==> ((((x >> 8) as u8) as u64) << 8) | ((x as u8) as u64) == x)
        by (bit_vector);
}

proof fn lemma_be4_round(x: u64)
    ensures
        x < 0x100000000 ==> ((((x >> 24) as u8) as u64) << 24) | ((((x >> 16) as u8) as u64) << 16)
            | ((((x >> 8) as u8) as u64) << 8) | ((x as u8) as u64) == x,
{
    assert(x < 0x100000000 ==> ((((x >> 24) as u8) as u64) << 24) | ((((x >> 16) as u8) as u64)
        << 16) | ((((x >> 8) as u8) as u64) << 8) | ((x as u8) as u64) == x) by (bit_vector);
}

proof fn lemma_be8_round(x: u64)
    ensures
        ((((x >> 56) as u8) as u64) << 56) | ((((x >> 48) as u8) as u64) << 48) | ((((x
            >> 40) as u8) as u64) << 40) | ((((x >> 32) as u8) as u64) << 32) | ((((x
            >> 24) as u8) as u64) << 24) | ((((x >> 16) as u8) as u64) << 16) | ((((x
            >> 8) as u8) as u64) << 8) | ((x as u8) as u64) == x,
{
    assert(((((x >> 56) as u8) as u64) << 56) | ((((x >> 48) as u8) as u64) << 48) | ((((x
        >> 40) as u8) as u64) << 40) | ((((x >> 32) as u8) as u64) << 32) | ((((x
        >> 24) as u8) as u64) << 24) | ((((x >> 16) as u8) as u64) << 16) | ((((x
        >> 8) as u8) as u64) << 8) | ((x as u8) as u64) == x) by (bit_vector);
}

proof fn lemma_assoc(a: Seq<u8>, b: Seq<u8>, c: Seq<u8>)
    ensures
        (a + b) + c == a + (b + c),
{
    assert((a + b) + c =~= a + (b + c));
}

proof fn lemma_sp_uint(x: u64, rest: Seq<u8>)
    ensures
        sp_uint(enc_uint(x) + rest) == Some((x, rest)),
{
    let s = enc_uint(x) + rest;
    if x < 0x80 {
        assert(s.skip(1) =~= rest);
    } else if x < 0x100 {
        assert(s.skip(2) =~= rest);
    } else if x < 0x10000 {
        lemma_be2_round(x);
        assert(s.skip(3) =~= rest);
    } else if x < 0x100000000 {
        lemma_be4_round(x);
        assert(s.skip(5) =~= rest);
    } else {
        lemma_be8_round(x);
        assert(s.skip(9) =~= rest);
    }
}

proof fn lemma_sp_strbytes(b: Seq<u8>, rest: Seq<u8>)
    requires
        b.len() < 0x100000000,
    ensures
        sp_strbytes(enc_kstr(b) + rest) == Some((b, rest)),
{
    let s = enc_kstr(b) + rest;
    let n = b.len() as int;
    if n < 32 {
        assert(s.subrange(1, 1 + n) =~= b);
        assert(s.skip(1 + n) =~= rest);
    } else if n < 0x100 {
        assert(s.subrange(2, 2 + n) =~= b);
        assert(s.skip(2 + n) =~= rest);
    } else if n < 0x10000 {
        lemma_be2_round(n as u64);
        assert(s.subrange(3, 3 + n) =~= b);
        assert(s.skip(3 + n) =~= rest);
    } else {
        lemma_be4_round(n as u64);
        assert(s.subrange(5, 5 + n) =~= b);
        assert(s.skip(5 + n) =~= rest);
    }
}

proof fn lemma_sp_str(t: Seq<char>, rest: Seq<u8>)
    requires
        str_encodable(t),
    ensures
        sp_str(enc_str(t) + rest) == Some((t, rest)),
{
    assert(enc_str(t) =~= enc_kstr(encode_utf8(t)));
    lemma_sp_strbytes(encode_utf8(t), rest);
    vstd::utf8::encode_utf8_valid_utf8(t);
    vstd::utf8::encode_utf8_decode_utf8(t);
}

proof fn lemma_sp_kind(k: LicenseKind, rest: Seq<u8>)
    ensures
        sp_kind(enc_kstr(kind_bytes(k)) + rest) == Some((k, rest)),
{
    lemma_sp_strbytes(kind_bytes(k), rest);
}

proof fn lemma_sp_maphead(n: int, rest: Seq<u8>)
    requires
        0 <= n < 0x100000000,
    ensures
        sp_maphead(enc_maphead(n) + rest) == Some((n, rest)),
{
    let s = enc_maphead(n) + rest;
    if n < 16 {
        assert(s.skip(1) =~= rest);
    } else if n < 0x10000 {
        lemma_be2_round(n as u64);
        assert(s.skip(3) =~= rest);
    } else {
        lemma_be4_round(n as u64);
        assert(s.skip(5) =~= rest);
    }
}

proof fn lemma_sp_arrayhead(n: int, rest: Seq<u8>)
    requires
        0 <= n < 0x100000000,
    ensures
        sp_arrayhead(enc_arrayhead(n) + rest) == Some((n, rest)),
{
    let s = enc_arrayhead(n) + rest;
    if n < 16 {
        assert(s.skip(1) =~= rest);
    } else if n < 0x10000 {
        lemma_be2_round(n as u64);
        assert(s.skip(3) =~= rest);
    } else {
        lemma_be4_round(n as u64);
        assert(s.skip(5) =~= rest);
    }
}

#[verifier::rlimit(100)]
proof fn lemma_sp_product(p: ProductView, rest: Seq<u8>)
    requires
        str_encodable(p.id),
    ensures
        sp_product(enc_product(p) + rest) == Some((p, rest)),
{
    let r6 = enc_uint(p.max_version as u64) + rest;
    let r5 = enc_kstr(key_max_version()) + r6;
    let r4 = enc_uint(p.min_version as u64) + r5;
    let r3 = enc_kstr(key_min_version()) + r4;
    let r2 = enc_str(p.id) + r3;
    let r1 = enc_kstr(key_id()) + r2;
    assert(enc_product(p) + rest =~= enc_maphead(3) + r1);
    lemma_sp_maphead(3, r1);
    assert(sp_maphead(enc_product(p) + rest) == Some((3int, r1)));
    lemma_sp_strbytes(key_id(), r2);
    lemma_sp_str(p.id, r3);
    assert(sp_product_fields(r1, 3, None, None, None) == sp_product_fields(
        r3,
        2,
        Some(p.id),
        None,
        None,
    ));
    lemma_sp_strbytes(key_min_version(), r4);
    lemma_sp_uint(p.min_version as u64, r5);
    assert(key_min_version() != key_id());
    assert((p.min_version as u64) as u32 == p.min_version);
    assert(sp_product_fields(r3, 2, Some(p.id), None, None) == sp_product_fields(
        r5,
        1,
        Some(p.id),
        Some(p.min_version),
        None,
    ));
    lemma_sp_strbytes(key_max_version(), r6);
    lemma_sp_uint(p.max_version as u64, rest);
    assert(key_max_version() != key_id());
    assert(key_max_version() != key_min_version());
    assert(sp_product_fields(r5, 1, Some(p.id), Some(p.min_version), None)
        == sp_product_fields(rest, 0, Some(p.id), Some(p.min_version), Some(p.max_version)));
    assert(sp_product_fields(rest, 0, Some(p.id), Some(p.min_version), Some(p.max_version))
        == Some((p, rest)));
}

proof fn lemma_sp_products(ps: Seq<ProductView>, rest: Seq<u8>)
    requires
        forall|k: int| 0 <= k < ps.len() ==> str_encodable(#[trigger] ps[k].id),
    ensures
        sp_products(enc_products_items(ps) + rest, ps.len() as int) == Some((ps, rest)),
    decreases ps.len(),
{
    if ps.len() == 0 {
        assert(enc_products_items(ps) + rest =~= rest);
        assert(ps =~= Seq::<ProductView>::empty());
    } else {
        let tail = ps.skip(1);
        assert(enc_products_items(ps) + rest =~= enc_product(ps[0]) + (enc_products_items(tail)
            + rest));
        lemma_sp_product(ps[0], enc_products_items(tail) + rest);
        assert(forall|k: int| 0 <= k < tail.len() ==> str_encodable(#[trigger] tail[k].id));
        lemma_sp_products(tail, rest);
        assert(seq![ps[0]] + tail =~= ps);
    }
}

proof fn lemma_assoc_chain11(
    m: Seq<u8>,
    a: Seq<u8>,
    b: Seq<u8>,
    c: Seq<u8>,
    d: Seq<u8>,
    e: Seq<u8>,
    f: Seq<u8>,
    x: Seq<u8>,
    g: Seq<u8>,
    h: Seq<u8>,
    i: Seq<u8>,
    rest: Seq<u8>,
)
    ensures
        (m + a + b + c + d + e + f + x + g + h + i) + rest == m + (a + (b + (c + (d + (e + (f + (x
            + (g + (h + (i + rest)))))))))),
{
    lemma_assoc(m + a + b + c + d + e + f + x + g + h, i, rest);
    lemma_assoc(m + a + b + c + d + e + f + x + g, h, i + rest);
    lemma_assoc(m + a + b + c + d + e + f + x, g, h + (i + rest));
    lemma_assoc(m + a + b + c + d + e + f, x, g + (h + (i + rest)));
    lemma_assoc(m + a + b + c + d + e, f, x + (g + (h + (i + rest))));
    lemma_assoc(m + a + b + c + d, e, f + (x + (g + (h + (i + rest)))));
    lemma_assoc(m + a + b + c, d, e + (f + (x + (g + (h + (i + rest))))));
    lemma_assoc(m + a + b, c, d + (e + (f + (x + (g + (h + (i + rest)))))));
    lemma_assoc(m + a, b, c + (d + (e + (f + (x + (g + (h + (i + rest))))))));
    lemma_assoc(m, a, b + (c + (d + (e + (f + (x + (g + (h + (i + rest)))))))));
}

/// Payload map entry count of the record's generation.
spec fn cnt_term(p: PayloadView) -> int {
    if p.created_on is Some {
        5
    } else {
        4
    }
}

/// The input from the products field name on.
spec fn tail_term(p: PayloadView, rest: Seq<u8>) -> Seq<u8> {
    enc_kstr(key_products()) + (enc_arrayhead(p.products.len() as int) + (enc_products_items(
        p.products,
    ) + rest))
}

/// The input from the creation-timestamp field on.
spec fn mid_term(p: PayloadView, rest: Seq<u8>) -> Seq<u8> {
    match p.created_on {
        Some(t) => enc_kstr(key_created_on()) + (enc_uint(t) + tail_term(p, rest)),
        None => tail_term(p, rest),
    }
}

/// The input from the first payload field on.
spec fn front_term(p: PayloadView, rest: Seq<u8>) -> Seq<u8> {
    enc_kstr(key_name()) + (enc_str(p.name) + (enc_kstr(key_email()) + (enc_str(p.email) + (
    enc_kstr(key_kind()) + (enc_kstr(kind_bytes(p.kind)) + mid_term(p, rest))))))
}

#[verifier::rlimit(100)]
proof fn lemma_payload_shape(p: PayloadView, rest: Seq<u8>)
    ensures
        enc_payload(p) + rest == enc_maphead(cnt_term(p)) + front_term(p, rest),
{
    let r7 = tail_term(p, rest);
    let m = enc_maphead(cnt_term(p));
    let xx = (match p.created_on {
        Some(t) => enc_kstr(key_created_on()) + enc_uint(t),
        None => Seq::<u8>::empty(),
    });
    lemma_assoc_chain11(
        m,
        enc_kstr(key_name()),
        enc_str(p.name),
        enc_kstr(key_email()),
        enc_str(p.email),
        enc_kstr(key_kind()),
        enc_kstr(kind_bytes(p.kind)),
        xx,
        enc_kstr(key_products()),
        enc_arrayhead(p.products.len() as int),
        enc_products_items(p.products),
        rest,
    );
    match p.created_on {
        Some(t) => {
            lemma_assoc(enc_kstr(key_created_on()), enc_uint(t), r7);
        },
        None => {
            assert(Seq::<u8>::empty() + r7 =~= r7);
        },
    }
}

proof fn lemma_payload_fields_front(
    r0: Seq<u8>,
    r1: Seq<u8>,
    r2: Seq<u8>,
    r3: Seq<u8>,
    r4: Seq<u8>,
    r5: Seq<u8>,
    r6: Seq<u8>,
    nm: Seq<char>,
    em: Seq<char>,
    kd: LicenseKind,
    cnt: int,
)
    requires
        cnt >= 4,
        sp_strbytes(r0) == Some((key_name(), r1)),
        sp_str(r1) == Some((nm, r2)),
        sp_strbytes(r2) == Some((key_email(), r3)),
        sp_str(r3) == Some((em, r4)),
        sp_strbytes(r4) == Some((key_kind(), r5)),
        sp_kind(r5) == Some((kd, r6)),
    ensures
        sp_payload_fields(r0, cnt, None, None, None, None, None) == sp_payload_fields(
            r6,
            cnt - 3,
            Some(nm),
            Some(em),
            Some(kd),
            None,
            None,
        ),
{
    assert(sp_payload_fields(r0, cnt, None, None, None, None, None) == sp_payload_fields(
        r2,
        cnt - 1,
        Some(nm),
        None,
        None,
        None,
        None,
    ));
    assert(key_email() != key_name());
    assert(sp_payload_fields(r2, cnt - 1, Some(nm), None, None, None, None) == sp_payload_fields(
        r4,
        cnt - 2,
        Some(nm),
        Some(em),
        None,
        None,
        None,
    ));
    assert(key_kind() != key_name());
    assert(key_kind() != key_email());
    assert(sp_payload_fields(r4, cnt - 2, Some(nm), Some(em), None, None, None)
        == sp_payload_fields(r6, cnt - 3, Some(nm), Some(em), Some(kd), None, None));
}

proof fn lemma_payload_fields_back(
    r6: Seq<u8>,
    rc: Seq<u8>,
    r7: Seq<u8>,
    r8: Seq<u8>,
    r9: Seq<u8>,
    rest: Seq<u8>,
    nm: Seq<char>,
    em: Seq<char>,
    kd: LicenseKind,
    created: Option<u64>,
    ps: Seq<ProductView>,
)
    requires
        match created {
            Some(t) => sp_strbytes(r6) == Some((key_created_on(), rc)) && sp_uint(rc) == Some(
                (t, r7),
            ),
            None => r6 == r7,
        },
        sp_strbytes(r7) == Some((key_products(), r8)),
        sp_arrayhead(r8) == Some((ps.len() as int, r9)),
        sp_products(r9, ps.len() as int) == Some((ps, rest)),
    ensures
        sp_payload_fields(
            r6,
            if created is Some {
                2int
            } else {
                1int
            },
            Some(nm),
            Some(em),
            Some(kd),
            None,
            None,
        ) == Some(
            (PayloadView { name: nm, email: em, kind: kd, created_on: created, products: ps }, rest),
        ),
{
    assert(key_created_on() != key_name());
    assert(key_created_on() != key_email());
    assert(key_created_on() != key_kind());
    assert(key_products() != key_name());
    assert(key_products() != key_email());
    assert(key_products() != key_kind());
    assert(key_products() != key_created_on());
    match created {
        Some(t) => {
            assert(sp_payload_fields(r6, 2, Some(nm), Some(em), Some(kd), None, None)
                == sp_payload_fields(r7, 1, Some(nm), Some(em), Some(kd), Some(t), None));
        },
        None => {},
    }
    assert(sp_payload_fields(r7, 1, Some(nm), Some(em), Some(kd), created, None)
        == sp_payload_fields(rest, 0, Some(nm), Some(em), Some(kd), created, Some(ps)));
}

#[verifier::rlimit(100)]
proof fn lemma_payload_front(p: PayloadView, rest: Seq<u8>)
    requires
        str_encodable(p.name),
        str_encodable(p.email),
    ensures
        sp_payload_fields(front_term(p, rest), cnt_term(p), None, None, None, None, None)
            == sp_payload_fields(
            mid_term(p, rest),
            cnt_term(p) - 3,
            Some(p.name),
            Some(p.email),
            Some(p.kind),
            None,
            None,
        ),
{
    let r6 = mid_term(p, rest);
    let r5 = enc_kstr(kind_bytes(p.kind)) + r6;
    let r4 = enc_kstr(key_kind()) + r5;
    let r3 = enc_str(p.email) + r4;
    let r2 = enc_kstr(key_email()) + r3;
    let r1 = enc_str(p.name) + r2;
    let r0 = enc_kstr(key_name()) + r1;
    assert(front_term(p, rest) == r0);
    assert(sp_strbytes(r0) == Some((key_name(), r1))) by {
        lemma_sp_strbytes(key_name(), r1);
    }
    assert(sp_str(r1) == Some((p.name, r2))) by {
        lemma_sp_str(p.name, r2);
    }
    assert(sp_strbytes(r2) == Some((key_email(), r3))) by {
        lemma_sp_strbytes(key_email(), r3);
    }
    assert(sp_str(r3) == Some((p.email, r4))) by {
        lemma_sp_str(p.email, r4);
    }
    assert(sp_strbytes(r4) == Some((key_kind(), r5))) by {
        lemma_sp_strbytes(key_kind(), r5);
    }
    assert(sp_kind(r5) == Some((p.kind, r6))) by {
        lemma_sp_kind(p.kind, r6);
    }
    lemma_payload_fields_front(r0, r1, r2, r3, r4, r5, r6, p.name, p.email, p.kind, cnt_term(p));
}

#[verifier::rlimit(100)]
proof fn lemma_payload_back(p: PayloadView, rest: Seq<u8>)
    requires
        forall|k: int| 0 <= k < p.products.len() ==> str_encodable(#[trigger] p.products[k].id),
        p.products.len() < 0x100000000,
    ensures
        sp_payload_fields(
            mid_term(p, rest),
            cnt_term(p) - 3,
            Some(p.name),
            Some(p.email),
            Some(p.kind),
            None,
            None,
        ) == Some((p, rest)),
{
    let r9 = enc_products_items(p.products) + rest;
    let r8 = enc_arrayhead(p.products.len() as int) + r9;
    let r7 = enc_kstr(key_products()) + r8;
    let rc = (match p.created_on {
        Some(t) => enc_uint(t) + r7,
        None => r7,
    });
    let r6 = mid_term(p, rest);
    assert(tail_term(p, rest) == r7) by {
        lemma_assoc(enc_kstr(key_products()), enc_arrayhead(p.products.len() as int),
            enc_products_items(p.products) + rest);
        assert(tail_term(p, rest) =~= r7);
    }
    match p.created_on {
        Some(t) => {
            assert(sp_strbytes(r6) == Some((key_created_on(), rc))) by {
                lemma_sp_strbytes(key_created_on(), rc);
            }
            assert(sp_uint(rc) == Some((t, r7))) by {
                lemma_sp_uint(t, r7);
            }
        },
        None => {},
    }
    assert(sp_strbytes(r7) == Some((key_products(), r8))) by {
        lemma_sp_strbytes(key_products(), r8);
    }
    assert(sp_arrayhead(r8) == Some((p.products.len() as int, r9))) by {
        lemma_sp_arrayhead(p.products.len() as int, r9);
    }
    assert(sp_products(r9, p.products.len() as int) == Some((p.products, rest))) by {
        lemma_sp_products(p.products, rest);
    }
    lemma_payload_fields_back(
        r6,
        rc,
        r7,
        r8,
        r9,
        rest,
        p.name,
        p.email,
        p.kind,
        p.created_on,
        p.products,
    );
    assert(PayloadView {
        name: p.name,
        email: p.email,
        kind: p.kind,
        created_on: p.created_on,
        products: p.products,
    } == p);
}

proof fn lemma_sp_payload(p: PayloadView, rest: Seq<u8>)
    requires
        str_encodable(p.name),
        str_encodable(p.email),
        forall|k: int| 0 <= k < p.products.len() ==> str_encodable(#[trigger] p.products[k].id),
        p.products.len() < 0x100000000,
    ensures
        sp_payload(enc_payload(p) + rest) == Some((p, rest)),
{
    lemma_payload_shape(p, rest);
    assert(sp_maphead(enc_maphead(cnt_term(p)) + front_term(p, rest)) == Some(
        (cnt_term(p), front_term(p, rest)),
    )) by {
        lemma_sp_maphead(cnt_term(p), front_term(p, rest));
    }
    lemma_payload_front(p, rest);
    lemma_payload_back(p, rest);
}

#[verifier::rlimit(60)]
proof fn lemma_sp_license(v: LicenseDataView, rest: Seq<u8>)
    requires
        v2_encodable(v),
    ensures
        sp_license(v2_encoding(v) + rest) == Some((v, rest)),
{
    let r3 = enc_str(v.signature) + rest;
    let r2 = enc_kstr(key_signature()) + r3;
    let r1 = enc_payload(v.payload) + r2;
    let r0 = enc_kstr(key_payload()) + r1;
    assert(v2_encoding(v) + rest =~= enc_maphead(2) + r0);
    lemma_sp_maphead(2, r0);
    assert(sp_maphead(v2_encoding(v) + rest) == Some((2int, r0)));
    lemma_sp_strbytes(key_payload(), r1);
    lemma_sp_payload(v.payload, r2);
    assert(sp_license_fields(r0, 2, None, None) == sp_license_fields(
        r2,
        1,
        Some(v.payload),
        None,
    ));
    lemma_sp_strbytes(key_signature(), r3);
    lemma_sp_str(v.signature, rest);
    assert(key_signature() != key_payload());
    assert(sp_license_fields(r2, 1, Some(v.payload), None) == sp_license_fields(
        rest,
        0,
        Some(v.payload),
        Some(v.signature),
    ));
}

/// The v2 decoder inverts the v2 encoder: the canonical bytes of any record
/// that fits the format decode back to that record.
pub proof fn lemma_v2_round_trip(v: LicenseDataView)
    requires
        v2_encodable(v),
    ensures
        v2_decoding(v2_encoding(v)) == Some(v),
{
    lemma_sp_license(v, Seq::empty());
    assert(v2_encoding(v) + Seq::<u8>::empty() =~= v2_encoding(v));
}


// ---------------------------------------------------------------------------
// The executable encoder.
// ---------------------------------------------------------------------------
pub(crate) fn key_payload_vec() -> (r: Vec<u8>)
    ensures
        r@ == key_payload(),
{
    let mut v: Vec<u8> = Vec::new();
    v.push(0x70);
    v.push(0x61);
    v.push(0x79);
    v.push(0x6c);
    v.push(0x6f);
    v.push(0x61);
    v.push(0x64);
    proof {
        assert(v@ =~= key_payload());
    }
    v
}

pub(crate) fn key_signature_vec() -> (r: Vec<u8>)
    ensures
        r@ == key_signature(),
{
    let mut v: Vec<u8> = Vec::new();
    v.push(0x73);
    v.push(0x69);
    v.push(0x67);
    v.push(0x6e);
    v.push(0x61);
    v.push(0x74);
    v.push(0x75);
    v.push(0x72);
    v.push(0x65);
    proof {
        assert(v@ =~= key_signature());
    }
    v
}

pub(crate) fn key_name_vec() -> (r: Vec<u8>)
    ensures
        r@ == key_name(),
{
    let mut v: Vec<u8> = Vec::new();
    v.push(0x6e);
    v.push(0x61);
    v.push(0x6d);
    v.push(0x65);
    proof {
        assert(v@ =~= key_name());
    }
    v
}

pub(crate) fn key_email_vec() -> (r: Vec<u8>)
    ensures
        r@ == key_email(),
{
    let mut v: Vec<u8> = Vec::new();
    v.push(0x65);
    v.push(0x6d);
    v.push(0x61);
    v.push(0x69);
    v.push(0x6c);
    proof {
        assert(v@ =~= key_email());
    }
    v
}

pub(crate) fn key_kind_vec() -> (r: Vec<u8>)
    ensures
        r@ == key_kind(),
{
    let mut v: Vec<u8> = Vec::new();
    v.push(0x6b);
    v.push(0x69);
    v.push(0x6e);
    v.push(0x64);
    proof {
        assert(v@ =~= key_kind());
    }
    v
}

pub(crate) fn key_created_on_vec() -> (r: Vec<u8>)
    ensures
        r@ == key_created_on(),
{
    let mut v: Vec<u8> = Vec::new();
    v.push(0x63);
    v.push(0x72);
    v.push(0x65);
    v.push(0x61);
    v.push(0x74);
    v.push(0x65);
    v.push(0x64);
    v.push(0x5f);
    v.push(0x6f);
    v.push(0x6e);
    proof {
        assert(v@ =~= key_created_on());
    }
    v
}

pub(crate) fn key_products_vec() -> (r: Vec<u8>)
    ensures
        r@ == key_products(),
{
    let mut v: Vec<u8> = Vec::new();
    v.push(0x70);
    v.push(0x72);
    v.push(0x6f);
    v.push(0x64);
    v.push(0x75);
    v.push(0x63);
    v.push(0x74);
    v.push(0x73);
    proof {
        assert(v@ =~= key_products());
    }
    v
}

pub(crate) fn key_id_vec() -> (r: Vec<u8>)
    ensures
        r@ == key_id(),
{
    let mut v: Vec<u8> = Vec::new();
    v.push(0x69);
    v.push(0x64);
    proof {
        assert(v@ =~= key_id());
    }
    v
}

pub(crate) fn key_min_version_vec() -> (r: Vec<u8>)
    ensures
        r@ == key_min_version(),
{
    let mut v: Vec<u8> = Vec::new();
    v.push(0x6d);
    v.push(0x69);
    v.push(0x6e);
    v.push(0x5f);
    v.push(0x76);
    v.push(0x65);
    v.push(0x72);
    v.push(0x73);
    v.push(0x69);
    v.push(0x6f);
    v.push(0x6e);
    proof {
        assert(v@ =~= key_min_version());
    }
    v
}

pub(crate) fn key_max_version_vec() -> (r: Vec<u8>)
    ensures
        r@ == key_max_version(),
{
    let mut v: Vec<u8> = Vec::new();
    v.push(0x6d);
    v.push(0x61);
    v.push(0x78);
    v.push(0x5f);
    v.push(0x76);
    v.push(0x65);
    v.push(0x72);
    v.push(0x73);
    v.push(0x69);
    v.push(0x6f);
    v.push(0x6e);
    proof {
        assert(v@ =~= key_max_version());
    }
    v
}

pub(crate) fn kind_personal_vec() -> (r: Vec<u8>)
    ensures
        r@ == kind_bytes(LicenseKind::Personal),
{
    let mut v: Vec<u8> = Vec::new();
    v.push(0x50);
    v.push(0x65);
    v.push(0x72);
    v.push(0x73);
    v.push(0x6f);
    v.push(0x6e);
    v.push(0x61);
    v.push(0x6c);
    proof {
        assert(v@ =~= kind_bytes(LicenseKind::Personal));
    }
    v
}

pub(crate) fn kind_business_vec() -> (r: Vec<u8>)
    ensures
        r@ == kind_bytes(LicenseKind::Business),
{
    let mut v: Vec<u8> = Vec::new();
    v.push(0x42);
    v.push(0x75);
    v.push(0x73);
    v.push(0x69);
    v.push(0x6e);
    v.push(0x65);
    v.push(0x73);
    v.push(0x73);
    proof {
        assert(v@ =~= kind_bytes(LicenseKind::Business));
    }
    v
}

fn push_all(out: &mut Vec<u8>, v: &Vec<u8>)
    ensures
        final(out)@ == old(out)@ + v@,
{
    let mut j: usize = 0;
    while j < v.len()
        invariant
            j <= v.len(),
            out@ == old(out)@ + v@.take(j as int),
        decreases v.len() - j,
    {
        out.push(v[j]);
        proof {
            assert(v@.take(j + 1) =~= v@.take(j as int).push(v@[j as int]));
            assert(out@ =~= old(out)@ + v@.take(j + 1));
        }
        j += 1;
    }
    proof {
        assert(v@.take(v@.len() as int) =~= v@);
    }
}

fn enc_uint_into(out: &mut Vec<u8>, x: u64)
    ensures
        final(out)@ == old(out)@ + enc_uint(x),
{
    if x < 0x80 {
        out.push(x as u8);
        proof {
            assert(out@ =~= old(out)@ + enc_uint(x));
        }
    } else if x < 0x100 {
        out.push(0xcc);
        out.push(x as u8);
        proof {
            assert(out@ =~= old(out)@ + enc_uint(x));
        }
    } else if x < 0x10000 {
        out.push(0xcd);
        out.push(#[verifier::truncate] ((x >> 8) as u8));
        out.push(#[verifier::truncate] (x as u8));
        proof {
            assert(out@ =~= old(out)@ + enc_uint(x));
        }
    } else if x < 0x100000000 {
        out.push(0xce);
        out.push(#[verifier::truncate] ((x >> 24) as u8));
        out.push(#[verifier::truncate] ((x >> 16) as u8));
        out.push(#[verifier::truncate] ((x >> 8) as u8));
        out.push(#[verifier::truncate] (x as u8));
        proof {
            assert(out@ =~= old(out)@ + enc_uint(x));
        }
    } else {
        out.push(0xcf);
        out.push(#[verifier::truncate] ((x >> 56) as u8));
        out.push(#[verifier::truncate] ((x >> 48) as u8));
        out.push(#[verifier::truncate] ((x >> 40) as u8));
        out.push(#[verifier::truncate] ((x >> 32) as u8));
        out.push(#[verifier::truncate] ((x >> 24) as u8));
        out.push(#[verifier::truncate] ((x >> 16) as u8));
        out.push(#[verifier::truncate] ((x >> 8) as u8));
        out.push(#[verifier::truncate] (x as u8));
        proof {
            assert(out@ =~= old(out)@ + enc_uint(x));
        }
    }
}

fn enc_strhead_into(out: &mut Vec<u8>, n: usize)
    requires
        n < 0x100000000,
    ensures
        final(out)@ == old(out)@ + enc_strhead(n as int),
{
    if n < 32 {
        out.push(0xa0 + (n as u8));
        proof {
            assert(out@ =~= old(out)@ + enc_strhead(n as int));
        }
    } else if n < 0x100 {
        out.push(0xd9);
        out.push(n as u8);
        proof {
            assert(out@ =~= old(out)@ + enc_strhead(n as int));
        }
    } else if n < 0x10000 {
        let m = n as u64;
        out.push(0xda);
        out.push(#[verifier::truncate] ((m >> 8) as u8));
        out.push(#[verifier::truncate] (m as u8));
        proof {
            assert(out@ =~= old(out)@ + enc_strhead(n as int));
        }
    } else {
        let m = n as u64;
        out.push(0xdb);
        out.push(#[verifier::truncate] ((m >> 24) as u8));
        out.push(#[verifier::truncate] ((m >> 16) as u8));
        out.push(#[verifier::truncate] ((m >> 8) as u8));
        out.push(#[verifier::truncate] (m as u8));
        proof {
            assert(out@ =~= old(out)@ + enc_strhead(n as int));
        }
    }
}

fn enc_arrayhead_into(out: &mut Vec<u8>, n: usize)
    requires
        n < 0x100000000,
    ensures
        final(out)@ == old(out)@ + enc_arrayhead(n as int),
{
    if n < 16 {
        out.push(0x90 + (n as u8));
        proof {
            assert(out@ =~= old(out)@ + enc_arrayhead(n as int));
        }
    } else if n < 0x10000 {
        let m = n as u64;
        out.push(0xdc);
        out.push(#[verifier::truncate] ((m >> 8) as u8));
        out.push(#[verifier::truncate] (m as u8));
        proof {
            assert(out@ =~= old(out)@ + enc_arrayhead(n as int));
        }
    } else {
        let m = n as u64;
        out.push(0xdd);
        out.push(#[verifier::truncate] ((m >> 24) as u8));
        out.push(#[verifier::truncate] ((m >> 16) as u8));
        out.push(#[verifier::truncate] ((m >> 8) as u8));
        out.push(#[verifier::truncate] (m as u8));
        proof {
            assert(out@ =~= old(out)@ + enc_arrayhead(n as int));
        }
    }
}

fn enc_kstr_into(out: &mut Vec<u8>, k: &Vec<u8>)
    requires
        k@.len() < 0x100000000,
    ensures
        final(out)@ == old(out)@ + enc_kstr(k@),
{
    enc_strhead_into(out, k.len());
    push_all(out, k);
    proof {
        lemma_assoc(old(out)@, enc_strhead(k@.len() as int), k@);
    }
}

fn enc_str_into(out: &mut Vec<u8>, t: &str)
    requires
        str_encodable(t@),
    ensures
        final(out)@ == old(out)@ + enc_str(t@),
{
    let b = t.as_bytes_vec();
    proof {
        assert(b@ == encode_utf8(t@));
    }
    enc_strhead_into(out, b.len());
    push_all(out, &b);
    proof {
        lemma_assoc(old(out)@, enc_strhead(encode_utf8(t@).len() as int), encode_utf8(t@));
    }
}

fn enc_kind_into(out: &mut Vec<u8>, k: LicenseKind)
    ensures
        final(out)@ == old(out)@ + enc_kstr(kind_bytes(k)),
{
    match k {
        LicenseKind::Personal => {
            let v = kind_personal_vec();
            enc_kstr_into(out, &v);
        },
        LicenseKind::Business => {
            let v = kind_business_vec();
            enc_kstr_into(out, &v);
        },
    }
}

fn enc_product_into(out: &mut Vec<u8>, p: &LicensedProductData)
    requires
        str_encodable(p@.id),
    ensures
        final(out)@ == old(out)@ + enc_product(p@),
{
    let ghost base = out@;
    out.push(0x83);
    proof {
        assert(out@ =~= base + enc_maphead(3));
    }
    let k1 = key_id_vec();
    enc_kstr_into(out, &k1);
    proof {
        lemma_assoc(base, enc_maphead(3), enc_kstr(key_id()));
    }
    enc_str_into(out, p.id.as_str());
    proof {
        lemma_assoc(base, enc_maphead(3) + enc_kstr(key_id()), enc_str(p@.id));
    }
    let k2 = key_min_version_vec();
    enc_kstr_into(out, &k2);
    proof {
        lemma_assoc(base, enc_maphead(3) + enc_kstr(key_id()) + enc_str(p@.id),
            enc_kstr(key_min_version()));
    }
    enc_uint_into(out, p.min_version as u64);
    proof {
        lemma_assoc(base, enc_maphead(3) + enc_kstr(key_id()) + enc_str(p@.id) + enc_kstr(
            key_min_version()), enc_uint(p@.min_version as u64));
    }
    let k3 = key_max_version_vec();
    enc_kstr_into(out, &k3);
    proof {
        lemma_assoc(base, enc_maphead(3) + enc_kstr(key_id()) + enc_str(p@.id) + enc_kstr(
            key_min_version()) + enc_uint(p@.min_version as u64), enc_kstr(key_max_version()));
    }
    enc_uint_into(out, p.max_version as u64);
    proof {
        lemma_assoc(base, enc_maphead(3) + enc_kstr(key_id()) + enc_str(p@.id) + enc_kstr(
            key_min_version()) + enc_uint(p@.min_version as u64) + enc_kstr(key_max_version()),
            enc_uint(p@.max_version as u64));
    }
}

proof fn lemma_items_snoc(ps: Seq<ProductView>, i: int)
    requires
        0 <= i < ps.len(),
    ensures
        enc_products_items(ps.take(i + 1)) == enc_products_items(ps.take(i)) + enc_product(ps[i]),
    decreases i,
{
    if i == 0 {
        assert(ps.take(1).len() == 1);
        assert(ps.take(1)[0] == ps[0]);
        assert(ps.take(1).skip(1) =~= Seq::<ProductView>::empty());
        assert(enc_products_items(Seq::<ProductView>::empty()) == Seq::<u8>::empty());
        assert(enc_products_items(ps.take(1)) == enc_product(ps.take(1)[0]) + enc_products_items(
            ps.take(1).skip(1)));
        assert(enc_products_items(ps.take(1)) == enc_product(ps[0]) + Seq::<u8>::empty());
        assert(enc_product(ps[0]) + Seq::<u8>::empty() =~= enc_product(ps[0]));
        assert(ps.take(0) =~= Seq::<ProductView>::empty());
        assert(Seq::<u8>::empty() + enc_product(ps[0]) =~= enc_product(ps[0]));
    } else {
        let tail = ps.skip(1);
        lemma_items_snoc(tail, i - 1);
        assert(ps.take(i + 1)[0] == ps[0]);
        assert(ps.take(i + 1).skip(1) =~= tail.take(i));
        assert(ps.take(i).skip(1) =~= tail.take(i - 1));
        assert(ps.take(i)[0] == ps[0]);
        assert(tail[i - 1] == ps[i]);
        assert(enc_products_items(ps.take(i + 1)) == enc_product(ps[0]) + (enc_products_items(
            tail.take(i - 1)) + enc_product(ps[i])));
        lemma_assoc(enc_product(ps[0]), enc_products_items(tail.take(i - 1)), enc_product(ps[i]));
    }
}

fn enc_products_into(out: &mut Vec<u8>, ps: &Vec<LicensedProductData>)
    requires
        forall|k: int| 0 <= k < ps@.len() ==> str_encodable(#[trigger] ps@[k]@.id),
    ensures
        final(out)@ == old(out)@ + enc_products_items(ps@.map_values(|q: LicensedProductData| q@)),
{
    let ghost pv = ps@.map_values(|q: LicensedProductData| q@);
    let ghost base = out@;
    proof {
        assert(pv.take(0) =~= Seq::<ProductView>::empty());
        assert(base + enc_products_items(pv.take(0)) =~= base);
    }
    let mut idx: usize = 0;
    while idx < ps.len()
        invariant
            idx <= ps.len(),
            pv == ps@.map_values(|q: LicensedProductData| q@),
            pv.len() == ps@.len(),
            forall|k: int| 0 <= k < ps@.len() ==> str_encodable(#[trigger] ps@[k]@.id),
            out@ == base + enc_products_items(pv.take(idx as int)),
        decreases ps.len() - idx,
    {
        proof {
            assert(pv[idx as int] == ps@[idx as int]@);
        }
        enc_product_into(out, &ps[idx]);
        proof {
            lemma_items_snoc(pv, idx as int);
            lemma_assoc(base, enc_products_items(pv.take(idx as int)), enc_product(pv[idx as int]));
        }
        idx += 1;
    }
    proof {
        assert(pv.take(pv.len() as int) =~= pv);
    }
}

#[verifier::rlimit(100)]
fn enc_payload_into(out: &mut Vec<u8>, p: &LicensePayloadData)
    requires
        str_encodable(p@.name),
        str_encodable(p@.email),
        forall|k: int| 0 <= k < p@.products.len() ==> str_encodable(#[trigger] p@.products[k].id),
        p@.products.len() < 0x100000000,
    ensures
        final(out)@ == old(out)@ + enc_payload(p@),
{
    let ghost base = out@;
    let ghost m = enc_maphead(cnt_term(p@));
    match p.created_on {
        Some(_) => out.push(0x85),
        None => out.push(0x84),
    }
    proof {
        assert(out@ =~= base + m);
    }
    let k1 = key_name_vec();
    enc_kstr_into(out, &k1);
    proof {
        lemma_assoc(base, m, enc_kstr(key_name()));
    }
    enc_str_into(out, p.name.as_str());
    proof {
        lemma_assoc(base, m + enc_kstr(key_name()), enc_str(p@.name));
    }
    let k2 = key_email_vec();
    enc_kstr_into(out, &k2);
    proof {
        lemma_assoc(base, m + enc_kstr(key_name()) + enc_str(p@.name), enc_kstr(key_email()));
    }
    enc_str_into(out, p.email.as_str());
    proof {
        lemma_assoc(base, m + enc_kstr(key_name()) + enc_str(p@.name) + enc_kstr(key_email()),
            enc_str(p@.email));
    }
    let k3 = key_kind_vec();
    enc_kstr_into(out, &k3);
    proof {
        lemma_assoc(base, m + enc_kstr(key_name()) + enc_str(p@.name) + enc_kstr(key_email())
            + enc_str(p@.email), enc_kstr(key_kind()));
    }
    enc_kind_into(out, p.kind);
    proof {
        lemma_assoc(base, m + enc_kstr(key_name()) + enc_str(p@.name) + enc_kstr(key_email())
            + enc_str(p@.email) + enc_kstr(key_kind()), enc_kstr(kind_bytes(p@.kind)));
    }
    let ghost front = m + enc_kstr(key_name()) + enc_str(p@.name) + enc_kstr(key_email())
        + enc_str(p@.email) + enc_kstr(key_kind()) + enc_kstr(kind_bytes(p@.kind));
    let ghost xx = (match p@.created_on {
        Some(t) => enc_kstr(key_created_on()) + enc_uint(t),
        None => Seq::<u8>::empty(),
    });
    if let Some(t) = p.created_on {
        let k4 = key_created_on_vec();
        enc_kstr_into(out, &k4);
        proof {
            lemma_assoc(base, front, enc_kstr(key_created_on()));
        }
        enc_uint_into(out, t);
        proof {
            lemma_assoc(base, front + enc_kstr(key_created_on()), enc_uint(t));
            lemma_assoc(front, enc_kstr(key_created_on()), enc_uint(t));
            assert(out@ == base + (front + xx));
        }
    } else {
        proof {
            assert(front + xx =~= front);
            assert(out@ == base + (front + xx));
        }
    }
    proof {
        assert(out@ == base + front + xx) by {
            lemma_assoc(base, front, xx);
        }
    }
    let k5 = key_products_vec();
    enc_kstr_into(out, &k5);
    proof {
        lemma_assoc(base, front + xx, enc_kstr(key_products()));
    }
    enc_arrayhead_into(out, p.products.len());
    proof {
        lemma_assoc(base, front + xx + enc_kstr(key_products()), enc_arrayhead(
            p@.products.len() as int));
        assert(p@.products.len() == p.products@.len());
    }
    proof {
        assert forall|k: int| 0 <= k < p.products@.len() implies str_encodable(
            #[trigger] p.products@[k]@.id,
        ) by {
            assert(p@.products[k] == p.products@[k]@);
        }
    }
    enc_products_into(out, &p.products);
    proof {
        lemma_assoc(base, front + xx + enc_kstr(key_products()) + enc_arrayhead(
            p@.products.len() as int), enc_products_items(p@.products));
        assert(front + xx + enc_kstr(key_products()) + enc_arrayhead(p@.products.len() as int)
            + enc_products_items(p@.products) == enc_payload(p@));
    }
}

/// Encodes a record into its canonical v2 bytes.
pub(crate) fn v2_encode(d: &LicenseData) -> (r: Vec<u8>)
    requires
        v2_encodable(d@),
    ensures
        r@ == v2_encoding(d@),
{
    let mut out: Vec<u8> = Vec::new();
    let ghost base = out@;
    out.push(0x82);
    proof {
        assert(out@ =~= base + enc_maphead(2));
    }
    let k1 = key_payload_vec();
    enc_kstr_into(&mut out, &k1);
    proof {
        lemma_assoc(base, enc_maphead(2), enc_kstr(key_payload()));
    }
    enc_payload_into(&mut out, &d.payload);
    proof {
        lemma_assoc(base, enc_maphead(2) + enc_kstr(key_payload()), enc_payload(d@.payload));
    }
    let k2 = key_signature_vec();
    enc_kstr_into(&mut out, &k2);
    proof {
        lemma_assoc(base, enc_maphead(2) + enc_kstr(key_payload()) + enc_payload(d@.payload),
            enc_kstr(key_signature()));
    }
    enc_str_into(&mut out, d.signature.as_str());
    proof {
        lemma_assoc(base, enc_maphead(2) + enc_kstr(key_payload()) + enc_payload(d@.payload)
            + enc_kstr(key_signature()), enc_str(d@.signature));
        assert(base + v2_encoding(d@) =~= v2_encoding(d@));
    }
    out
}


// ---------------------------------------------------------------------------
// The executable decoder.  Each parser mirrors its spec twin, reading at
// index `i` of the input what the twin reads from the remaining bytes.
// ---------------------------------------------------------------------------
/// The text a parsed string slot holds, if it was filled.
pub open spec fn oview_str(o: Option<String>) -> Option<Seq<char>> {
    match o {
        Some(x) => Some(x@),
        None => None,
    }
}

/// The product models a parsed product slot holds, if it was filled.
pub open spec fn oview_products(o: Option<Vec<LicensedProductData>>) -> Option<Seq<ProductView>> {
    match o {
        Some(v) => Some(v@.map_values(|q: LicensedProductData| q@)),
        None => None,
    }
}

/// The payload model a parsed payload slot holds, if it was filled.
pub open spec fn oview_payload(o: Option<LicensePayloadData>) -> Option<PayloadView> {
    match o {
        Some(v) => Some(v@),
        None => None,
    }
}

fn copy_range(s: &Vec<u8>, i: usize, j: usize) -> (r: Vec<u8>)
    requires
        i <= j <= s@.len(),
    ensures
        r@ == s@.subrange(i as int, j as int),
{
    let mut v: Vec<u8> = Vec::new();
    let mut k: usize = i;
    while k < j
        invariant
            i <= k <= j <= s@.len(),
            v@ == s@.subrange(i as int, k as int),
        decreases j - k,
    {
        v.push(s[k]);
        proof {
            assert(v@ =~= s@.subrange(i as int, k + 1));
        }
        k += 1;
    }
    v
}

fn bytes_eq(s: &Vec<u8>, i: usize, j: usize, pat: &Vec<u8>) -> (r: bool)
    requires
        i <= j <= s@.len(),
    ensures
        r == (s@.subrange(i as int, j as int) == pat@),
{
    if j - i != pat.len() {
        proof {
            assert(s@.subrange(i as int, j as int).len() != pat@.len());
        }
        return false;
    }
    let mut k: usize = 0;
    while k < pat.len()
        invariant
            i <= j <= s@.len(),
            j - i == pat@.len(),
            k <= pat@.len(),
            forall|m: int| 0 <= m < k ==> s@.subrange(i as int, j as int)[m] == pat@[m],
        decreases pat@.len() - k,
    {
        if s[i + k] != pat[k] {
            proof {
                assert(s@.subrange(i as int, j as int)[k as int] != pat@[k as int]);
            }
            return false;
        }
        proof {
            assert(s@.subrange(i as int, j as int)[k as int] == pat@[k as int]);
        }
        k += 1;
    }
    proof {
        assert(s@.subrange(i as int, j as int) =~= pat@);
    }
    true
}

fn p_uint(s: &Vec<u8>, i: usize) -> (r: Option<(u64, usize)>)
    requires
        i <= s@.len(),
    ensures
        match r {
            Some((x, j)) => i <= j <= s@.len() && sp_uint(s@.skip(i as int)) == Some(
                (x, s@.skip(j as int)),
            ),
            None => sp_uint(s@.skip(i as int)) is None,
        },
{
    let ghost ss = s@.skip(i as int);
    proof {
        assert(ss.len() == s@.len() - i);
    }
    if i >= s.len() {
        return None;
    }
    let t = s[i];
    proof {
        assert(ss[0] == s@[i as int]);
    }
    if t < 0x80 {
        proof {
            assert(ss.skip(1) =~= s@.skip(i + 1));
        }
        Some(((t as u64), i + 1))
    } else if t == 0xcc {
        if s.len() - i >= 2 {
            proof {
                assert(ss[1] == s@[i + 1]);
                assert(ss.skip(2) =~= s@.skip(i + 2));
            }
            Some(((s[i + 1] as u64), i + 2))
        } else {
            None
        }
    } else if t == 0xcd {
        if s.len() - i >= 3 {
            proof {
                assert(ss[1] == s@[i + 1]);
                assert(ss[2] == s@[i + 2]);
                assert(ss.skip(3) =~= s@.skip(i + 3));
            }
            Some((((s[i + 1] as u64) << 8) | (s[i + 2] as u64), i + 3))
        } else {
            None
        }
    } else if t == 0xce {
        if s.len() - i >= 5 {
            proof {
                assert(ss[1] == s@[i + 1]);
                assert(ss[2] == s@[i + 2]);
                assert(ss[3] == s@[i + 3]);
                assert(ss[4] == s@[i + 4]);
                assert(ss.skip(5) =~= s@.skip(i + 5));
            }
            Some((
                ((s[i + 1] as u64) << 24) | ((s[i + 2] as u64) << 16) | ((s[i + 3] as u64) << 8) | (
                s[i + 4] as u64),
                i + 5,
            ))
        } else {
            None
        }
    } else if t == 0xcf {
        if s.len() - i >= 9 {
            proof {
                assert(ss[1] == s@[i + 1]);
                assert(ss[2] == s@[i + 2]);
                assert(ss[3] == s@[i + 3]);
                assert(ss[4] == s@[i + 4]);
                assert(ss[5] == s@[i + 5]);
                assert(ss[6] == s@[i + 6]);
                assert(ss[7] == s@[i + 7]);
                assert(ss[8] == s@[i + 8]);
                assert(ss.skip(9) =~= s@.skip(i + 9));
            }
            Some((
                ((s[i + 1] as u64) << 56) | ((s[i + 2] as u64) << 48) | ((s[i + 3] as u64) << 40)
                    | ((s[i + 4] as u64) << 32) | ((s[i + 5] as u64) << 24) | ((s[i + 6] as u64)
                    << 16) | ((s[i + 7] as u64) << 8) | (s[i + 8] as u64),
                i + 9,
            ))
        } else {
            None
        }
    } else {
        None
    }
}

fn p_strbytes(s: &Vec<u8>, i: usize) -> (r: Option<(usize, usize)>)
    requires
        i <= s@.len(),
    ensures
        match r {
            Some((cs, ce)) => i <= cs <= ce <= s@.len() && sp_strbytes(s@.skip(i as int)) == Some(
                (s@.subrange(cs as int, ce as int), s@.skip(ce as int)),
            ),
            None => sp_strbytes(s@.skip(i as int)) is None,
        },
{
    let ghost ss = s@.skip(i as int);
    proof {
        assert(ss.len() == s@.len() - i);
    }
    if i >= s.len() {
        return None;
    }
    let t = s[i];
    proof {
        assert(ss[0] == s@[i as int]);
    }
    let h: usize;
    let n64: u64;
    if 0xa0 <= t && t <= 0xbf {
        h = 1;
        n64 = (t - 0xa0) as u64;
    } else if t == 0xd9 {
        if s.len() - i < 2 {
            return None;
        }
        proof {
            assert(ss[1] == s@[i + 1]);
        }
        h = 2;
        n64 = s[i + 1] as u64;
    } else if t == 0xda {
        if s.len() - i < 3 {
            return None;
        }
        proof {
            assert(ss[1] == s@[i + 1]);
            assert(ss[2] == s@[i + 2]);
        }
        h = 3;
        n64 = ((s[i + 1] as u64) << 8) | (s[i + 2] as u64);
    } else if t == 0xdb {
        if s.len() - i < 5 {
            return None;
        }
        proof {
            assert(ss[1] == s@[i + 1]);
            assert(ss[2] == s@[i + 2]);
            assert(ss[3] == s@[i + 3]);
            assert(ss[4] == s@[i + 4]);
        }
        h = 5;
        n64 = ((s[i + 1] as u64) << 24) | ((s[i + 2] as u64) << 16) | ((s[i + 3] as u64) << 8) | (
        s[i + 4] as u64);
    } else {
        return None;
    }
    if ((s.len() - i - h) as u64) < n64 {
        proof {
            assert(ss.len() < h + n64);
        }
        return None;
    }
    let n = n64 as usize;
    let cs = i + h;
    let ce = cs + n;
    proof {
        assert(ss.subrange(h as int, h + n64 as int) =~= s@.subrange(cs as int, ce as int));
        assert(ss.skip(h + n64 as int) =~= s@.skip(ce as int));
    }
    Some((cs, ce))
}

fn p_str(s: &Vec<u8>, i: usize) -> (r: Option<(String, usize)>)
    requires
        i <= s@.len(),
    ensures
        match r {
            Some((t, j)) => i <= j <= s@.len() && sp_str(s@.skip(i as int)) == Some(
                (t@, s@.skip(j as int)),
            ),
            None => sp_str(s@.skip(i as int)) is None,
        },
{
    match p_strbytes(s, i) {
        None => None,
        Some((cs, ce)) => {
            let b = copy_range(s, cs, ce);
            match string_from_utf8(b) {
                Some(t) => Some((t, ce)),
                None => None,
            }
        },
    }
}

fn p_kind(s: &Vec<u8>, i: usize) -> (r: Option<(LicenseKind, usize)>)
    requires
        i <= s@.len(),
    ensures
        match r {
            Some((k, j)) => i <= j <= s@.len() && sp_kind(s@.skip(i as int)) == Some(
                (k, s@.skip(j as int)),
            ),
            None => sp_kind(s@.skip(i as int)) is None,
        },
{
    match p_strbytes(s, i) {
        None => None,
        Some((cs, ce)) => {
            let pv = kind_personal_vec();
            if bytes_eq(s, cs, ce, &pv) {
                return Some((LicenseKind::Personal, ce));
            }
            let bv = kind_business_vec();
            if bytes_eq(s, cs, ce, &bv) {
                return Some((LicenseKind::Business, ce));
            }
            None
        },
    }
}

fn p_maphead(s: &Vec<u8>, i: usize) -> (r: Option<(u64, usize)>)
    requires
        i <= s@.len(),
    ensures
        match r {
            Some((n, j)) => i <= j <= s@.len() && sp_maphead(s@.skip(i as int)) == Some(
                (n as int, s@.skip(j as int)),
            ),
            None => sp_maphead(s@.skip(i as int)) is None,
        },
{
    let ghost ss = s@.skip(i as int);
    proof {
        assert(ss.len() == s@.len() - i);
    }
    if i >= s.len() {
        return None;
    }
    let t = s[i];
    proof {
        assert(ss[0] == s@[i as int]);
    }
    if 0x80 <= t && t <= 0x8f {
        proof {
            assert(ss.skip(1) =~= s@.skip(i + 1));
        }
        Some((((t - 0x80) as u64), i + 1))
    } else if t == 0xde {
        if s.len() - i >= 3 {
            proof {
                assert(ss[1] == s@[i + 1]);
                assert(ss[2] == s@[i + 2]);
                assert(ss.skip(3) =~= s@.skip(i + 3));
            }
            Some((((s[i + 1] as u64) << 8) | (s[i + 2] as u64), i + 3))
        } else {
            None
        }
    } else if t == 0xdf {
        if s.len() - i >= 5 {
            proof {
                assert(ss[1] == s@[i + 1]);
                assert(ss[2] == s@[i + 2]);
                assert(ss[3] == s@[i + 3]);
                assert(ss[4] == s@[i + 4]);
                assert(ss.skip(5) =~= s@.skip(i + 5));
            }
            Some((
                ((s[i + 1] as u64) << 24) | ((s[i + 2] as u64) << 16) | ((s[i + 3] as u64) << 8) | (
                s[i + 4] as u64),
                i + 5,
            ))
        } else {
            None
        }
    } else {
        None
    }
}

fn p_arrayhead(s: &Vec<u8>, i: usize) -> (r: Option<(u64, usize)>)
    requires
        i <= s@.len(),
    ensures
        match r {
            Some((n, j)) => i <= j <= s@.len() && sp_arrayhead(s@.skip(i as int)) == Some(
                (n as int, s@.skip(j as int)),
            ),
            None => sp_arrayhead(s@.skip(i as int)) is None,
        },
{
    let ghost ss = s@.skip(i as int);
    proof {
        assert(ss.len() == s@.len() - i);
    }
    if i >= s.len() {
        return None;
    }
    let t = s[i];
    proof {
        assert(ss[0] == s@[i as int]);
    }
    if 0x90 <= t && t <= 0x9f {
        proof {
            assert(ss.skip(1) =~= s@.skip(i + 1));
        }
        Some((((t - 0x90) as u64), i + 1))
    } else if t == 0xdc {
        if s.len() - i >= 3 {
            proof {
                assert(ss[1] == s@[i + 1]);
                assert(ss[2] == s@[i + 2]);
                assert(ss.skip(3) =~= s@.skip(i + 3));
            }
            Some((((s[i + 1] as u64) << 8) | (s[i + 2] as u64), i + 3))
        } else {
            None
        }
    } else if t == 0xdd {
        if s.len() - i >= 5 {
            proof {
                assert(ss[1] == s@[i + 1]);
                assert(ss[2] == s@[i + 2]);
                assert(ss[3] == s@[i + 3]);
                assert(ss[4] == s@[i + 4]);
                assert(ss.skip(5) =~= s@.skip(i + 5));
            }
            Some((
                ((s[i + 1] as u64) << 24) | ((s[i + 2] as u64) << 16) | ((s[i + 3] as u64) << 8) | (
                s[i + 4] as u64),
                i + 5,
            ))
        } else {
            None
        }
    } else {
        None
    }
}

fn p_product_fields(
    s: &Vec<u8>,
    i: usize,
    n: u64,
    id: Option<String>,
    mn: Option<u32>,
    mx: Option<u32>,
) -> (r: Option<(LicensedProductData, usize)>)
    requires
        i <= s@.len(),
    ensures
        match r {
            Some((p, j)) => i <= j <= s@.len() && sp_product_fields(
                s@.skip(i as int),
                n as int,
                oview_str(id),
                mn,
                mx,
            ) == Some((p@, s@.skip(j as int))),
            None => sp_product_fields(s@.skip(i as int), n as int, oview_str(id), mn, mx) is None,
        },
    decreases n,
{
    if n == 0 {
        match (id, mn, mx) {
            (Some(idv), Some(a), Some(b)) => Some(
                (LicensedProductData { id: idv, min_version: a, max_version: b }, i),
            ),
            _ => None,
        }
    } else {
        match p_strbytes(s, i) {
            None => None,
            Some((cs, ce)) => {
                let k1 = key_id_vec();
                if bytes_eq(s, cs, ce, &k1) {
                    if id.is_some() {
                        return None;
                    }
                    match p_str(s, ce) {
                        None => None,
                        Some((v, j2)) => p_product_fields(s, j2, n - 1, Some(v), mn, mx),
                    }
                } else {
                    let k2 = key_min_version_vec();
                    if bytes_eq(s, cs, ce, &k2) {
                        if mn.is_some() {
                            return None;
                        }
                        match p_uint(s, ce) {
                            None => None,
                            Some((x, j2)) => if x <= (u32::MAX as u64) {
                                p_product_fields(s, j2, n - 1, id, Some(x as u32), mx)
                            } else {
                                None
                            },
                        }
                    } else {
                        let k3 = key_max_version_vec();
                        if bytes_eq(s, cs, ce, &k3) {
                            if mx.is_some() {
                                return None;
                            }
                            match p_uint(s, ce) {
                                None => None,
                                Some((x, j2)) => if x <= (u32::MAX as u64) {
                                    p_product_fields(s, j2, n - 1, id, mn, Some(x as u32))
                                } else {
                                    None
                                },
                            }
                        } else {
                            None
                        }
                    }
                }
            },
        }
    }
}

fn p_product(s: &Vec<u8>, i: usize) -> (r: Option<(LicensedProductData, usize)>)
    requires
        i <= s@.len(),
    ensures
        match r {
            Some((p, j)) => i <= j <= s@.len() && sp_product(s@.skip(i as int)) == Some(
                (p@, s@.skip(j as int)),
            ),
            None => sp_product(s@.skip(i as int)) is None,
        },
{
    match p_maphead(s, i) {
        None => None,
        Some((n, j)) => p_product_fields(s, j, n, None, None, None),
    }
}

fn p_products(s: &Vec<u8>, i: usize, n: u64) -> (r: Option<(Vec<LicensedProductData>, usize)>)
    requires
        i <= s@.len(),
    ensures
        match r {
            Some((ps, j)) => i <= j <= s@.len() && sp_products(s@.skip(i as int), n as int) == Some(
                (ps@.map_values(|q: LicensedProductData| q@), s@.skip(j as int)),
            ),
            None => sp_products(s@.skip(i as int), n as int) is None,
        },
    decreases n,
{
    if n == 0 {
        let ps: Vec<LicensedProductData> = Vec::new();
        proof {
            assert(ps@.map_values(|q: LicensedProductData| q@) =~= Seq::<ProductView>::empty());
        }
        Some((ps, i))
    } else {
        match p_product(s, i) {
            None => None,
            Some((p, j)) => {
                match p_products(s, j, n - 1) {
                    None => None,
                    Some((mut ps, j2)) => {
                        let ghost tailv = ps@;
                        ps.insert(0, p);
                        proof {
                            assert(ps@ =~= seq![p] + tailv);
                            assert(ps@.map_values(|q: LicensedProductData| q@) =~= seq![p@]
                                + tailv.map_values(|q: LicensedProductData| q@));
                        }
                        Some((ps, j2))
                    },
                }
            },
        }
    }
}

fn p_payload_fields(
    s: &Vec<u8>,
    i: usize,
    n: u64,
    name: Option<String>,
    email: Option<String>,
    kind: Option<LicenseKind>,
    created: Option<u64>,
    products: Option<Vec<LicensedProductData>>,
) -> (r: Option<(LicensePayloadData, usize)>)
    requires
        i <= s@.len(),
    ensures
        match r {
            Some((p, j)) => i <= j <= s@.len() && sp_payload_fields(
                s@.skip(i as int),
                n as int,
                oview_str(name),
                oview_str(email),
                kind,
                created,
                oview_products(products),
            ) == Some((p@, s@.skip(j as int))),
            None => sp_payload_fields(
                s@.skip(i as int),
                n as int,
                oview_str(name),
                oview_str(email),
                kind,
                created,
                oview_products(products),
            ) is None,
        },
    decreases n,
{
    if n == 0 {
        match (name, email, kind, products) {
            (Some(nm), Some(em), Some(kd), Some(ps)) => Some(
                (
                    LicensePayloadData {
                        name: nm,
                        email: em,
                        kind: kd,
                        created_on: created,
                        products: ps,
                    },
                    i,
                ),
            ),
            _ => None,
        }
    } else {
        match p_strbytes(s, i) {
            None => None,
            Some((cs, ce)) => {
                let k1 = key_name_vec();
                if bytes_eq(s, cs, ce, &k1) {
                    if name.is_some() {
                        return None;
                    }
                    match p_str(s, ce) {
                        None => None,
                        Some((v, j2)) => p_payload_fields(
                            s,
                            j2,
                            n - 1,
                            Some(v),
                            email,
                            kind,
                            created,
                            products,
                        ),
                    }
                } else {
                    let k2 = key_email_vec();
                    if bytes_eq(s, cs, ce, &k2) {
                        if email.is_some() {
                            return None;
                        }
                        match p_str(s, ce) {
                            None => None,
                            Some((v, j2)) => p_payload_fields(
                                s,
                                j2,
                                n - 1,
                                name,
                                Some(v),
                                kind,
                                created,
                                products,
                            ),
                        }
                    } else {
                        let k3 = key_kind_vec();
                        if bytes_eq(s, cs, ce, &k3) {
                            if kind.is_some() {
                                return None;
                            }
                            match p_kind(s, ce) {
                                None => None,
                                Some((v, j2)) => p_payload_fields(
                                    s,
                                    j2,
                                    n - 1,
                                    name,
                                    email,
                                    Some(v),
                                    created,
                                    products,
                                ),
                            }
                        } else {
                            let k4 = key_created_on_vec();
                            if bytes_eq(s, cs, ce, &k4) {
                                if created.is_some() {
                                    return None;
                                }
                                match p_uint(s, ce) {
                                    None => None,
                                    Some((x, j2)) => p_payload_fields(
                                        s,
                                        j2,
                                        n - 1,
                                        name,
                                        email,
                                        kind,
                                        Some(x),
                                        products,
                                    ),
                                }
                            } else {
                                let k5 = key_products_vec();
                                if bytes_eq(s, cs, ce, &k5) {
                                    if products.is_some() {
                                        return None;
                                    }
                                    match p_arrayhead(s, ce) {
                                        None => None,
                                        Some((cnt, j2)) => {
                                            match p_products(s, j2, cnt) {
                                                None => None,
                                                Some((ps, j3)) => p_payload_fields(
                                                    s,
                                                    j3,
                                                    n - 1,
                                                    name,
                                                    email,
                                                    kind,
                                                    created,
                                                    Some(ps),
                                                ),
                                            }
                                        },
                                    }
                                } else {
                                    None
                                }
                            }
                        }
                    }
                }
            },
        }
    }
}

fn p_payload(s: &Vec<u8>, i: usize) -> (r: Option<(LicensePayloadData, usize)>)
    requires
        i <= s@.len(),
    ensures
        match r {
            Some((p, j)) => i <= j <= s@.len() && sp_payload(s@.skip(i as int)) == Some(
                (p@, s@.skip(j as int)),
            ),
            None => sp_payload(s@.skip(i as int)) is None,
        },
{
    match p_maphead(s, i) {
        None => None,
        Some((n, j)) => p_payload_fields(s, j, n, None, None, None, None, None),
    }
}

fn p_license_fields(
    s: &Vec<u8>,
    i: usize,
    n: u64,
    payload: Option<LicensePayloadData>,
    signature: Option<String>,
) -> (r: Option<(LicenseData, usize)>)
    requires
        i <= s@.len(),
    ensures
        match r {
            Some((d, j)) => i <= j <= s@.len() && sp_license_fields(
                s@.skip(i as int),
                n as int,
                oview_payload(payload),
                oview_str(signature),
            ) == Some((d@, s@.skip(j as int))),
            None => sp_license_fields(
                s@.skip(i as int),
                n as int,
                oview_payload(payload),
                oview_str(signature),
            ) is None,
        },
    decreases n,
{
    if n == 0 {
        match (payload, signature) {
            (Some(p), Some(sig)) => Some((LicenseData { payload: p, signature: sig }, i)),
            _ => None,
        }
    } else {
        match p_strbytes(s, i) {
            None => None,
            Some((cs, ce)) => {
                let k1 = key_payload_vec();
                if bytes_eq(s, cs, ce, &k1) {
                    if payload.is_some() {
                        return None;
                    }
                    match p_payload(s, ce) {
                        None => None,
                        Some((v, j2)) => p_license_fields(s, j2, n - 1, Some(v), signature),
                    }
                } else {
                    let k2 = key_signature_vec();
                    if bytes_eq(s, cs, ce, &k2) {
                        if signature.is_some() {
                            return None;
                        }
                        match p_str(s, ce) {
                            None => None,
                            Some((v, j2)) => p_license_fields(s, j2, n - 1, payload, Some(v)),
                        }
                    } else {
                        None
                    }
                }
            },
        }
    }
}

fn p_license(s: &Vec<u8>, i: usize) -> (r: Option<(LicenseData, usize)>)
    requires
        i <= s@.len(),
    ensures
        match r {
            Some((d, j)) => i <= j <= s@.len() && sp_license(s@.skip(i as int)) == Some(
                (d@, s@.skip(j as int)),
            ),
            None => sp_license(s@.skip(i as int)) is None,
        },
{
    match p_maphead(s, i) {
        None => None,
        Some((n, j)) => p_license_fields(s, j, n, None, None),
    }
}

/// Decodes v2 bytes into a record, or nothing on structurally invalid bytes.
pub(crate) fn v2_decode(b: &Vec<u8>) -> (r: Option<LicenseData>)
    ensures
        match r {
            Some(d) => v2_decoding(b@) == Some(d@),
            None => v2_decoding(b@) is None,
        },
{
    proof {
        assert(b@.skip(0) =~= b@);
    }
    match p_license(b, 0) {
        None => None,
        Some((d, j)) => if j == b.len() {
            proof {
                assert(b@.skip(j as int).len() == 0);
            }
            Some(d)
        } else {
            proof {
                assert(b@.skip(j as int).len() > 0);
            }
            None
        },
    }
}

} // verus!
