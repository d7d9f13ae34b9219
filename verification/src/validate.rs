//! Validation rules: pure predicates over the persisted data model.
//!
//! A payload record is valid iff all its own rules pass and every contained
//! product record is valid; a license record is valid iff its payload record
//! and its own signature rule are valid.  Checking never mutates input; it
//! reports the first rule that fails, in field order.

use vstd::prelude::*;
use crate::data::{LicenseData, LicenseDataView, LicensePayloadData, LicensedProductData,
    PayloadView, ProductView};

verus! {

/// Which field a validation rule failed on.
#[derive(Clone, Copy, PartialEq, Eq, Structural, Hash, Debug)]
pub enum Field {
    Name,
    Email,
    Products,
    ProductId,
    ProductVersions,
    Signature,
}

/// A structured validation failure: which rule failed, on which field.
#[derive(Clone, Copy, PartialEq, Eq, Structural, Hash, Debug)]
pub enum ValidationError {
    /// A text field that must not be empty is empty.
    EmptyField(Field),
    /// A field does not match its grammar.
    InvalidFormat(Field),
    /// A collection that must not be empty is empty.
    EmptyCollection(Field),
    /// A minimum exceeds its maximum.
    InvalidRange(Field),
}

/// `i` splits `s` as an email address: the single `'@'` stands at `i` with a
/// non-empty local part before it, and the domain after it holds a `'.'`
/// that is neither its first nor its last character.
pub open spec fn email_split_at(s: Seq<char>, i: int) -> bool {
    &&& 1 <= i < s.len()
    &&& s[i] == '@'
    &&& (forall|k: int| 0 <= k < s.len() && s[k] == '@' ==> k == i)
    &&& (exists|j: int| i + 2 <= j <= s.len() - 2 && s[j] == '.')
}

/// The email grammar this layer enforces: local-part `'@'` domain, with at
/// minimum one interior `'.'` in the domain.
pub open spec fn valid_email(s: Seq<char>) -> bool {
    exists|i: int| email_split_at(s, i)
}

/// Validation of one product record: non-empty id, minimum not above
/// maximum.
pub open spec fn product_check(p: ProductView) -> Result<(), ValidationError> {
    if p.id.len() == 0 {
        Err(ValidationError::EmptyField(Field::ProductId))
    } else if p.min_version > p.max_version {
        Err(ValidationError::InvalidRange(Field::ProductVersions))
    } else {
        Ok(())
    }
}

/// First failure among the product records, in order.
pub open spec fn products_check(ps: Seq<ProductView>) -> Result<(), ValidationError>
    decreases ps.len(),
{
    if ps.len() == 0 {
        Ok(())
    } else {
        match product_check(ps[0]) {
            Err(e) => Err(e),
            Ok(()) => products_check(ps.skip(1)),
        }
    }
}

/// Validation of a payload record: its own rules, then every product.
pub open spec fn payload_check(p: PayloadView) -> Result<(), ValidationError> {
    if p.name.len() == 0 {
        Err(ValidationError::EmptyField(Field::Name))
    } else if !valid_email(p.email) {
        Err(ValidationError::InvalidFormat(Field::Email))
    } else if p.products.len() == 0 {
        Err(ValidationError::EmptyCollection(Field::Products))
    } else {
        products_check(p.products)
    }
}

/// Validation of a license record: its payload, then the signature text.
pub open spec fn license_check(d: LicenseDataView) -> Result<(), ValidationError> {
    match payload_check(d.payload) {
        Err(e) => Err(e),
        Ok(()) => if d.signature.len() == 0 {
            Err(ValidationError::EmptyField(Field::Signature))
        } else {
            Ok(())
        },
    }
}

/// Checks whether `s` is a well-formed email address under this layer's
/// grammar.
pub fn check_email(s: &str) -> (ok: bool)
    ensures
        ok == valid_email(s@),
{
    let n = s.unicode_len();
    let mut at_pos: usize = 0;
    let mut seen: bool = false;
    let mut i: usize = 0;
    while i < n
        invariant
            n == s@.len(),
            i <= n,
            !seen ==> forall|k: int| 0 <= k < i ==> s@[k] != '@',
            seen ==> at_pos < i && s@[at_pos as int] == '@',
            seen ==> forall|k: int| 0 <= k < i && s@[k] == '@' ==> k == at_pos,
        decreases n - i,
    {
        if s.get_char(i) == '@' {
            if seen {
                // A second '@': no split position can be the single one.
                proof {
                    assert forall|i0: int| !email_split_at(s@, i0) by {
                        if email_split_at(s@, i0) {
                            assert(at_pos == i0);
                            assert(i == i0);
                        }
                    }
                }
                return false;
            }
            seen = true;
            at_pos = i;
        }
        i += 1;
    }
    if !seen {
        proof {
            assert forall|i0: int| !email_split_at(s@, i0) by {}
        }
        return false;
    }
    if at_pos == 0 {
        proof {
            assert forall|i0: int| !email_split_at(s@, i0) by {
                if email_split_at(s@, i0) {
                    assert(i0 == 0);
                }
            }
        }
        return false;
    }
    if n - at_pos < 4 {
        // The domain is too short to hold an interior '.'.
        proof {
            assert forall|i0: int| !email_split_at(s@, i0) by {
                if email_split_at(s@, i0) {
                    assert(i0 == at_pos);
                }
            }
        }
        return false;
    }
    let mut j: usize = at_pos + 2;
    while j <= n - 2
        invariant
            n == s@.len(),
            1 <= at_pos < n,
            s@[at_pos as int] == '@',
            forall|k: int| 0 <= k < n && s@[k] == '@' ==> k == at_pos,
            at_pos + 2 <= j,
            forall|k: int| at_pos + 2 <= k < j ==> s@[k] != '.',
        decreases n - j,
    {
        if s.get_char(j) == '.' {
            assert(email_split_at(s@, at_pos as int));
            return true;
        }
        j += 1;
    }
    proof {
        assert forall|i0: int| !email_split_at(s@, i0) by {
            if email_split_at(s@, i0) {
                assert(i0 == at_pos);
            }
        }
    }
    false
}

/// Validation of one product record.
pub fn validate_product(product: &LicensedProductData) -> (r: Result<(), ValidationError>)
    ensures
        r == product_check(product@),
{
    if product.id.as_str().is_empty() {
        Err(ValidationError::EmptyField(Field::ProductId))
    } else if product.min_version > product.max_version {
        Err(ValidationError::InvalidRange(Field::ProductVersions))
    } else {
        Ok(())
    }
}

proof fn lemma_products_check_skip(ps: Seq<ProductView>, i: int)
    requires
        0 <= i <= ps.len(),
        forall|k: int| 0 <= k < i ==> product_check(#[trigger] ps[k]) is Ok,
    ensures
        products_check(ps) == products_check(ps.skip(i)),
    decreases i,
{
    if i > 0 {
        assert(product_check(ps[0]) is Ok);
        lemma_products_check_skip(ps.skip(1), i - 1);
        assert(ps.skip(1).skip(i - 1) =~= ps.skip(i));
    } else {
        assert(ps.skip(0) =~= ps);
    }
}

impl LicensePayloadData {
    /// Runs the payload's validation rules, reporting the first failure.
    pub fn validate(&self) -> (r: Result<(), ValidationError>)
        ensures
            r == payload_check(self@),
    {
        if self.name.as_str().is_empty() {
            return Err(ValidationError::EmptyField(Field::Name));
        }
        if !check_email(self.email.as_str()) {
            return Err(ValidationError::InvalidFormat(Field::Email));
        }
        if self.products.len() == 0 {
            return Err(ValidationError::EmptyCollection(Field::Products));
        }
        let ghost ps = self@.products;
        let mut idx: usize = 0;
        while idx < self.products.len()
            invariant
                self@.name.len() != 0,
                valid_email(self@.email),
                self@.products.len() != 0,
                ps == self@.products,
                ps.len() == self.products.len(),
                idx <= self.products.len(),
                forall|k: int| 0 <= k < idx ==> product_check(#[trigger] ps[k]) is Ok,
            decreases self.products.len() - idx,
        {
            let r = validate_product(&self.products[idx]);
            proof {
                assert(ps[idx as int] == self.products@[idx as int]@);
            }
            if let Err(e) = r {
                proof {
                    lemma_products_check_skip(ps, idx as int);
                    assert(ps.skip(idx as int).len() == ps.len() - idx);
                    assert(ps.skip(idx as int)[0] == ps[idx as int]);
                    assert(products_check(ps.skip(idx as int)) == Err::<(), ValidationError>(e));
                }
                return Err(e);
            }
            idx += 1;
        }
        proof {
            lemma_products_check_skip(ps, ps.len() as int);
            assert(ps.skip(ps.len() as int) =~= Seq::<ProductView>::empty());
        }
        Ok(())
    }
}

impl LicenseData {
    /// Runs the license record's validation rules, reporting the first
    /// failure.
    pub fn validate(&self) -> (r: Result<(), ValidationError>)
        ensures
            r == license_check(self@),
    {
        match self.payload.validate() {
            Err(e) => Err(e),
            Ok(()) => if self.signature.as_str().is_empty() {
                Err(ValidationError::EmptyField(Field::Signature))
            } else {
                Ok(())
            },
        }
    }
}

} // verus!
