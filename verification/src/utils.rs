//! Viewing-key helpers: constant-time comparison and password hashing.
use vstd::prelude::*;
use vstd::string::StringSliceAdditionalSpecFns;
use crate::rng::{sha256, sha256_of};

verus! {

/// Length of a hashed viewing key.
pub const VIEWING_KEY_SIZE: usize = 32;

/// Relies on subtle::ConstantTimeEq for [u8]: true exactly when the two
/// slices are equal, in time independent of the contents.
#[verifier::external_body]
fn ct_eq_bytes(s1: &[u8], s2: &[u8]) -> (r: bool)
    ensures
        r == (s1@ == s2@),
{
    bool::from(subtle::ConstantTimeEq::ct_eq(s1, s2))
}

/// Constant-time equality of two byte slices.
pub fn ct_slice_compare(s1: &[u8], s2: &[u8]) -> (r: bool)
    ensures
        r == (s1@ == s2@),
{
    ct_eq_bytes(s1, s2)
}

/// The 32-byte hash a viewing-key password is stored and compared as.
pub fn create_hashed_password(s1: &str) -> (r: Vec<u8>)
    ensures
        r@ == sha256_of(s1.spec_bytes()),
        r@.len() == VIEWING_KEY_SIZE as int,
{
    sha256(s1.as_bytes())
}

} // verus!
