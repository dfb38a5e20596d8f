//! The prime field whose elements fill traces and public inputs, modelled as
//! canonical integers below the modulus.

use vstd::prelude::*;

verus! {

/// The BabyBear prime modulus, 2^31 - 2^27 + 1.
pub const FIELD_MODULUS: u64 = 2013265921;

/// A canonical field element: an integer strictly below the modulus.
pub open spec fn is_field_element(x: u64) -> bool {
    x < FIELD_MODULUS
}

/// Addition in the prime field on canonical representatives.
pub fn field_add(a: u64, b: u64) -> (r: u64)
    requires
        is_field_element(a),
        is_field_element(b),
    ensures
        r == (a + b) % (FIELD_MODULUS as int),
        is_field_element(r),
{
    (a + b) % FIELD_MODULUS
}

} // verus!
