//! Fixed-point and ratio arithmetic on plain integers.
//!
//! A reward index is a decimal with 18 fractional digits, held as its
//! atomics: the value times `DECIMAL_FRACTIONAL`.
use vstd::prelude::*;

use cosmwasm_std::{Decimal, Uint128};

verus! {

/// One whole unit of a reward index, in atomics (10^18).
pub const DECIMAL_FRACTIONAL: u128 = 1_000_000_000_000_000_000;

/// `floor(a * b / c)`, the exact product-then-divide on unbounded integers.
pub open spec fn ratio_floor(a: int, b: int, c: int) -> int {
    (a * b) / c
}

/// Relies on `Uint128::checked_multiply_ratio`: `floor(a * b / c)` computed in
/// 256 bits, an error where that quotient exceeds `u128::MAX`.
#[verifier::external_body]
pub(crate) fn multiply_ratio(a: u128, b: u128, c: u128) -> (r: Option<u128>)
    requires
        c > 0,
    ensures
        ratio_floor(a as int, b as int, c as int) <= u128::MAX ==> r == Some(
            ratio_floor(a as int, b as int, c as int) as u128,
        ),
        ratio_floor(a as int, b as int, c as int) > u128::MAX ==> r is None,
{
    match Uint128::new(a).checked_multiply_ratio(b, c) {
        Ok(v) => Some(v.u128()),
        Err(_) => None,
    }
}

/// Relies on `Decimal::checked_from_ratio`: the decimal `num / den` floored to
/// 18 fractional digits, returned as atomics; an error where they exceed
/// `u128::MAX`.
#[verifier::external_body]
pub(crate) fn decimal_from_ratio(num: u128, den: u128) -> (r: Option<u128>)
    requires
        den > 0,
    ensures
        ratio_floor(num as int, DECIMAL_FRACTIONAL as int, den as int) <= u128::MAX ==> r
            == Some(ratio_floor(num as int, DECIMAL_FRACTIONAL as int, den as int) as u128),
        ratio_floor(num as int, DECIMAL_FRACTIONAL as int, den as int) > u128::MAX ==> r is None,
{
    match Decimal::checked_from_ratio(num, den) {
        Ok(d) => Some(d.atomics().u128()),
        Err(_) => None,
    }
}

/// Relies on `Uint128::checked_mul_floor` with a `Decimal`: `amount` times the
/// decimal whose atomics are `index`, floored; an error where the product
/// exceeds `u128::MAX`.
#[verifier::external_body]
pub(crate) fn mul_floor(amount: u128, index: u128) -> (r: Option<u128>)
    ensures
        ratio_floor(amount as int, index as int, DECIMAL_FRACTIONAL as int) <= u128::MAX ==> r
            == Some(ratio_floor(amount as int, index as int, DECIMAL_FRACTIONAL as int) as u128),
        ratio_floor(amount as int, index as int, DECIMAL_FRACTIONAL as int) > u128::MAX ==> r is None,
{
    match Uint128::new(amount).checked_mul_floor(Decimal::raw(index)) {
        Ok(v) => Some(v.u128()),
        Err(_) => None,
    }
}

/// A ratio below one never scales an amount up.
pub proof fn lemma_ratio_at_most(a: int, b: int, c: int)
    requires
        0 <= a,
        0 <= b <= c,
        c > 0,
    ensures
        0 <= ratio_floor(a, b, c) <= a,
{
    assert(0 <= a * b <= a * c) by (nonlinear_arith)
        requires 0 <= a, 0 <= b <= c;
    assert(0 <= (a * b) / c <= (a * c) / c) by (nonlinear_arith)
        requires 0 <= a * b <= a * c, c > 0;
    assert((a * c) / c == a) by (nonlinear_arith)
        requires c > 0;
}

} // verus!
