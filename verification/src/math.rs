//! Wide-integer-safe multiply-then-divide, and the small arithmetic facts
//! the weighted splits rely on.

use vstd::prelude::*;
use vstd::arithmetic::div_mod::lemma_div_is_ordered;
use vstd::arithmetic::div_mod::lemma_div_by_multiple;
use vstd::arithmetic::mul::lemma_mul_inequality;

verus! {

/// Relies on `cosmwasm_std::Uint128::multiply_ratio`: it returns the full
/// 256-bit product `amount * numerator` divided by `denominator`, floored,
/// and panics only on a zero denominator or when that floored quotient does
/// not fit in a `u128` — both ruled out here.
#[verifier::external_body]
pub fn multiply_ratio(amount: u128, numerator: u128, denominator: u128) -> (r: u128)
    requires
        denominator > 0,
        (amount * numerator) / (denominator as int) <= u128::MAX,
    ensures
        r == (amount * numerator) / (denominator as int),
{
    cosmwasm_std::Uint128::new(amount).multiply_ratio(numerator, denominator).u128()
}

/// A share of at most the whole divided by the whole never exceeds the
/// amount being split: `a * b / c <= a` when `b <= c`.
pub proof fn lemma_ratio_le(a: int, b: int, c: int)
    requires
        0 <= a,
        0 <= b <= c,
        0 < c,
    ensures
        (a * b) / c <= a,
{
    lemma_mul_inequality(b, c, a);
    assert(a * b == b * a) by (nonlinear_arith);
    assert(a * c == c * a) by (nonlinear_arith);
    lemma_div_is_ordered(a * b, a * c, c);
    lemma_div_by_multiple(a, c);
}

} // verus!
