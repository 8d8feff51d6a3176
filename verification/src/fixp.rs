//! Small arithmetic facts about integer division used by the fixed-point
//! computations of the DSP, effect and colour code.

use vstd::prelude::*;

verus! {

/// A quotient stays under a bound that holds of the numerator in multiples
/// of the divisor: `num <= c * d` gives `num / d <= c`.
pub proof fn lemma_div_le_const(num: int, c: int, d: int)
    requires
        d >= 1,
        0 <= num <= c * d,
    ensures
        num / d <= c,
{
    vstd::arithmetic::div_mod::lemma_div_is_ordered(num, c * d, d);
    vstd::arithmetic::mul::lemma_mul_is_commutative(c, d);
    vstd::arithmetic::div_mod::lemma_div_multiples_vanish(c, d);
}

/// A strict form: `num < q * d` gives `num / d < q`.
pub proof fn lemma_div_lt(num: int, q: int, d: int)
    requires
        d >= 1,
        0 <= num,
        num < q * d,
    ensures
        num / d < q,
{
    vstd::arithmetic::div_mod::lemma_div_is_ordered(num, q * d - 1, d);
    assert(q * d - 1 == (q - 1) * d + (d - 1)) by (nonlinear_arith);
    vstd::arithmetic::div_mod::lemma_fundamental_div_mod_converse(q * d - 1, d, q - 1, d - 1);
}

/// Multiplying by a factor no larger than the divisor cannot grow a value:
/// `b <= d` gives `a * b / d <= a`.
pub proof fn lemma_mul_div_le(a: int, b: int, d: int)
    requires
        d >= 1,
        0 <= a,
        0 <= b <= d,
    ensures
        a * b / d <= a,
{
    assert(a * b <= a * d) by (nonlinear_arith)
        requires
            0 <= a,
            b <= d,
    ;
    lemma_div_le_const(a * b, a, d);
}

/// Scales `a` by the ratio `b / d`, rounding down.  The result does not
/// exceed `a` when `b <= d`.
pub fn mul_div(a: u32, b: u32, d: u32) -> (r: u32)
    requires
        d >= 1,
        b <= d,
    ensures
        r as int == (a as int * b as int) / (d as int),
        r <= a,
{
    proof {
        lemma_mul_div_le(a as int, b as int, d as int);
        vstd::arithmetic::mul::lemma_mul_upper_bound(a as int, u32::MAX as int, b as int, u32::MAX as int);
    }
    ((a as u64 * b as u64) / (d as u64)) as u32
}

} // verus!
