//! The Barrett reduction parameter of a modulus.
//!
//! The parameter is a function of the modulus alone, and two different
//! moduli never have the same parameter: one computed for a modulus is of no
//! use with another.

use crate::natural::{
    be_bytes, be_value, bit_length, is_zero, lemma_bit_length_bounds, minimal_bytes,
};
use crate::primitives::{barrett_parameter, barrett_reduction_parameter};
use vstd::arithmetic::div_mod::*;
use vstd::arithmetic::mul::*;
use vstd::arithmetic::power2::*;
use vstd::prelude::*;

verus! {

/// The parameter of a modulus of `k` bits lies above `2^(k+4)` and is at most `2^(k+5)`.
pub proof fn lemma_barrett_bounds(modulus: nat)
    requires
        modulus > 0,
    ensures
        pow2(bit_length(modulus) + 4) < barrett_parameter(modulus) <= pow2(
            bit_length(modulus) + 5,
        ),
{
    let k = bit_length(modulus);
    lemma_bit_length_bounds(modulus);
    let whole = pow2(2 * k + 4);
    let floor = pow2((k - 1) as nat);
    let ceiling = pow2(k);
    let low = pow2(k + 4);
    let high = pow2(k + 5);
    lemma_pow2_pos((k - 1) as nat);
    lemma_pow2_pos(k);
    lemma_pow2_pos(k + 4);
    lemma_pow2_adds((k - 1) as nat, k + 5);
    lemma_pow2_adds(k, k + 4);
    assert(whole == floor * high);
    assert(whole == ceiling * low);
    // At most: the least modulus of k bits gives the largest parameter.
    lemma_div_is_ordered_by_denominator(whole as int, floor as int, modulus as int);
    lemma_div_multiples_vanish(high as int, floor as int);
    assert(whole / floor == high);
    // Above: the modulus times one more than the lower bound still fits.
    if k < k + 4 {
        lemma_pow2_strictly_increases(k, k + 4);
    }
    assert(modulus * (low + 1) <= whole) by (nonlinear_arith)
        requires
            modulus <= ceiling - 1,
            ceiling <= low,
            whole == ceiling * low,
            modulus > 0,
    ;
    lemma_div_is_ordered((modulus * (low + 1)) as int, whole as int, modulus as int);
    lemma_div_multiples_vanish((low + 1) as int, modulus as int);
}

/// Different moduli have different parameters.
pub proof fn lemma_barrett_distinct(first: nat, second: nat)
    requires
        first > 0,
        second > 0,
        first != second,
    ensures
        barrett_parameter(first) != barrett_parameter(second),
{
    if first < second {
        lemma_barrett_ordered(first, second);
    } else {
        lemma_barrett_ordered(second, first);
    }
}

/// The smaller of two moduli has the parameter that differs from the other's.
proof fn lemma_barrett_ordered(small: nat, large: nat)
    requires
        0 < small < large,
    ensures
        barrett_parameter(small) != barrett_parameter(large),
{
    let k_small = bit_length(small);
    let k_large = bit_length(large);
    lemma_barrett_bounds(small);
    lemma_barrett_bounds(large);
    lemma_bit_length_bounds(small);
    lemma_bit_length_bounds(large);
    if k_small == k_large {
        let k = k_small;
        let whole = pow2(2 * k + 4);
        let q_small = barrett_parameter(small);
        let q_large = barrett_parameter(large);
        if q_small == q_large {
            let q = q_small;
            lemma_fundamental_div_mod(whole as int, small as int);
            lemma_fundamental_div_mod(whole as int, large as int);
            lemma_mod_bound(whole as int, small as int);
            lemma_mod_bound(whole as int, large as int);
            let r_small = whole % small;
            let r_large = whole % large;
            assert(q < small) by (nonlinear_arith)
                requires
                    whole == small * q + r_small,
                    whole == large * q + r_large,
                    0 <= r_small < small,
                    0 <= r_large,
                    small < large,
                    q >= 0,
            ;
            if k < k + 4 {
                lemma_pow2_strictly_increases(k, k + 4);
            }
            assert(false);
        }
    } else {
        // A modulus of fewer bits is the smaller one.
        if k_small > k_large {
            if k_large < k_small - 1 {
                lemma_pow2_strictly_increases(k_large, (k_small - 1) as nat);
            }
            assert(false);
        }
        if k_small + 5 < k_large + 4 {
            lemma_pow2_strictly_increases(k_small + 5, k_large + 4);
        }
    }
}

/// Computes the Barrett reduction parameter of a modulus, as the shortest
/// byte string of its number; nothing for the modulus zero.
pub fn compute_barrett(modulus: &[u8]) -> (parameter: Option<Vec<u8>>)
    ensures
        parameter is None <==> be_value(modulus@) == 0,
        parameter matches Some(bytes) ==> bytes@ == be_bytes(
            barrett_parameter(be_value(modulus@)),
        ),
{
    if is_zero(modulus) {
        None
    } else {
        let parameter = barrett_reduction_parameter(modulus);
        Some(minimal_bytes(parameter.as_slice()))
    }
}

} // verus!
