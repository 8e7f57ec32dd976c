//! The limb codec: a natural number as a row of 120-bit limbs, least
//! significant limb first, and back.
//!
//! A limb is a `u128` below `2^120`. A row of limbs denotes
//! [`limbs_value`], the sum of `limbs[i] * 2^(120 i)`. For a declared width of
//! `total_bits` the row has [`limb_count`] limbs whatever the number's size.

use crate::error::RsaError;
use crate::natural::{
    be_bytes, be_value, fits_in_bits, lemma_be_value_bound, lemma_be_value_split, minimal_bytes,
};
use vstd::arithmetic::div_mod::*;
use vstd::arithmetic::mul::*;
use vstd::arithmetic::power2::*;
use vstd::prelude::*;

verus! {

/// The width of one limb in bits.
pub const LIMB_BITS: usize = 120;

/// The width of one limb in bytes.
pub const LIMB_BYTES: usize = 15;

/// The least number that is too large for one limb, `2^120`.
pub const LIMB_BOUND: u128 = 0x1000000000000000000000000000000;

/// The number of limbs of a row of the declared width: `total_bits / 120`, rounded up.
pub open spec fn limb_count(total_bits: nat) -> nat {
    (total_bits + 119) / 120
}

/// The limb of `value` at place `index`: its bits from `120 index` up to `120 index + 119`.
pub open spec fn limb_of(value: nat, index: nat) -> nat {
    (value / pow2(120 * index)) % pow2(120)
}

/// The `count` lowest limbs of `value`, least significant first.
pub open spec fn low_limbs(value: nat, count: nat) -> Seq<u128> {
    Seq::new(count, |i: int| limb_of(value, i as nat) as u128)
}

/// The number that a row of limbs denotes.
pub open spec fn limbs_value(limbs: Seq<u128>) -> nat
    decreases limbs.len(),
{
    if limbs.len() == 0 {
        0
    } else {
        limbs[0] as nat + pow2(120) * limbs_value(limbs.drop_first())
    }
}

/// Whether every limb of the row is below `2^120`.
pub open spec fn limbs_bounded(limbs: Seq<u128>) -> bool {
    forall|i: int| 0 <= i < limbs.len() ==> limbs[i] < LIMB_BOUND
}

/// The values of the two powers of two that bound a limb and its first fourteen bytes.
pub proof fn lemma_limb_powers()
    ensures
        pow2(120) == 0x1000000000000000000000000000000,
        pow2(112) == 0x10000000000000000000000000000,
        pow2(120) == LIMB_BOUND,
{
    lemma2_to64();
    lemma2_to64_rest();
    lemma_pow2_adds(60, 60);
    lemma_pow2_adds(56, 56);
}

/// Every limb of a number is below `2^120`.
pub proof fn lemma_limb_of_bound(value: nat, index: nat)
    ensures
        limb_of(value, index) < pow2(120),
        limb_of(value, index) < LIMB_BOUND,
{
    lemma_limb_powers();
    lemma_pow2_pos(120);
    lemma_mod_bound((value / pow2(120 * index)) as int, pow2(120) as int);
}

/// The limbs of a number above its lowest limb are the limbs of the number shifted down by one limb.
pub proof fn lemma_limb_of_shift(value: nat, index: nat)
    ensures
        limb_of(value, index + 1) == limb_of(value / pow2(120), index),
{
    lemma_pow2_pos(120);
    lemma_pow2_pos(120 * index);
    lemma_pow2_adds(120, 120 * index);
    assert(120 * (index + 1) == 120 + 120 * index);
    lemma_div_denominator(value as int, pow2(120) as int, pow2(120 * index) as int);
}

/// A row of low limbs denotes the number reduced modulo two to the row's width.
pub proof fn lemma_low_limbs_value(value: nat, count: nat)
    ensures
        limbs_value(low_limbs(value, count)) == value % pow2(120 * count),
        limbs_bounded(low_limbs(value, count)),
    decreases count,
{
    let row = low_limbs(value, count);
    assert forall|i: int| 0 <= i < row.len() implies row[i] < LIMB_BOUND by {
        lemma_limb_of_bound(value, i as nat);
    }
    lemma2_to64();
    if count == 0 {
        assert(value % 1 == 0);
    } else {
        let rest = (count - 1) as nat;
        let shifted = value / pow2(120);
        lemma_low_limbs_value(shifted, rest);
        assert(row.drop_first() =~= low_limbs(shifted, rest)) by {
            assert forall|i: int| 0 <= i < rest implies row.drop_first()[i] == low_limbs(
                shifted,
                rest,
            )[i] by {
                lemma_limb_of_shift(value, i as nat);
            }
        }
        lemma_limb_of_bound(value, 0);
        assert(pow2(0) == 1);
        assert(value / 1 == value);
        assert(row[0] as nat == value % pow2(120));
        lemma_pow2_pos(120);
        lemma_pow2_pos(120 * rest);
        lemma_pow2_adds(120, 120 * rest);
        assert(120 * count == 120 + 120 * rest);
        lemma_breakdown(value as int, pow2(120) as int, pow2(120 * rest) as int);
    }
}

/// Decoding inverts encoding: a row of `count` low limbs of a number below
/// `2^(120 count)` denotes that number.
pub proof fn lemma_round_trip(value: nat, count: nat)
    requires
        value < pow2(120 * count),
    ensures
        limbs_value(low_limbs(value, count)) == value,
{
    lemma_low_limbs_value(value, count);
    lemma_small_mod(value, pow2(120 * count));
}

/// Decoding inverts encoding at a declared width: for every `value` below
/// `2^total_bits`, the row of `limb_count(total_bits)` limbs denotes `value`.
pub proof fn lemma_round_trip_at_width(value: nat, total_bits: nat)
    requires
        value < pow2(total_bits),
    ensures
        limbs_value(low_limbs(value, limb_count(total_bits))) == value,
{
    let count = limb_count(total_bits);
    assert(total_bits <= 120 * count);
    if total_bits < 120 * count {
        lemma_pow2_strictly_increases(total_bits, 120 * count);
    }
    lemma_round_trip(value, count);
}

/// The row of a declared width has the same number of limbs for every number:
/// nine at 1024 bits and eighteen at 2048 bits.
pub proof fn lemma_limb_count_fixed(value: nat, total_bits: nat)
    ensures
        low_limbs(value, limb_count(total_bits)).len() == limb_count(total_bits),
        limb_count(1024) == 9,
        limb_count(2048) == 18,
{
}

/// Two numbers that fit a row of `count` limbs and have the same limbs are equal.
pub proof fn lemma_low_limbs_injective(first: nat, second: nat, count: nat)
    requires
        first < pow2(120 * count),
        second < pow2(120 * count),
        low_limbs(first, count) == low_limbs(second, count),
    ensures
        first == second,
{
    lemma_round_trip(first, count);
    lemma_round_trip(second, count);
}

/// The limb at place `index` of the number of a byte string is the number of
/// the fifteen bytes that end `15 index` bytes before the string's end.
pub proof fn lemma_limb_of_bytes(bytes: Seq<u8>, index: nat)
    ensures
        ({
            let high = if 15 * index <= bytes.len() {
                bytes.len() - 15 * index
            } else {
                0
            };
            let low = if high >= 15 {
                high - 15
            } else {
                0
            };
            limb_of(be_value(bytes), index) == be_value(bytes.subrange(low, high))
        }),
{
    let value = be_value(bytes);
    let len = bytes.len() as int;
    let unit = pow2(120 * index);
    lemma_pow2_pos(120 * index);
    lemma_pow2_pos(120);
    if 15 * index <= len {
        let high = len - 15 * index;
        let head = bytes.take(high);
        lemma_be_value_split(bytes, (15 * index) as int);
        assert(8 * (15 * index) == 120 * index);
        let tail_value = be_value(bytes.skip(high));
        assert(value == be_value(head) * unit + tail_value);
        assert(value / unit == be_value(head)) by {
            lemma_mul_is_commutative(be_value(head) as int, unit as int);
            lemma_fundamental_div_mod_converse(
                value as int,
                unit as int,
                be_value(head) as int,
                tail_value as int,
            );
        }
        if high >= 15 {
            lemma_be_value_split(head, 15);
            assert(head.skip(high - 15) =~= bytes.subrange(high - 15, high));
            let top = be_value(head.take(high - 15));
            let chunk = be_value(head.skip(high - 15));
            assert(be_value(head) == top * pow2(120) + chunk);
            lemma_mul_is_commutative(top as int, pow2(120) as int);
            lemma_fundamental_div_mod_converse(
                be_value(head) as int,
                pow2(120) as int,
                top as int,
                chunk as int,
            );
        } else {
            assert(head =~= bytes.subrange(0, high));
            lemma_be_value_bound(head);
            if 8 * high < 120 {
                lemma_pow2_strictly_increases((8 * high) as nat, 120);
            }
            lemma_small_mod(be_value(head), pow2(120));
        }
    } else {
        lemma_be_value_bound(bytes);
        lemma_pow2_strictly_increases((8 * len) as nat, 120 * index);
        lemma_basic_div(value as int, unit as int);
        assert(bytes.subrange(0, 0) =~= Seq::<u8>::empty());
        lemma_small_mod(0, pow2(120));
    }
}

/// The number of limbs of a row of the declared width.
pub fn limb_count_for(total_bits: usize) -> (count: usize)
    ensures
        count == limb_count(total_bits as nat),
{
    if total_bits % LIMB_BITS != 0 {
        total_bits / LIMB_BITS + 1
    } else {
        total_bits / LIMB_BITS
    }
}

/// The number that the bytes of `bytes` from `low` up to `high` denote, for at most fifteen bytes.
fn chunk_value(bytes: &[u8], low: usize, high: usize) -> (value: u128)
    requires
        low <= high <= bytes.len(),
        high - low <= 15,
    ensures
        value == be_value(bytes@.subrange(low as int, high as int)),
        value < LIMB_BOUND,
{
    let mut value: u128 = 0;
    let mut at: usize = low;
    proof {
        assert(bytes@.subrange(low as int, low as int) =~= Seq::<u8>::empty());
        lemma_limb_powers();
    }
    while at < high
        invariant
            low <= at <= high <= bytes.len(),
            high - low <= 15,
            value == be_value(bytes@.subrange(low as int, at as int)),
        decreases high - at,
    {
        proof {
            let seen = bytes@.subrange(low as int, at as int);
            lemma_be_value_bound(seen);
            lemma_limb_powers();
            if 8 * seen.len() < 112 {
                lemma_pow2_strictly_increases(8 * seen.len(), 112);
            }
            let next = bytes@.subrange(low as int, at + 1);
            assert(next.drop_last() =~= seen);
            assert(next.last() == bytes@[at as int]);
        }
        value = value * 256 + bytes[at] as u128;
        at = at + 1;
    }
    proof {
        let all = bytes@.subrange(low as int, high as int);
        lemma_be_value_bound(all);
        lemma_limb_powers();
        if 8 * all.len() < 120 {
            lemma_pow2_strictly_increases(8 * all.len(), 120);
        }
    }
    value
}

/// Splits the number that `input` denotes into the limbs of a row of `num_bits`
/// bits. Bits of the number above the row's last limb are left out.
pub fn split_into_120_bit_limbs(input: &[u8], num_bits: usize) -> (limbs: Vec<u128>)
    ensures
        limbs@ == low_limbs(be_value(input@), limb_count(num_bits as nat)),
        limbs_bounded(limbs@),
{
    let count = limb_count_for(num_bits);
    let mut limbs: Vec<u128> = Vec::new();
    let mut remaining: usize = input.len();
    let mut index: usize = 0;
    while index < count
        invariant
            index <= count,
            count == limb_count(num_bits as nat),
            remaining <= input.len(),
            remaining == (if 15 * index <= input.len() {
                input.len() - 15 * index
            } else {
                0
            }),
            limbs@ == low_limbs(be_value(input@), index as nat),
        decreases count - index,
    {
        let taken: usize = if remaining >= LIMB_BYTES {
            LIMB_BYTES
        } else {
            remaining
        };
        let limb = chunk_value(input, remaining - taken, remaining);
        proof {
            lemma_limb_of_bytes(input@, index as nat);
            assert(limbs@.push(limb) =~= low_limbs(be_value(input@), (index + 1) as nat));
        }
        limbs.push(limb);
        remaining = remaining - taken;
        index = index + 1;
    }
    proof {
        lemma_low_limbs_value(be_value(input@), count as nat);
    }
    limbs
}

/// Encodes the number that `value` denotes as the row of limbs of the declared
/// width, or says that the number is not below `2^total_bits`.
pub fn encode(value: &[u8], total_bits: u32) -> (row: Result<Vec<u128>, RsaError>)
    ensures
        match row {
            Ok(limbs) => {
                &&& be_value(value@) < pow2(total_bits as nat)
                &&& limbs@ == low_limbs(be_value(value@), limb_count(total_bits as nat))
                &&& limbs@.len() == limb_count(total_bits as nat)
                &&& limbs_bounded(limbs@)
                &&& limbs_value(limbs@) == be_value(value@)
            },
            Err(error) => error == RsaError::ValueTooLarge && be_value(value@) >= pow2(
                total_bits as nat,
            ),
        },
{
    if !fits_in_bits(value, total_bits as usize) {
        return Err(RsaError::ValueTooLarge);
    }
    let limbs = split_into_120_bit_limbs(value, total_bits as usize);
    proof {
        lemma_round_trip_at_width(be_value(value@), total_bits as nat);
    }
    Ok(limbs)
}

/// Whether every limb of the row is below `2^120`.
pub fn limbs_in_range(limbs: &[u128]) -> (bounded: bool)
    ensures
        bounded == limbs_bounded(limbs@),
{
    let mut index: usize = 0;
    while index < limbs.len()
        invariant
            index <= limbs.len(),
            forall|i: int| 0 <= i < index ==> limbs[i] < LIMB_BOUND,
        decreases limbs.len() - index,
    {
        if limbs[index] >= LIMB_BOUND {
            return false;
        }
        index = index + 1;
    }
    true
}

/// Appends to `out` the `width` bytes that denote `value`, most significant first.
fn push_be_bytes(out: &mut Vec<u8>, value: u128, width: usize)
    requires
        width <= 15,
        value < pow2(8 * width as nat),
    ensures
        final(out)@.len() == old(out)@.len() + width,
        be_value(final(out)@) == be_value(old(out)@) * pow2(8 * width as nat) + value,
    decreases width,
{
    proof {
        lemma2_to64();
    }
    if width == 0 {
        proof {
            let before = be_value(old(out)@);
            assert(before * pow2(0) == before) by (nonlinear_arith)
                requires
                    pow2(0) == 1,
            ;
        }
    } else {
        let shorter = width - 1;
        proof {
            lemma_pow2_adds(8 * shorter as nat, 8);
            assert(8 * shorter + 8 == 8 * width);
            let unit = pow2(8 * shorter as nat);
            assert(value / 256 < unit) by (nonlinear_arith)
                requires
                    value < unit * 256,
            ;
        }
        push_be_bytes(out, value / 256, shorter);
        let ghost middle = out@;
        out.push((value % 256) as u8);
        proof {
            let before = be_value(old(out)@);
            let unit = pow2(8 * shorter as nat);
            assert(out@.drop_last() =~= middle);
            assert(be_value(out@) == 256 * (before * unit + value / 256) + value % 256);
            assert(256 * (before * unit + value / 256) == before * (unit * 256) + 256 * (value
                / 256)) by (nonlinear_arith);
        }
    }
}

/// Decodes a row of limbs into the shortest byte string of the number that it denotes.
pub fn decode(limbs: &[u128]) -> (value: Vec<u8>)
    requires
        limbs_bounded(limbs@),
    ensures
        value@ == be_bytes(limbs_value(limbs@)),
{
    let mut bytes: Vec<u8> = Vec::new();
    let mut index: usize = limbs.len();
    proof {
        assert(limbs@.skip(index as int) =~= Seq::<u128>::empty());
    }
    while index > 0
        invariant
            index <= limbs.len(),
            limbs_bounded(limbs@),
            be_value(bytes@) == limbs_value(limbs@.skip(index as int)),
        decreases index,
    {
        index = index - 1;
        let limb = limbs[index];
        proof {
            lemma_limb_powers();
            let upper = limbs@.skip(index as int);
            assert(upper.drop_first() =~= limbs@.skip(index + 1));
            assert(upper[0] == limb);
            let above = limbs_value(limbs@.skip(index + 1));
            assert(above * pow2(120) == pow2(120) * above) by (nonlinear_arith);
        }
        push_be_bytes(&mut bytes, limb, LIMB_BYTES);
    }
    proof {
        assert(limbs@.skip(0) =~= limbs@);
    }
    minimal_bytes(bytes.as_slice())
}

} // verus!
