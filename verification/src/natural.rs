//! Unsigned integers of any size, held as big-endian byte strings.
//!
//! A byte string denotes the natural number [`be_value`]; leading zero bytes
//! are allowed on input and never change the value. [`be_bytes`] is the one
//! shortest byte string of a number (a single zero byte for zero).

use vstd::arithmetic::div_mod::*;
use vstd::arithmetic::mul::*;
use vstd::arithmetic::power2::*;
use vstd::bits::*;
use vstd::prelude::*;

verus! {

/// The natural number that a big-endian byte string denotes.
pub open spec fn be_value(bytes: Seq<u8>) -> nat
    decreases bytes.len(),
{
    if bytes.len() == 0 {
        0
    } else {
        256 * be_value(bytes.drop_last()) + bytes.last() as nat
    }
}

/// The shortest big-endian byte string that denotes `n`; one zero byte for zero.
pub open spec fn be_bytes(n: nat) -> Seq<u8>
    decreases n,
{
    if n < 256 {
        seq![n as u8]
    } else {
        be_bytes(n / 256).push((n % 256) as u8)
    }
}

/// The number of binary digits of `n`: zero for zero, else one more than the
/// position of the highest set bit.
pub open spec fn bit_length(n: nat) -> nat
    decreases n,
{
    if n == 0 {
        0
    } else {
        1 + bit_length(n / 2)
    }
}

/// A byte string of `len` bytes denotes a number below `2^(8 len)`.
pub proof fn lemma_be_value_bound(bytes: Seq<u8>)
    ensures
        be_value(bytes) < pow2(8 * bytes.len()),
    decreases bytes.len(),
{
    if bytes.len() == 0 {
        lemma2_to64();
    } else {
        lemma_be_value_bound(bytes.drop_last());
        lemma_pow2_adds(8 * bytes.drop_last().len(), 8);
        lemma2_to64();
        let head = be_value(bytes.drop_last());
        let p = pow2(8 * bytes.drop_last().len());
        assert(256 * head + 255 < 256 * p) by (nonlinear_arith)
            requires
                head < p,
        ;
        assert(pow2(8 * bytes.len()) == p * 256);
    }
}

/// Joining two byte strings shifts the first by the length of the second.
pub proof fn lemma_be_value_concat(high: Seq<u8>, low: Seq<u8>)
    ensures
        be_value(high + low) == be_value(high) * pow2(8 * low.len()) + be_value(low),
    decreases low.len(),
{
    let h = be_value(high);
    lemma2_to64();
    if low.len() == 0 {
        assert(high + low =~= high);
        assert(h * pow2(0) == h) by (nonlinear_arith)
            requires
                pow2(0) == 1,
        ;
    } else {
        let whole = high + low;
        assert(whole.drop_last() =~= high + low.drop_last());
        assert(whole.last() == low.last());
        lemma_be_value_concat(high, low.drop_last());
        let shorter = (low.len() - 1) as nat;
        lemma_pow2_adds(8 * shorter, 8);
        assert(8 * shorter + 8 == 8 * low.len());
        let p = pow2(8 * shorter);
        let l = be_value(low.drop_last());
        assert(be_value(whole) == 256 * (h * p + l) + low.last());
        assert(be_value(low) == 256 * l + low.last());
        assert(256 * (h * p + l) == h * (p * 256) + 256 * l) by (nonlinear_arith);
    }
}

/// A byte string splits at any place into a high part and a low part.
pub proof fn lemma_be_value_split(bytes: Seq<u8>, low_len: int)
    requires
        0 <= low_len <= bytes.len(),
    ensures
        be_value(bytes) == be_value(bytes.take(bytes.len() - low_len)) * pow2(8 * low_len as nat)
            + be_value(bytes.skip(bytes.len() - low_len)),
        be_value(bytes.skip(bytes.len() - low_len)) < pow2(8 * low_len as nat),
{
    let cut = bytes.len() - low_len;
    assert(bytes =~= bytes.take(cut) + bytes.skip(cut));
    lemma_be_value_concat(bytes.take(cut), bytes.skip(cut));
    lemma_be_value_bound(bytes.skip(cut));
}

/// Leading zero bytes do not change the value.
pub proof fn lemma_be_value_leading_zeros(bytes: Seq<u8>, zeros: int)
    requires
        0 <= zeros <= bytes.len(),
        forall|i: int| 0 <= i < zeros ==> bytes[i] == 0,
    ensures
        be_value(bytes) == be_value(bytes.skip(zeros)),
{
    lemma_be_value_split(bytes, bytes.len() - zeros);
    lemma_be_value_zero(bytes.take(zeros));
    assert(be_value(bytes.take(zeros)) * pow2(8 * (bytes.len() - zeros) as nat) == 0) by (nonlinear_arith)
        requires
            be_value(bytes.take(zeros)) == 0,
    ;
}

/// A byte string denotes zero exactly when all its bytes are zero.
pub proof fn lemma_be_value_zero(bytes: Seq<u8>)
    ensures
        be_value(bytes) == 0 <==> (forall|i: int| 0 <= i < bytes.len() ==> bytes[i] == 0),
    decreases bytes.len(),
{
    if bytes.len() > 0 {
        lemma_be_value_zero(bytes.drop_last());
        if be_value(bytes) == 0 {
            assert forall|i: int| 0 <= i < bytes.len() implies bytes[i] == 0 by {
                if i < bytes.len() - 1 {
                    assert(bytes.drop_last()[i] == bytes[i]);
                }
            }
        } else {
            if forall|i: int| 0 <= i < bytes.len() ==> bytes[i] == 0 {
                assert forall|i: int| 0 <= i < bytes.drop_last().len() implies bytes.drop_last()[i]
                    == 0 by {
                    assert(bytes.drop_last()[i] == bytes[i]);
                }
            }
        }
    }
}

/// A single byte denotes itself.
pub proof fn lemma_be_value_single(byte: u8)
    ensures
        be_value(seq![byte]) == byte,
{
    assert(seq![byte].drop_last() =~= Seq::<u8>::empty());
    assert(be_value(Seq::<u8>::empty()) == 0);
}

/// The shortest byte string of `n` denotes `n`.
pub proof fn lemma_be_bytes_value(n: nat)
    ensures
        be_value(be_bytes(n)) == n,
        be_bytes(n).len() >= 1,
        be_bytes(n).len() == 1 || be_bytes(n)[0] != 0,
    decreases n,
{
    if n < 256 {
        lemma_be_value_single(n as u8);
    } else {
        lemma_be_bytes_value(n / 256);
        let head = be_bytes(n / 256);
        assert(be_bytes(n).drop_last() =~= head);
        lemma_fundamental_div_mod(n as int, 256);
        if head.len() == 1 {
            assert(head =~= seq![head[0]]);
            lemma_be_value_single(head[0]);
        }
        assert(be_bytes(n)[0] == head[0]);
    }
}

/// A byte string without a leading zero byte is the shortest one of its value.
pub proof fn lemma_be_bytes_unique(bytes: Seq<u8>)
    requires
        bytes.len() >= 1,
        bytes.len() == 1 || bytes[0] != 0,
    ensures
        be_bytes(be_value(bytes)) == bytes,
    decreases bytes.len(),
{
    let head = bytes.drop_last();
    if bytes.len() == 1 {
        assert(bytes =~= seq![bytes[0]]);
        lemma_be_value_single(bytes[0]);
        assert(be_bytes(be_value(bytes)) =~= bytes);
    } else {
        assert(head[0] == bytes[0]);
        lemma_be_bytes_unique(head);
        lemma_be_value_zero(head);
        let v = be_value(bytes);
        assert(v >= 256);
        assert(v / 256 == be_value(head) && v % 256 == bytes.last() as nat) by {
            lemma_fundamental_div_mod_converse(
                v as int,
                256,
                be_value(head) as int,
                bytes.last() as int,
            );
        }
        assert(be_bytes(v) =~= bytes);
    }
}

/// A positive number lies between the two powers of two that its bit length names.
pub proof fn lemma_bit_length_bounds(n: nat)
    requires
        n > 0,
    ensures
        bit_length(n) >= 1,
        pow2((bit_length(n) - 1) as nat) <= n < pow2(bit_length(n)),
    decreases n,
{
    lemma2_to64();
    if n == 1 {
        assert(bit_length(1) == 1 + bit_length(0));
    } else {
        lemma_bit_length_bounds(n / 2);
        let k = bit_length(n / 2);
        lemma_pow2_unfold(k);
        lemma_pow2_unfold(k + 1);
        lemma_fundamental_div_mod(n as int, 2);
    }
}

/// A number is below `2^bits` exactly when its bit length is at most `bits`.
pub proof fn lemma_bit_length_fits(n: nat, bits: nat)
    ensures
        n < pow2(bits) <==> bit_length(n) <= bits,
{
    lemma_pow2_pos(bits);
    if n > 0 {
        lemma_bit_length_bounds(n);
        let k = bit_length(n);
        if k <= bits {
            if k < bits {
                lemma_pow2_strictly_increases(k, bits);
            }
        } else {
            if bits < k - 1 {
                lemma_pow2_strictly_increases(bits, (k - 1) as nat);
            }
        }
    }
}

/// Whether a big-endian byte string denotes zero.
pub fn is_zero(bytes: &[u8]) -> (zero: bool)
    ensures
        zero == (be_value(bytes@) == 0),
{
    let zeros = leading_zero_count(bytes);
    proof {
        lemma_be_value_zero(bytes@);
    }
    zeros == bytes.len()
}

/// The number of zero bytes at the front of a byte string.
pub fn leading_zero_count(bytes: &[u8]) -> (zeros: usize)
    ensures
        zeros <= bytes.len(),
        forall|i: int| 0 <= i < zeros ==> bytes[i] == 0,
        zeros < bytes.len() ==> bytes[zeros as int] != 0,
{
    let mut i: usize = 0;
    while i < bytes.len() && bytes[i] == 0
        invariant
            i <= bytes.len(),
            forall|j: int| 0 <= j < i ==> bytes[j] == 0,
        decreases bytes.len() - i,
    {
        i = i + 1;
    }
    i
}

/// Whether the number that `bytes` denotes is below `2^bits`.
pub fn fits_in_bits(bytes: &[u8], bits: usize) -> (fits: bool)
    ensures
        fits == (be_value(bytes@) < pow2(bits as nat)),
{
    let zeros = leading_zero_count(bytes);
    let significant = bytes.len() - zeros;
    let whole_bytes = bits / 8;
    let spare_bits = bits % 8;
    proof {
        lemma_be_value_leading_zeros(bytes@, zeros as int);
        lemma_pow2_pos(bits as nat);
    }
    if significant == 0 {
        proof {
            assert(bytes@.skip(zeros as int) =~= Seq::<u8>::empty());
        }
        return true;
    }
    let top = bytes[zeros];
    proof {
        let tail = bytes@.skip(zeros as int);
        let rest = (significant - 1) as nat;
        lemma_be_value_split(tail, rest as int);
        assert(tail.take(1) =~= seq![top]);
        lemma_be_value_single(top);
        let low = be_value(tail.skip(1));
        let unit = pow2(8 * rest);
        let value = be_value(bytes@);
        assert(value == top * unit + low);
        lemma_pow2_pos(8 * rest);
        assert(top * unit <= value < (top + 1) * unit) by (nonlinear_arith)
            requires
                value == top * unit + low,
                low < unit,
        ;
        assert(unit <= top * unit) by (nonlinear_arith)
            requires
                top >= 1,
                unit > 0,
        ;
        lemma_pow2_adds(8 * whole_bytes as nat, spare_bits as nat);
        assert(bits == 8 * whole_bytes + spare_bits);
        lemma_pow2_pos(spare_bits as nat);
        lemma2_to64();
        if spare_bits < 7 {
            lemma_pow2_strictly_increases(spare_bits as nat, 7);
        }
        lemma_u16_shl_is_mul(1u16, spare_bits as u16);
        if rest < whole_bytes {
            lemma_be_value_bound(tail);
            if 8 * significant < bits {
                lemma_pow2_strictly_increases(8 * significant as nat, bits as nat);
            }
        } else if rest == whole_bytes {
            let limit = pow2(spare_bits as nat);
            if (top as nat) < limit {
                assert((top + 1) * unit <= limit * unit) by (nonlinear_arith)
                    requires
                        top + 1 <= limit,
                        unit > 0,
                ;
                assert(limit * unit == unit * limit) by (nonlinear_arith);
            } else {
                assert(limit * unit <= top * unit) by (nonlinear_arith)
                    requires
                        limit <= top,
                        unit > 0,
                ;
                assert(limit * unit == unit * limit) by (nonlinear_arith);
            }
        } else {
            if bits < 8 * rest {
                lemma_pow2_strictly_increases(bits as nat, 8 * rest);
            }
        }
    }
    if significant - 1 < whole_bytes {
        true
    } else if significant - 1 == whole_bytes {
        (top as u16) < (1u16 << (spare_bits as u16))
    } else {
        false
    }
}

/// The shortest byte string with the value of `bytes`.
pub fn minimal_bytes(bytes: &[u8]) -> (minimal: Vec<u8>)
    ensures
        minimal@ == be_bytes(be_value(bytes@)),
{
    let zeros = leading_zero_count(bytes);
    let mut minimal: Vec<u8> = Vec::new();
    if zeros == bytes.len() {
        minimal.push(0);
        proof {
            lemma_be_value_zero(bytes@);
            assert(minimal@ =~= be_bytes(0));
        }
        return minimal;
    }
    let mut i: usize = zeros;
    while i < bytes.len()
        invariant
            zeros <= i <= bytes.len(),
            minimal@ == bytes@.subrange(zeros as int, i as int),
        decreases bytes.len() - i,
    {
        minimal.push(bytes[i]);
        proof {
            assert(minimal@ =~= bytes@.subrange(zeros as int, i + 1));
        }
        i = i + 1;
    }
    proof {
        assert(minimal@ =~= bytes@.skip(zeros as int));
        lemma_be_value_leading_zeros(bytes@, zeros as int);
        lemma_be_bytes_unique(minimal@);
    }
    minimal
}

} // verus!
