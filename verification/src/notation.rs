//! How a hash and a row of limbs are written, and how they are read back.
//!
//! A hash is written as its bytes in decimal, `", "` between them. A row of
//! limbs is written as its limbs in lower-case hexadecimal, each behind `0x`,
//! `", "` between them. On reading, a limb may also stand in decimal, without
//! the `0x`.

use crate::limbs::{limbs_bounded, LIMB_BOUND};
use crate::text::{
    chars_of, comma_free, digits_text, join, lemma_digits_round_trip, lemma_split_join,
    number_in_text, parse_digits, push_digits, push_text, split, split_ranges, string_of,
};
use vstd::prelude::*;

verus! {

/// The largest number that one limb holds, `2^120 - 1`.
pub const LIMB_MAX: u128 = 0xffffffffffffffffffffffffffffff;

/// The bytes of a hash, each written in decimal.
pub open spec fn byte_texts(hash: Seq<u8>) -> Seq<Seq<char>> {
    Seq::new(hash.len(), |i: int| digits_text(hash[i] as nat, 10))
}

/// A hash as text: its bytes in decimal with `", "` between them.
pub open spec fn hash_text(hash: Seq<u8>) -> Seq<char> {
    join(byte_texts(hash))
}

/// A limb as text: `0x` and its hexadecimal digits.
pub open spec fn limb_text(limb: u128) -> Seq<char> {
    seq!['0', 'x'] + digits_text(limb as nat, 16)
}

/// The limbs of a row, each written as text.
pub open spec fn limb_texts(limbs: Seq<u128>) -> Seq<Seq<char>> {
    Seq::new(limbs.len(), |i: int| limb_text(limbs[i]))
}

/// A row of limbs as text: its limbs with `", "` between them, least significant first.
pub open spec fn limbs_text(limbs: Seq<u128>) -> Seq<char> {
    join(limb_texts(limbs))
}

/// The byte that a piece of text denotes: one or more decimal digits of a number up to 255.
pub open spec fn byte_in_text(piece: Seq<char>) -> Option<u8> {
    match number_in_text(piece, 10, 255) {
        Some(n) => Some(n as u8),
        None => None,
    }
}

/// Whether a piece of text starts with `0x`.
pub open spec fn has_hex_mark(piece: Seq<char>) -> bool {
    piece.len() >= 2 && piece[0] == '0' && piece[1] == 'x'
}

/// The limb that a piece of text denotes: behind `0x` one or more hexadecimal
/// digits, else one or more decimal digits, of a number below `2^120`.
pub open spec fn limb_in_text(piece: Seq<char>) -> Option<u128> {
    let number = if has_hex_mark(piece) {
        number_in_text(piece.skip(2), 16, LIMB_MAX as nat)
    } else {
        number_in_text(piece, 10, LIMB_MAX as nat)
    };
    match number {
        Some(n) => Some(n as u128),
        None => None,
    }
}

/// The hash that a text denotes, where each of its pieces denotes a byte.
pub open spec fn hash_in_text(text: Seq<char>) -> Option<Seq<u8>> {
    let pieces = split(text);
    if forall|i: int| 0 <= i < pieces.len() ==> byte_in_text(#[trigger] pieces[i]) is Some {
        Some(Seq::new(pieces.len(), |i: int| byte_in_text(pieces[i])->0))
    } else {
        None
    }
}

/// The row of limbs that a text denotes, where each of its pieces denotes a limb.
pub open spec fn limbs_in_text(text: Seq<char>) -> Option<Seq<u128>> {
    let pieces = split(text);
    if forall|i: int| 0 <= i < pieces.len() ==> limb_in_text(#[trigger] pieces[i]) is Some {
        Some(Seq::new(pieces.len(), |i: int| limb_in_text(pieces[i])->0))
    } else {
        None
    }
}

/// A written byte is read back as that byte.
pub proof fn lemma_byte_text_round_trip(byte: u8)
    ensures
        byte_in_text(digits_text(byte as nat, 10)) == Some(byte),
        comma_free(digits_text(byte as nat, 10)),
{
    lemma_digits_round_trip(byte as nat, 10);
}

/// A written limb is read back as that limb.
pub proof fn lemma_limb_text_round_trip(limb: u128)
    requires
        limb < LIMB_BOUND,
    ensures
        limb_in_text(limb_text(limb)) == Some(limb),
        comma_free(limb_text(limb)),
{
    lemma_digits_round_trip(limb as nat, 16);
    let piece = limb_text(limb);
    assert(piece.skip(2) =~= digits_text(limb as nat, 16));
    assert(has_hex_mark(piece));
    assert forall|i: int| 0 <= i < piece.len() implies piece[i] != ',' by {
        if i >= 2 {
            assert(piece[i] == digits_text(limb as nat, 16)[i - 2]);
        }
    }
}

/// A written hash of one or more bytes is read back as that hash.
pub proof fn lemma_hash_text_round_trip(hash: Seq<u8>)
    requires
        hash.len() >= 1,
    ensures
        hash_in_text(hash_text(hash)) == Some(hash),
{
    let pieces = byte_texts(hash);
    assert forall|i: int| 0 <= i < pieces.len() implies comma_free(#[trigger] pieces[i])
        && byte_in_text(pieces[i]) == Some(hash[i]) by {
        lemma_byte_text_round_trip(hash[i]);
    }
    lemma_split_join(pieces);
    assert(hash_in_text(hash_text(hash))->0 =~= hash);
}

/// A written row of one or more limbs, each below `2^120`, is read back as that row.
pub proof fn lemma_limbs_text_round_trip(limbs: Seq<u128>)
    requires
        limbs.len() >= 1,
        limbs_bounded(limbs),
    ensures
        limbs_in_text(limbs_text(limbs)) == Some(limbs),
{
    let pieces = limb_texts(limbs);
    assert forall|i: int| 0 <= i < pieces.len() implies comma_free(#[trigger] pieces[i])
        && limb_in_text(pieces[i]) == Some(limbs[i]) by {
        lemma_limb_text_round_trip(limbs[i]);
    }
    lemma_split_join(pieces);
    assert(limbs_in_text(limbs_text(limbs))->0 =~= limbs);
}

/// Two rows of one or more limbs, each below `2^120`, that are written alike are the same row.
pub proof fn lemma_limbs_text_injective(first: Seq<u128>, second: Seq<u128>)
    requires
        first.len() >= 1,
        second.len() >= 1,
        limbs_bounded(first),
        limbs_bounded(second),
        limbs_text(first) == limbs_text(second),
    ensures
        first == second,
{
    lemma_limbs_text_round_trip(first);
    lemma_limbs_text_round_trip(second);
}

/// Writes a hash: its bytes in decimal with `", "` between them.
pub fn format_hash(hash: &[u8]) -> (text: String)
    ensures
        text@ == hash_text(hash@),
{
    let mut out: Vec<char> = Vec::new();
    let mut index: usize = 0;
    proof {
        assert(byte_texts(hash@).take(0) =~= Seq::<Seq<char>>::empty());
    }
    while index < hash.len()
        invariant
            index <= hash.len(),
            out@ == join(byte_texts(hash@).take(index as int)),
        decreases hash.len() - index,
    {
        if index > 0 {
            push_text(&mut out, ", ");
            proof {
                reveal_strlit(", ");
                assert(", "@ =~= seq![',', ' ']);
            }
        }
        push_digits(&mut out, hash[index] as u128, 10);
        proof {
            let longer = byte_texts(hash@).take(index + 1);
            assert(longer.drop_last() =~= byte_texts(hash@).take(index as int));
            assert(longer.last() == digits_text(hash@[index as int] as nat, 10));
        }
        index = index + 1;
    }
    proof {
        assert(byte_texts(hash@).take(index as int) =~= byte_texts(hash@));
    }
    string_of(out.as_slice())
}

/// Appends one limb as text: `0x` and its hexadecimal digits.
fn push_limb(out: &mut Vec<char>, limb: u128)
    ensures
        final(out)@ == old(out)@ + limb_text(limb),
{
    push_text(out, "0x");
    proof {
        reveal_strlit("0x");
        assert("0x"@ =~= seq!['0', 'x']);
    }
    push_digits(out, limb, 16);
    proof {
        assert(out@ =~= old(out)@ + limb_text(limb));
    }
}

/// Writes a row of limbs: each limb in hexadecimal behind `0x`, with `", "` between them.
pub fn format_limbs_as_hex(limbs: &Vec<u128>) -> (text: String)
    ensures
        text@ == limbs_text(limbs@),
{
    let mut out: Vec<char> = Vec::new();
    let mut index: usize = 0;
    proof {
        assert(limb_texts(limbs@).take(0) =~= Seq::<Seq<char>>::empty());
    }
    while index < limbs.len()
        invariant
            index <= limbs.len(),
            out@ == join(limb_texts(limbs@).take(index as int)),
        decreases limbs.len() - index,
    {
        if index > 0 {
            push_text(&mut out, ", ");
            proof {
                reveal_strlit(", ");
                assert(", "@ =~= seq![',', ' ']);
            }
        }
        push_limb(&mut out, limbs[index]);
        proof {
            let longer = limb_texts(limbs@).take(index + 1);
            assert(longer.drop_last() =~= limb_texts(limbs@).take(index as int));
            assert(longer.last() == limb_text(limbs@[index as int]));
        }
        index = index + 1;
    }
    proof {
        assert(limb_texts(limbs@).take(index as int) =~= limb_texts(limbs@));
    }
    string_of(out.as_slice())
}

/// Writes each limb of a row as a text of its own, for a list of string values.
pub fn format_limbs_as_toml_value(limbs: &Vec<u128>) -> (values: Vec<String>)
    ensures
        values@.len() == limbs@.len(),
        forall|i: int| 0 <= i < limbs@.len() ==> (#[trigger] values@[i])@ == limb_text(limbs@[i]),
{
    let mut values: Vec<String> = Vec::new();
    let mut index: usize = 0;
    while index < limbs.len()
        invariant
            index <= limbs.len(),
            values@.len() == index,
            forall|i: int| 0 <= i < index ==> (#[trigger] values@[i])@ == limb_text(limbs@[i]),
        decreases limbs.len() - index,
    {
        let mut out: Vec<char> = Vec::new();
        push_limb(&mut out, limbs[index]);
        proof {
            assert(out@ =~= limb_text(limbs@[index as int]));
        }
        values.push(string_of(out.as_slice()));
        index = index + 1;
    }
    values
}

/// Reads a hash: decimal bytes with `", "` between them.
pub fn parse_hash(text: &str) -> (hash: Option<Vec<u8>>)
    ensures
        hash matches Some(bytes) ==> hash_in_text(text@) == Some(bytes@),
        hash is None ==> hash_in_text(text@) is None,
{
    let chars = chars_of(text);
    let ranges = split_ranges(chars.as_slice());
    let ghost pieces = split(text@);
    let mut bytes: Vec<u8> = Vec::new();
    let mut index: usize = 0;
    while index < ranges.len()
        invariant
            index <= ranges@.len(),
            chars@ == text@,
            pieces == split(text@),
            ranges@.len() == pieces.len(),
            forall|i: int|
                0 <= i < ranges@.len() ==> {
                    &&& (#[trigger] ranges@[i]).0 <= ranges@[i].1 <= chars@.len()
                    &&& chars@.subrange(ranges@[i].0 as int, ranges@[i].1 as int) == pieces[i]
                },
            bytes@.len() == index,
            forall|i: int| 0 <= i < index ==> byte_in_text(#[trigger] pieces[i]) == Some(bytes@[i]),
        decreases ranges@.len() - index,
    {
        let range = ranges[index];
        match parse_digits(chars.as_slice(), range.0, range.1, 10, 255) {
            Some(number) => {
                bytes.push(number as u8);
            },
            None => {
                proof {
                    assert(byte_in_text(pieces[index as int]) is None);
                }
                return None;
            },
        }
        index = index + 1;
    }
    proof {
        assert(hash_in_text(text@)->0 =~= bytes@);
    }
    Some(bytes)
}

/// Reads one limb from the characters from `low` up to `high`.
fn parse_limb(chars: &[char], low: usize, high: usize) -> (limb: Option<u128>)
    requires
        low <= high <= chars.len(),
    ensures
        limb == limb_in_text(chars@.subrange(low as int, high as int)),
{
    let ghost piece = chars@.subrange(low as int, high as int);
    proof {
        if high - low >= 2 {
            assert(piece[0] == chars@[low as int]);
            assert(piece[1] == chars@[low + 1]);
        }
    }
    let number = if high - low >= 2 && chars[low] == '0' && chars[low + 1] == 'x' {
        proof {
            assert(piece.skip(2) =~= chars@.subrange(low + 2, high as int));
        }
        parse_digits(chars, low + 2, high, 16, LIMB_MAX)
    } else {
        parse_digits(chars, low, high, 10, LIMB_MAX)
    };
    number
}

/// Reads a row of limbs: limbs with `", "` between them, each in hexadecimal
/// behind `0x` or in decimal, and each below `2^120`.
pub fn parse_limbs(text: &str) -> (row: Option<Vec<u128>>)
    ensures
        row matches Some(limbs) ==> limbs_in_text(text@) == Some(limbs@) && limbs_bounded(limbs@),
        row is None ==> limbs_in_text(text@) is None,
{
    let chars = chars_of(text);
    let ranges = split_ranges(chars.as_slice());
    let ghost pieces = split(text@);
    let mut limbs: Vec<u128> = Vec::new();
    let mut index: usize = 0;
    while index < ranges.len()
        invariant
            index <= ranges@.len(),
            chars@ == text@,
            pieces == split(text@),
            ranges@.len() == pieces.len(),
            forall|i: int|
                0 <= i < ranges@.len() ==> {
                    &&& (#[trigger] ranges@[i]).0 <= ranges@[i].1 <= chars@.len()
                    &&& chars@.subrange(ranges@[i].0 as int, ranges@[i].1 as int) == pieces[i]
                },
            limbs@.len() == index,
            forall|i: int| 0 <= i < index ==> limb_in_text(#[trigger] pieces[i]) == Some(limbs@[i]),
            limbs_bounded(limbs@),
        decreases ranges@.len() - index,
    {
        let range = ranges[index];
        match parse_limb(chars.as_slice(), range.0, range.1) {
            Some(limb) => {
                limbs.push(limb);
            },
            None => {
                proof {
                    assert(limb_in_text(pieces[index as int]) is None);
                }
                return None;
            },
        }
        index = index + 1;
    }
    proof {
        assert(limbs_in_text(text@)->0 =~= limbs@);
    }
    Some(limbs)
}

} // verus!
