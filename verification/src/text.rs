//! Numbers and lists of numbers as text.
//!
//! A number is written in radix ten or sixteen with the digits `0-9a-f` and
//! without leading zeros; it is read back from one or more digits of either
//! case. A list is written with `", "` between its pieces, and a text is cut
//! into pieces at every `", "`, from the left.

use crate::primitives::push_char;
use vstd::arithmetic::div_mod::*;
use vstd::arithmetic::mul::*;
use vstd::prelude::*;
use vstd::string::*;

verus! {

/// The character of a digit below sixteen: `0-9`, then `a-f`.
pub open spec fn digit_char(digit: nat) -> char {
    if digit < 10 {
        ((48 + digit) as u8) as char
    } else {
        ((87 + digit) as u8) as char
    }
}

/// The digit that a character stands for, of either case; sixteen for any other character.
pub open spec fn digit_value(c: char) -> nat {
    let code = c as nat;
    if 48 <= code <= 57 {
        (code - 48) as nat
    } else if 97 <= code <= 102 {
        (code - 87) as nat
    } else if 65 <= code <= 70 {
        (code - 55) as nat
    } else {
        16
    }
}

/// The digits of `n` in the given radix, most significant first, without leading zeros.
pub open spec fn digits_text(n: nat, radix: nat) -> Seq<char>
    decreases n,
    when radix >= 2
{
    if n < radix {
        seq![digit_char(n)]
    } else {
        proof {
            assert(n / radix < n) by (nonlinear_arith)
                requires
                    n >= radix,
                    radix >= 2,
            ;
        }
        digits_text(n / radix, radix).push(digit_char(n % radix))
    }
}

/// The number that a row of digits denotes in the given radix.
pub open spec fn digits_value(text: Seq<char>, radix: nat) -> nat
    decreases text.len(),
{
    if text.len() == 0 {
        0
    } else {
        radix * digits_value(text.drop_last(), radix) + digit_value(text.last())
    }
}

/// Whether the text is one or more digits of the given radix.
pub open spec fn all_digits(text: Seq<char>, radix: nat) -> bool {
    text.len() > 0 && forall|i: int| 0 <= i < text.len() ==> digit_value(#[trigger] text[i]) < radix
}

/// The number that the text denotes, where it is one or more digits of the
/// radix and the number is at most `limit`.
pub open spec fn number_in_text(text: Seq<char>, radix: nat, limit: nat) -> Option<nat> {
    if all_digits(text, radix) && digits_value(text, radix) <= limit {
        Some(digits_value(text, radix))
    } else {
        None
    }
}

/// What stands between two pieces of a list.
pub open spec fn separator() -> Seq<char> {
    seq![',', ' ']
}

/// The pieces of a list as one text, with the separator between them.
pub open spec fn join(pieces: Seq<Seq<char>>) -> Seq<char>
    decreases pieces.len(),
{
    if pieces.len() == 0 {
        Seq::empty()
    } else if pieces.len() == 1 {
        pieces[0]
    } else {
        join(pieces.drop_last()) + separator() + pieces.last()
    }
}

/// Whether a separator starts at the given place of the text.
pub open spec fn separator_at(text: Seq<char>, at: int) -> bool {
    0 <= at && at + 1 < text.len() && text[at] == ',' && text[at + 1] == ' '
}

/// The place of the first separator in the text; the text's length where it has none.
pub open spec fn first_separator(text: Seq<char>) -> int
    decreases text.len(),
{
    if text.len() < 2 {
        text.len() as int
    } else if text[0] == ',' && text[1] == ' ' {
        0
    } else {
        1 + first_separator(text.drop_first())
    }
}

/// The pieces of a text: what stands before its first separator, then the
/// pieces of what follows that separator. A text without a separator is one piece.
pub open spec fn split(text: Seq<char>) -> Seq<Seq<char>>
    decreases text.len(),
{
    let at = first_separator(text);
    if 0 <= at && at + 2 <= text.len() {
        seq![text.take(at)] + split(text.skip(at + 2))
    } else {
        seq![text]
    }
}

/// Whether no character of the text is a comma.
pub open spec fn comma_free(text: Seq<char>) -> bool {
    forall|i: int| 0 <= i < text.len() ==> text[i] != ','
}

/// A digit's character stands for that digit.
pub proof fn lemma_digit_char_value(digit: nat)
    requires
        digit < 16,
    ensures
        digit_value(digit_char(digit)) == digit,
        digit_char(digit) != ',',
{
}

/// Reading the digits of a number gives the number back, and the digits hold no comma.
pub proof fn lemma_digits_round_trip(n: nat, radix: nat)
    requires
        2 <= radix <= 16,
    ensures
        all_digits(digits_text(n, radix), radix),
        digits_value(digits_text(n, radix), radix) == n,
        comma_free(digits_text(n, radix)),
    decreases n,
{
    let text = digits_text(n, radix);
    if n < radix {
        lemma_digit_char_value(n);
        assert(text.drop_last() =~= Seq::<char>::empty());
        assert(digits_value(Seq::<char>::empty(), radix) == 0);
        assert(radix * 0 == 0) by (nonlinear_arith);
    } else {
        let head = digits_text(n / radix, radix);
        lemma_fundamental_div_mod(n as int, radix as int);
        lemma_mod_bound(n as int, radix as int);
        assert(n / radix < n) by (nonlinear_arith)
            requires
                n >= radix,
                radix >= 2,
        ;
        lemma_digits_round_trip(n / radix, radix);
        lemma_digit_char_value(n % radix);
        assert(text.drop_last() =~= head);
        assert forall|i: int| 0 <= i < text.len() implies digit_value(#[trigger] text[i])
            < radix && text[i] != ',' by {
            if i < head.len() {
                assert(text[i] == head[i]);
            }
        }
    }
}

/// The number of a row of digits is at least the number of each of its prefixes.
pub proof fn lemma_digits_value_prefix(text: Seq<char>, radix: nat, len: int)
    requires
        radix >= 1,
        0 <= len <= text.len(),
    ensures
        digits_value(text.take(len), radix) <= digits_value(text, radix),
    decreases text.len() - len,
{
    if len == text.len() {
        assert(text.take(len) =~= text);
    } else {
        lemma_digits_value_prefix(text.drop_last(), radix, len);
        assert(text.drop_last().take(len) =~= text.take(len));
        let shorter = digits_value(text.drop_last(), radix);
        assert(shorter <= radix * shorter) by (nonlinear_arith)
            requires
                radix >= 1,
        ;
    }
}

/// What the place of the first separator is: a separator stands there unless
/// it is the text's length, and none stands before it.
pub proof fn lemma_first_separator(text: Seq<char>)
    ensures
        0 <= first_separator(text) <= text.len(),
        first_separator(text) < text.len() ==> separator_at(text, first_separator(text)),
        forall|at: int| 0 <= at < first_separator(text) ==> !separator_at(text, at),
    decreases text.len(),
{
    if text.len() >= 2 && !(text[0] == ',' && text[1] == ' ') {
        let rest = text.drop_first();
        lemma_first_separator(rest);
        assert forall|at: int| 0 <= at < first_separator(text) implies !separator_at(text, at) by {
            if at > 0 {
                assert(!separator_at(rest, at - 1));
                assert(rest[at - 1] == text[at]);
                if at + 1 < text.len() {
                    assert(rest[at] == text[at + 1]);
                }
            }
        }
        let found = first_separator(rest);
        if found < rest.len() {
            assert(rest[found] == text[found + 1]);
            assert(rest[found + 1] == text[found + 2]);
        }
    }
}

/// The first separator is at `at` where one stands there and none stands before.
pub proof fn lemma_first_separator_found(text: Seq<char>, at: int)
    requires
        separator_at(text, at),
        forall|before: int| 0 <= before < at ==> !separator_at(text, before),
    ensures
        first_separator(text) == at,
{
    lemma_first_separator(text);
}

/// A text in which no separator stands is one piece.
pub proof fn lemma_split_single(text: Seq<char>)
    requires
        forall|at: int| 0 <= at < text.len() ==> !separator_at(text, at),
    ensures
        split(text) == seq![text],
{
    lemma_first_separator(text);
}

/// A list of two or more pieces is its first piece, a separator, and the rest of the list.
pub proof fn lemma_join_first(pieces: Seq<Seq<char>>)
    requires
        pieces.len() >= 2,
    ensures
        join(pieces) == pieces[0] + separator() + join(pieces.drop_first()),
    decreases pieces.len(),
{
    let front = pieces.drop_last();
    if pieces.len() == 2 {
        assert(front =~= seq![pieces[0]]);
        assert(pieces.drop_first() =~= seq![pieces[1]]);
        assert(join(front) == pieces[0]);
        assert(join(pieces.drop_first()) == pieces[1]);
    } else {
        lemma_join_first(front);
        assert(front.drop_first() =~= pieces.drop_first().drop_last());
        assert(front[0] == pieces[0]);
        assert(pieces.drop_first().last() == pieces.last());
        assert(join(pieces) =~= pieces[0] + separator() + join(pieces.drop_first()));
    }
}

/// Cutting a written list gives its pieces back, where the list is not empty
/// and no piece holds a comma.
pub proof fn lemma_split_join(pieces: Seq<Seq<char>>)
    requires
        pieces.len() >= 1,
        forall|i: int| 0 <= i < pieces.len() ==> comma_free(#[trigger] pieces[i]),
    ensures
        split(join(pieces)) == pieces,
    decreases pieces.len(),
{
    let first = pieces[0];
    if pieces.len() == 1 {
        assert(pieces =~= seq![first]);
        assert(comma_free(first));
        lemma_split_single(first);
    } else {
        let rest = pieces.drop_first();
        let text = join(pieces);
        lemma_join_first(pieces);
        assert(comma_free(first));
        let at = first.len() as int;
        assert(text[at] == ',' && text[at + 1] == ' ');
        assert forall|before: int| 0 <= before < at implies !separator_at(text, before) by {
            assert(text[before] == first[before]);
        }
        lemma_first_separator_found(text, at);
        assert(text.take(at) =~= first);
        assert(text.skip(at + 2) =~= join(rest));
        assert forall|i: int| 0 <= i < rest.len() implies comma_free(#[trigger] rest[i]) by {
            assert(rest[i] == pieces[i + 1]);
        }
        lemma_split_join(rest);
        assert(split(text) =~= pieces);
    }
}

/// The characters of a text.
pub fn chars_of(text: &str) -> (chars: Vec<char>)
    ensures
        chars@ == text@,
{
    let mut chars: Vec<char> = Vec::new();
    for c in it: text.chars()
        invariant
            chars@ == it.seq().take(it.index()),
            it.seq() == text@,
    {
        chars.push(c);
    }
    chars
}

/// The text of a row of characters.
pub fn string_of(chars: &[char]) -> (text: String)
    ensures
        text@ == chars@,
{
    let mut text = String::new();
    let mut at: usize = 0;
    while at < chars.len()
        invariant
            at <= chars.len(),
            text@ == chars@.take(at as int),
        decreases chars.len() - at,
    {
        push_char(&mut text, chars[at]);
        proof {
            assert(chars@.take(at + 1) =~= chars@.take(at as int).push(chars@[at as int]));
        }
        at = at + 1;
    }
    proof {
        assert(chars@.take(at as int) =~= chars@);
    }
    text
}

/// Appends a row of characters to another.
pub fn push_chars(out: &mut Vec<char>, more: &[char])
    ensures
        final(out)@ == old(out)@ + more@,
{
    let mut at: usize = 0;
    while at < more.len()
        invariant
            at <= more.len(),
            out@ == old(out)@ + more@.take(at as int),
        decreases more.len() - at,
    {
        out.push(more[at]);
        proof {
            assert(more@.take(at + 1) =~= more@.take(at as int).push(more@[at as int]));
            assert(out@ =~= old(out)@ + more@.take(at + 1));
        }
        at = at + 1;
    }
    proof {
        assert(more@.take(at as int) =~= more@);
    }
}

/// Appends the characters of a text to a row of characters.
pub fn push_text(out: &mut Vec<char>, text: &str)
    ensures
        final(out)@ == old(out)@ + text@,
{
    let chars = chars_of(text);
    push_chars(out, chars.as_slice());
}

/// The character of a digit below sixteen.
pub fn char_of_digit(digit: u8) -> (c: char)
    requires
        digit < 16,
    ensures
        c == digit_char(digit as nat),
{
    if digit < 10 {
        (48u8 + digit) as char
    } else {
        (87u8 + digit) as char
    }
}

/// The digit that a character stands for; sixteen where it stands for none.
pub fn digit_of(c: char) -> (digit: u8)
    ensures
        digit == digit_value(c),
{
    let code = c as u32;
    if 48 <= code && code <= 57 {
        (code - 48) as u8
    } else if 97 <= code && code <= 102 {
        (code - 87) as u8
    } else if 65 <= code && code <= 70 {
        (code - 55) as u8
    } else {
        16
    }
}

/// Appends the digits of `n` in the given radix.
pub fn push_digits(out: &mut Vec<char>, n: u128, radix: u128)
    requires
        2 <= radix <= 16,
    ensures
        final(out)@ == old(out)@ + digits_text(n as nat, radix as nat),
    decreases n,
{
    if n < radix {
        out.push(char_of_digit(n as u8));
        proof {
            assert(out@ =~= old(out)@ + digits_text(n as nat, radix as nat));
        }
    } else {
        proof {
            lemma_fundamental_div_mod(n as int, radix as int);
            lemma_mod_bound(n as int, radix as int);
            assert(n / radix < n) by (nonlinear_arith)
                requires
                    n >= radix,
                    radix >= 2,
            ;
        }
        push_digits(out, n / radix, radix);
        out.push(char_of_digit((n % radix) as u8));
        proof {
            assert(out@ =~= old(out)@ + digits_text(n as nat, radix as nat));
        }
    }
}

/// Reads the characters from `low` up to `high` as a number of the given
/// radix that is at most `limit`.
pub fn parse_digits(chars: &[char], low: usize, high: usize, radix: u128, limit: u128) -> (number:
    Option<u128>)
    requires
        low <= high <= chars.len(),
        2 <= radix <= 16,
        limit <= 0xffff_ffff_ffff_ffff_ffff_ffff_ffff_ff,
    ensures
        number matches Some(n) ==> number_in_text(
            chars@.subrange(low as int, high as int),
            radix as nat,
            limit as nat,
        ) == Some(n as nat),
        number is None ==> number_in_text(
            chars@.subrange(low as int, high as int),
            radix as nat,
            limit as nat,
        ) is None,
{
    let ghost text = chars@.subrange(low as int, high as int);
    if low == high {
        return None;
    }
    let mut value: u128 = 0;
    let mut at: usize = low;
    proof {
        assert(text.take(0) =~= Seq::<char>::empty());
    }
    while at < high
        invariant
            low <= at <= high <= chars.len(),
            2 <= radix <= 16,
            limit <= 0xffff_ffff_ffff_ffff_ffff_ffff_ffff_ff,
            text == chars@.subrange(low as int, high as int),
            value <= limit,
            value == digits_value(text.take(at - low), radix as nat),
            forall|i: int| 0 <= i < at - low ==> digit_value(#[trigger] text[i]) < radix,
        decreases high - at,
    {
        let digit = digit_of(chars[at]);
        proof {
            assert(text[at - low] == chars@[at as int]);
        }
        if digit as u128 >= radix {
            return None;
        }
        proof {
            assert(value * radix <= limit * 16) by (nonlinear_arith)
                requires
                    value <= limit,
                    radix <= 16,
            ;
            let longer = text.take(at - low + 1);
            assert(longer.drop_last() =~= text.take(at - low));
            assert(longer.last() == text[at - low]);
            assert(value * radix == radix * value) by (nonlinear_arith);
            lemma_digits_value_prefix(text, radix as nat, at - low + 1);
        }
        let next = value * radix + digit as u128;
        if next > limit {
            return None;
        }
        value = next;
        at = at + 1;
    }
    proof {
        assert(text.take(high - low) =~= text);
    }
    Some(value)
}

/// The places of the pieces of a text: for each piece, where it starts and where it ends.
pub fn split_ranges(chars: &[char]) -> (ranges: Vec<(usize, usize)>)
    ensures
        ranges@.len() == split(chars@).len(),
        forall|i: int|
            0 <= i < ranges@.len() ==> {
                &&& (#[trigger] ranges@[i]).0 <= ranges@[i].1 <= chars@.len()
                &&& chars@.subrange(ranges@[i].0 as int, ranges@[i].1 as int) == split(chars@)[i]
            },
{
    let mut ranges: Vec<(usize, usize)> = Vec::new();
    let mut start: usize = 0;
    let mut at: usize = 0;
    let ghost mut done: Seq<Seq<char>> = Seq::empty();
    proof {
        assert(chars@.skip(0) =~= chars@);
        assert(done + split(chars@) =~= split(chars@));
    }
    while at < chars.len()
        invariant
            start <= at <= chars.len(),
            done.len() == ranges@.len(),
            split(chars@) == done + split(chars@.skip(start as int)),
            forall|i: int|
                0 <= i < ranges@.len() ==> {
                    &&& (#[trigger] ranges@[i]).0 <= ranges@[i].1 <= chars@.len()
                    &&& chars@.subrange(ranges@[i].0 as int, ranges@[i].1 as int) == done[i]
                },
            forall|place: int|
                0 <= place < at - start ==> !separator_at(chars@.skip(start as int), place),
        decreases chars.len() - at,
    {
        if at + 1 < chars.len() && chars[at] == ',' && chars[at + 1] == ' ' {
            proof {
                let rest = chars@.skip(start as int);
                assert(rest[at - start] == chars@[at as int]);
                assert(rest[at - start + 1] == chars@[at + 1]);
                lemma_first_separator_found(rest, at - start);
                assert(rest.take(at - start) =~= chars@.subrange(start as int, at as int));
                assert(rest.skip(at - start + 2) =~= chars@.skip(at + 2));
                let piece = chars@.subrange(start as int, at as int);
                assert(done + split(rest) =~= done.push(piece) + split(chars@.skip(at + 2)));
                done = done.push(piece);
            }
            ranges.push((start, at));
            start = at + 2;
            at = start;
        } else {
            proof {
                let rest = chars@.skip(start as int);
                if at + 1 < chars.len() {
                    assert(rest[at - start] == chars@[at as int]);
                    assert(rest[at - start + 1] == chars@[at + 1]);
                }
            }
            at = at + 1;
        }
    }
    proof {
        let rest = chars@.skip(start as int);
        lemma_split_single(rest);
        assert(rest =~= chars@.subrange(start as int, chars@.len() as int));
        assert(done + split(rest) =~= done.push(rest));
        done = done.push(rest);
    }
    ranges.push((start, chars.len()));
    ranges
}

} // verus!
