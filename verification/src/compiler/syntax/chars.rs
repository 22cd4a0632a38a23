//! The character classes and number syntax that the lexer goes by.

use vstd::prelude::*;

verus! {

/// Whether a character is white space: one of the code points that have
/// Unicode's `White_Space` property. These are the controls U+0009 to U+000D,
/// the space, U+0085, U+00A0, U+1680, U+2000 to U+200A, U+2028, U+2029,
/// U+202F, U+205F and U+3000.
pub open spec fn char_is_whitespace(c: char) -> bool {
    let u = c as u32;
    (0x09 <= u <= 0x0d) || u == 0x20 || u == 0x85 || u == 0xa0 || u == 0x1680 || (0x2000 <= u
        <= 0x200a) || u == 0x2028 || u == 0x2029 || u == 0x202f || u == 0x205f || u == 0x3000
}

/// Whether a character beyond ASCII is alphabetic or numeric, as Unicode's
/// `Alphabetic` property and its number categories have it: what
/// `char::is_alphanumeric` returns for it.
pub uninterp spec fn alphanumeric_beyond_ascii(c: char) -> bool;

/// Whether a character is alphabetic or numeric. In ASCII these are the
/// letters and the digits; beyond ASCII Unicode's tables decide.
pub open spec fn char_is_alphanumeric(c: char) -> bool {
    if c as u32 <= 0x7f {
        ('a' <= c <= 'z') || ('A' <= c <= 'Z') || ('0' <= c <= '9')
    } else {
        alphanumeric_beyond_ascii(c)
    }
}

/// `char::is_whitespace` of the standard library: whether the character has
/// the `White_Space` property.
pub assume_specification[ char::is_whitespace ](c: char) -> (r: bool)
    ensures
        r == char_is_whitespace(c),
;

/// `char::is_alphanumeric` of the standard library: in ASCII the letters and
/// the digits, beyond ASCII what Unicode's tables say.
pub assume_specification[ char::is_alphanumeric ](c: char) -> (r: bool)
    ensures
        r == if c as u32 <= 0x7f {
            ('a' <= c <= 'z') || ('A' <= c <= 'Z') || ('0' <= c <= '9')
        } else {
            alphanumeric_beyond_ascii(c)
        },
;

/// The value of a character as a digit: `0` to `9` stand for zero to nine
/// and the letters, in either case, for ten to thirty-five. A character is a
/// digit of a radix if its value is below the radix.
pub open spec fn digit_of(c: char, radix: u32) -> Option<u32> {
    let value: int = if '0' <= c <= '9' {
        c as u32 - '0' as u32
    } else if 'a' <= c <= 'z' {
        c as u32 - 'a' as u32 + 10
    } else if 'A' <= c <= 'Z' {
        c as u32 - 'A' as u32 + 10
    } else {
        36
    };
    if value < radix {
        Some(value as u32)
    } else {
        None
    }
}

/// `char::is_digit` of the standard library, which panics on a radix above
/// 36: whether the character is a digit of the radix.
pub assume_specification[ char::is_digit ](c: char, radix: u32) -> (r: bool)
    requires
        2 <= radix <= 36,
    ensures
        r == (digit_of(c, radix) is Some),
;

/// `String::push` of the standard library: appends one character.
pub assume_specification[ String::push ](s: &mut String, c: char)
    ensures
        final(s)@ == old(s)@.push(c),
;

/// The number that a run of digits writes in a radix, the most significant
/// digit first. A character that is no digit counts as zero.
pub open spec fn digits_value(digits: Seq<char>, radix: u32) -> nat
    decreases digits.len(),
{
    if digits.len() == 0 {
        0
    } else {
        let last = match digit_of(digits.last(), radix) {
            Some(d) => d as nat,
            None => 0,
        };
        digits_value(digits.drop_last(), radix) * (radix as nat) + last
    }
}

/// Every character of a text is a digit of the radix.
pub open spec fn all_digits(digits: Seq<char>, radix: u32) -> bool {
    forall|i: int| 0 <= i < digits.len() ==> digit_of(#[trigger] digits[i], radix) is Some
}

/// Reads a run of digits as a 32-bit signed integer. The body is
/// `i32::from_str_radix` of the standard library, for a text without a sign;
/// the contract claims that it yields the number that the digits write, and
/// fails exactly when that number does not fit.
#[verifier::external_body]
pub(crate) fn parse_digits(digits: &str, radix: u32) -> (r: Option<i32>)
    requires
        2 <= radix <= 36,
        digits@.len() > 0,
        all_digits(digits@, radix),
    ensures
        r == if digits_value(digits@, radix) <= i32::MAX {
            Some(digits_value(digits@, radix) as i32)
        } else {
            None
        },
{
    i32::from_str_radix(digits, radix).ok()
}

/// A zero in front of a run of digits changes nothing.
pub proof fn lemma_leading_zero(digits: Seq<char>, radix: u32)
    requires
        2 <= radix <= 36,
    ensures
        digits_value(seq!['0'] + digits, radix) == digits_value(digits, radix),
    decreases digits.len(),
{
    let whole = seq!['0'] + digits;
    if digits.len() == 0 {
        assert(whole.drop_last() =~= Seq::<char>::empty());
        assert(digits_value(whole.drop_last(), radix) == 0);
        assert(digit_of('0', radix) == Some(0u32));
    } else {
        assert(whole.drop_last() =~= seq!['0'] + digits.drop_last());
        assert(whole.last() == digits.last());
        lemma_leading_zero(digits.drop_last(), radix);
    }
}

} // verus!
