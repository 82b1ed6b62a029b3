//! The numerals of the JSON number grammar, and that they are exactly what
//! is read as a number.

use vstd::prelude::*;
use crate::chars::is_digit;
use crate::error::ErrorKind;
use crate::grammar::{
    char_at, digits_len, done, exponent_digits_at, exponent_scan, fraction_scan, integer_len,
    matches_at, number_scan,
};

verus! {

/// Every character of `text` is a digit.
pub open spec fn all_digits(text: Seq<char>) -> bool {
    forall|i: int| 0 <= i < text.len() ==> is_digit(#[trigger] text[i])
}

/// An integer part: digits, and no digit behind a leading `0`.
pub open spec fn is_integer_text(text: Seq<char>) -> bool {
    &&& text.len() >= 1
    &&& all_digits(text)
    &&& text[0] == '0' ==> text.len() == 1
}

/// A fraction: `.` and digits behind it.
pub open spec fn is_fraction_text(text: Seq<char>) -> bool {
    &&& text.len() >= 2
    &&& text[0] == '.'
    &&& all_digits(text.skip(1))
}

/// An exponent: `e` or `E`, perhaps a sign, and digits behind it.
pub open spec fn is_exponent_text(text: Seq<char>) -> bool {
    &&& text.len() >= 2
    &&& (text[0] == 'e' || text[0] == 'E')
    &&& if text[1] == '+' || text[1] == '-' {
        text.len() >= 3 && all_digits(text.skip(2))
    } else {
        all_digits(text.skip(1))
    }
}

/// The four parts of a numeral: a sign or nothing, an integer part, a
/// fraction or nothing, an exponent or nothing.
pub open spec fn are_number_parts(
    sign: Seq<char>,
    integer: Seq<char>,
    fraction: Seq<char>,
    exponent: Seq<char>,
) -> bool {
    &&& sign.len() == 0 || sign == seq!['-']
    &&& is_integer_text(integer)
    &&& fraction.len() == 0 || is_fraction_text(fraction)
    &&& exponent.len() == 0 || is_exponent_text(exponent)
}

/// `text` is a numeral of the JSON number grammar.
pub open spec fn is_number_text(text: Seq<char>) -> bool {
    exists|sign: Seq<char>, integer: Seq<char>, fraction: Seq<char>, exponent: Seq<char>|
        #[trigger] are_number_parts(sign, integer, fraction, exponent) && text == sign + integer
            + fraction + exponent
}

/// A character that could lengthen a numeral.
pub open spec fn continues_number(c: char) -> bool {
    is_digit(c) || c == '.' || c == 'e' || c == 'E'
}

/// `part` stands in `s` at `at`.
pub open spec fn stands_at(s: Seq<char>, at: int, part: Seq<char>) -> bool {
    &&& 0 <= at
    &&& at + part.len() <= s.len()
    &&& forall|i: int| 0 <= i < part.len() ==> s[at + i] == #[trigger] part[i]
}

/// A run of `n` digits at `pos` that ends at the end of the input or before
/// another character is the whole run there.
pub proof fn lemma_digits_run(s: Seq<char>, pos: int, n: nat)
    requires
        0 <= pos,
        pos + n <= s.len(),
        forall|i: int| pos <= i < pos + n ==> is_digit(#[trigger] s[i]),
        pos + n == s.len() || !is_digit(s[pos + n]),
    ensures
        digits_len(s, pos) == n,
    decreases n,
{
    if n > 0 {
        assert(is_digit(s[pos]));
        lemma_digits_run(s, pos + 1, (n - 1) as nat);
    }
}

/// Digits never reach beyond the input.
pub proof fn lemma_digits_in_bounds(s: Seq<char>, pos: int)
    requires
        0 <= pos <= s.len(),
    ensures
        pos + digits_len(s, pos) <= s.len(),
    decreases s.len() - pos,
{
    if pos < s.len() && is_digit(s[pos]) {
        lemma_digits_in_bounds(s, pos + 1);
    }
}

/// The run of digits at `pos` holds digits only.
pub proof fn lemma_digits_are_digits(s: Seq<char>, pos: int)
    requires
        0 <= pos,
    ensures
        pos + digits_len(s, pos) <= s.len() || digits_len(s, pos) == 0,
        forall|i: int| pos <= i < pos + digits_len(s, pos) ==> is_digit(#[trigger] s[i]),
    decreases s.len() - pos,
{
    if pos < s.len() && is_digit(s[pos]) {
        lemma_digits_are_digits(s, pos + 1);
    }
}

/// A fraction never reaches beyond the input.
pub proof fn lemma_fraction_in_bounds(s: Seq<char>, pos: int)
    requires
        0 <= pos <= s.len(),
    ensures
        pos + fraction_scan(s, pos).advance <= s.len(),
{
    if char_at(s, pos) == Some('.') {
        lemma_digits_in_bounds(s, pos + 1);
    }
}

/// An exponent never reaches beyond the input.
pub proof fn lemma_exponent_in_bounds(s: Seq<char>, pos: int)
    requires
        0 <= pos <= s.len(),
    ensures
        pos + exponent_scan(s, pos).advance <= s.len(),
{
    if char_at(s, pos) == Some('e') || char_at(s, pos) == Some('E') {
        lemma_digits_in_bounds(s, exponent_digits_at(s, pos));
    }
}

/// A number never reaches beyond the input.
pub proof fn lemma_number_in_bounds(s: Seq<char>, pos: int)
    requires
        0 <= pos <= s.len(),
    ensures
        pos + number_scan(s, pos).advance <= s.len(),
{
    let int_at = if char_at(s, pos) == Some('-') {
        pos + 1
    } else {
        pos
    };
    lemma_digits_in_bounds(s, int_at);
    let frac_at = int_at + integer_len(s, int_at);
    lemma_fraction_in_bounds(s, frac_at);
    let exp_at = frac_at + fraction_scan(s, frac_at).advance;
    lemma_exponent_in_bounds(s, exp_at);
}

/// Where `text` stands at `pos`, each of the four parts it is made of stands
/// at its own place.
pub proof fn lemma_parts_in_place(
    s: Seq<char>,
    pos: int,
    sign: Seq<char>,
    integer: Seq<char>,
    fraction: Seq<char>,
    exponent: Seq<char>,
)
    requires
        matches_at(s, pos, sign + integer + fraction + exponent),
    ensures
        stands_at(s, pos, sign),
        stands_at(s, pos + sign.len(), integer),
        stands_at(s, pos + sign.len() + integer.len(), fraction),
        stands_at(s, pos + sign.len() + integer.len() + fraction.len(), exponent),
{
    let text = sign + integer + fraction + exponent;
    let end = pos + text.len();
    assert forall|i: int| 0 <= i < text.len() implies s[pos + i] == #[trigger] text[i] by {
        assert(s.subrange(pos, end)[i] == s[pos + i]);
    }
    assert forall|i: int| 0 <= i < sign.len() implies s[pos + i] == #[trigger] sign[i] by {
        assert(text[i] == sign[i]);
    }
    assert forall|i: int| 0 <= i < integer.len() implies s[pos + sign.len() + i]
        == #[trigger] integer[i] by {
        assert(text[i + sign.len()] == integer[i]);
    }
    assert forall|i: int| 0 <= i < fraction.len() implies s[pos + sign.len() + integer.len() + i]
        == #[trigger] fraction[i] by {
        assert(text[i + sign.len() + integer.len()] == fraction[i]);
    }
    assert forall|i: int| 0 <= i < exponent.len() implies s[pos + sign.len() + integer.len()
        + fraction.len() + i] == #[trigger] exponent[i] by {
        assert(text[i + sign.len() + integer.len() + fraction.len()] == exponent[i]);
    }
}

/// Where `part` stands at `at`, is all digits from its place `from` on, and
/// no digit follows it, the run of digits at `at + from` is the rest of
/// `part`.
pub proof fn lemma_digits_of_part(s: Seq<char>, at: int, part: Seq<char>, from: int)
    requires
        stands_at(s, at, part),
        0 <= from <= part.len(),
        all_digits(part.skip(from)),
        at + part.len() == s.len() || !is_digit(s[at + part.len()]),
    ensures
        digits_len(s, at + from) == part.len() - from,
{
    assert forall|i: int| at + from <= i < at + part.len() implies is_digit(#[trigger] s[i]) by {
        assert(s[at + (i - at)] == part[i - at]);
        assert(part.skip(from)[i - at - from] == part[i - at]);
    }
    lemma_digits_run(s, at + from, (part.len() - from) as nat);
}

/// An integer part that stands at `at`, with no digit behind it, is the
/// integer part that is read there.
pub proof fn lemma_integer_in_place(s: Seq<char>, at: int, integer: Seq<char>)
    requires
        stands_at(s, at, integer),
        is_integer_text(integer),
        at + integer.len() == s.len() || !is_digit(s[at + integer.len()]),
    ensures
        integer_len(s, at) == integer.len(),
{
    assert(s[at + 0] == integer[0]);
    if integer[0] != '0' {
        assert(integer.skip(0) =~= integer);
        lemma_digits_of_part(s, at, integer, 0);
    }
}

/// A fraction that stands at `at`, with no digit behind it, is the fraction
/// that is read there; and none is read where the character at `at` is no
/// `.`.
pub proof fn lemma_fraction_in_place(s: Seq<char>, at: int, fraction: Seq<char>)
    requires
        stands_at(s, at, fraction),
        if fraction.len() == 0 {
            char_at(s, at) != Some('.')
        } else {
            is_fraction_text(fraction) && (at + fraction.len() == s.len() || !is_digit(
                s[at + fraction.len()],
            ))
        },
    ensures
        fraction_scan(s, at) == done((), fraction.len() as int),
{
    if fraction.len() > 0 {
        assert(s[at + 0] == fraction[0]);
        lemma_digits_of_part(s, at, fraction, 1);
    }
}

/// An exponent that stands at `at`, with no digit behind it, is the exponent
/// that is read there; and none is read where the character at `at` is no
/// `e` or `E`.
pub proof fn lemma_exponent_in_place(s: Seq<char>, at: int, exponent: Seq<char>)
    requires
        stands_at(s, at, exponent),
        if exponent.len() == 0 {
            char_at(s, at) != Some('e') && char_at(s, at) != Some('E')
        } else {
            is_exponent_text(exponent) && (at + exponent.len() == s.len() || !is_digit(
                s[at + exponent.len()],
            ))
        },
    ensures
        exponent_scan(s, at) == done((), exponent.len() as int),
{
    if exponent.len() > 0 {
        assert(s[at + 0] == exponent[0]);
        assert(s[at + 1] == exponent[1]);
        if exponent[1] == '+' || exponent[1] == '-' {
            lemma_digits_of_part(s, at, exponent, 2);
        } else {
            lemma_digits_of_part(s, at, exponent, 1);
        }
    }
}

/// A numeral that stands at `pos`, and is not followed by a character that
/// could lengthen it, is read as a number, whole and unchanged.
pub proof fn lemma_number_parts_scan(
    s: Seq<char>,
    pos: int,
    sign: Seq<char>,
    integer: Seq<char>,
    fraction: Seq<char>,
    exponent: Seq<char>,
)
    requires
        are_number_parts(sign, integer, fraction, exponent),
        matches_at(s, pos, sign + integer + fraction + exponent),
        ({
            let end = pos + (sign + integer + fraction + exponent).len();
            end == s.len() || !continues_number(s[end])
        }),
    ensures
        number_scan(s, pos) == done(
            sign + integer + fraction + exponent,
            (sign + integer + fraction + exponent).len() as int,
        ),
{
    let text = sign + integer + fraction + exponent;
    let int_at = pos + sign.len();
    let frac_at = int_at + integer.len();
    let exp_at = frac_at + fraction.len();
    let end = exp_at + exponent.len();
    assert(text.len() == end - pos);
    lemma_parts_in_place(s, pos, sign, integer, fraction, exponent);
    assert(is_digit(integer[0]));
    assert(s[int_at + 0] == integer[0]);
    assert(int_at == if char_at(s, pos) == Some('-') {
        pos + 1
    } else {
        pos
    }) by {
        if sign.len() > 0 {
            assert(sign[0] == '-');
            assert(s[pos + 0] == sign[0]);
        }
    }
    if fraction.len() > 0 {
        assert(s[frac_at + 0] == fraction[0]);
    }
    if exponent.len() > 0 {
        assert(s[exp_at + 0] == exponent[0]);
    }
    assert(integer_len(s, int_at) == integer.len()) by {
        lemma_integer_in_place(s, int_at, integer);
    }
    assert(fraction_scan(s, frac_at) == done((), fraction.len() as int)) by {
        lemma_fraction_in_place(s, frac_at, fraction);
    }
    assert(exponent_scan(s, exp_at) == done((), exponent.len() as int)) by {
        lemma_exponent_in_place(s, exp_at, exponent);
    }
    assert(s.subrange(pos, end) == text);
}

/// What is read as a number is a numeral of the JSON number grammar.
pub proof fn lemma_number_scan_is_numeral(s: Seq<char>, pos: int)
    ensures
        match number_scan(s, pos).result {
            Ok(text) => is_number_text(text),
            Err(kind) => kind == ErrorKind::InvalidNumber,
        },
{
    let scan = number_scan(s, pos);
    if scan.result.is_ok() {
        let text = scan.result.unwrap();
        let int_at = if char_at(s, pos) == Some('-') {
            pos + 1
        } else {
            pos
        };
        let frac_at = int_at + integer_len(s, int_at);
        let exp_at = frac_at + fraction_scan(s, frac_at).advance;
        let end = exp_at + exponent_scan(s, exp_at).advance;
        assert(0 <= int_at < s.len()) by {
            if int_at < 0 || int_at >= s.len() {
                assert(digits_len(s, int_at) == 0);
            }
        }
        assert(0 <= pos);
        lemma_number_in_bounds(s, pos);
        lemma_digits_in_bounds(s, int_at);
        lemma_fraction_in_bounds(s, frac_at);
        lemma_exponent_in_bounds(s, exp_at);
        let sign = s.subrange(pos, int_at);
        let integer = s.subrange(int_at, frac_at);
        let fraction = s.subrange(frac_at, exp_at);
        let exponent = s.subrange(exp_at, end);
        assert(is_integer_text(integer)) by {
            lemma_digits_are_digits(s, int_at);
            if char_at(s, int_at) != Some('0') {
                assert forall|i: int| 0 <= i < integer.len() implies is_digit(
                    #[trigger] integer[i],
                ) by {
                    assert(is_digit(s[int_at + i]));
                }
            }
        }
        assert(fraction.len() == 0 || is_fraction_text(fraction)) by {
            if fraction.len() > 0 {
                lemma_digits_are_digits(s, frac_at + 1);
                assert forall|i: int| 0 <= i < fraction.skip(1).len() implies is_digit(
                    #[trigger] fraction.skip(1)[i],
                ) by {
                    assert(is_digit(s[frac_at + 1 + i]));
                }
            }
        }
        assert(exponent.len() == 0 || is_exponent_text(exponent)) by {
            if exponent.len() > 0 {
                let digits_at = exponent_digits_at(s, exp_at);
                let skipped = digits_at - exp_at;
                lemma_digits_are_digits(s, digits_at);
                lemma_digits_in_bounds(s, digits_at);
                assert(exponent[1] == s[exp_at + 1]);
                assert forall|i: int| 0 <= i < exponent.skip(skipped).len() implies is_digit(
                    #[trigger] exponent.skip(skipped)[i],
                ) by {
                    assert(is_digit(s[digits_at + i]));
                }
            }
        }
        assert(sign.len() == 0 || sign == seq!['-']) by {
            if sign.len() > 0 {
                assert(sign =~= seq!['-']);
            }
        }
        assert(are_number_parts(sign, integer, fraction, exponent));
        assert(text =~= sign + integer + fraction + exponent);
    }
}

} // verus!
